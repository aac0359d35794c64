//! The host's persistent settings.
use vstd::prelude::*;
use vstd::string::*;
use uuid::Uuid;
use crate::crypto::{
    hex_bytes, hex_lower, hex_round_trip, hex_upper, lower_hex_digit, upper_hex_digit,
};
use crate::text::{
    chars_of, join, join_texts, split_on, splitting_at_a_character_undoes_joining, text_of, texts,
    trim, trim_text, upper, upper_char, upper_text,
};

verus! {

pub const DEFAULT_CONFIG_FILE: &'static str = "sunrise.toml";

pub const DEFAULT_HTTP_PORT: u16 = 47989;

pub const DEFAULT_HTTPS_PORT: u16 = 47984;

pub const DEFAULT_RTSP_PORT: u16 = 48010;

/// The host's settings.
#[derive(Clone, Debug, PartialEq, Eq)]
pub struct SunriseConfig {
    pub host_name: String,
    pub http_port: u16,
    pub https_port: u16,
    pub rtsp_port: u16,
    pub unique_id: String,
    pub uuid: String,
    pub mac_address: String,
    pub server_cert_pem: Option<String>,
    pub server_private_key_pem: Option<String>,
    pub paired_clients: Vec<PairedClient>,
}

/// A client that has paired with the host.
#[derive(Clone, Debug, PartialEq, Eq)]
pub struct PairedClient {
    pub unique_id: String,
    pub client_cert_pem: String,
}

// ---------------------------------------------------------------------------
// Outside functions
// ---------------------------------------------------------------------------
/// The bytes are those of a random UUID: version 4, variant of RFC 4122.
pub open spec fn is_random_uuid(bytes: Seq<u8>) -> bool {
    &&& bytes.len() == 16
    &&& bytes[6] / 16 == 4
    &&& bytes[8] / 64 == 2
}

/// The text form of a UUID: lower-case digits in five groups.
pub open spec fn hyphenated(bytes: Seq<u8>) -> Seq<char> {
    join(
        seq![
            hex_lower(bytes.subrange(0, 4)),
            hex_lower(bytes.subrange(4, 6)),
            hex_lower(bytes.subrange(6, 8)),
            hex_lower(bytes.subrange(8, 10)),
            hex_lower(bytes.subrange(10, 16)),
        ],
        "-"@,
    )
}

/// `uuid::Uuid::new_v4`: the bytes of a fresh random UUID. Its version and
/// variant are known; nothing else is.
#[verifier::external_body]
fn new_uuid() -> (bytes: [u8; 16])
    ensures
        is_random_uuid(bytes@),
{
    *Uuid::new_v4().as_bytes()
}

/// `uuid::Uuid`'s `Display`: the hyphenated text form.
#[verifier::external_body]
fn uuid_text(bytes: &[u8; 16]) -> (text: String)
    ensures
        text@ == hyphenated(bytes@),
{
    Uuid::from_bytes(*bytes).to_string()
}

/// `uuid::Uuid::simple` and its `Display`: all digits without hyphens.
#[verifier::external_body]
fn uuid_simple_text(bytes: &[u8; 16]) -> (text: String)
    ensures
        text@ == hex_lower(bytes@),
{
    Uuid::from_bytes(*bytes).simple().to_string()
}

// ---------------------------------------------------------------------------
// Names and numbers of the host
// ---------------------------------------------------------------------------
/// The name of this host: that in the first variable that is set, unless it is
/// blank.
pub open spec fn host_name_from(computer_name: Option<&str>, host_name: Option<&str>) -> Seq<char> {
    let name = if computer_name is Some {
        computer_name
    } else {
        host_name
    };
    match name {
        Some(value) if trim(value@).len() > 0 => value@,
        _ => "sunrise-host"@,
    }
}

/// The name of this host. `computer_name` and `host_name` hold the variables
/// `COMPUTERNAME` and `HOSTNAME` where they are set.
pub fn default_host_name(computer_name: Option<&str>, host_name: Option<&str>) -> (name: String)
    ensures
        name@ == host_name_from(computer_name, host_name),
{
    let value = if computer_name.is_some() {
        computer_name
    } else {
        host_name
    };
    match value {
        Some(name) => {
            let trimmed = trim_text(name);
            if trimmed.as_str().is_empty() {
                "sunrise-host".to_owned()
            } else {
                name.to_owned()
            }
        },
        None => "sunrise-host".to_owned(),
    }
}

/// The identifier made of random bytes: the first eight, in upper-case digits.
pub open spec fn unique_id_text(bytes: Seq<u8>) -> Seq<char> {
    hex_upper(bytes.take(8))
}

/// The identifier that a UUID gives.
pub fn unique_id_from(bytes: &[u8; 16]) -> (id: String)
    ensures
        id@ == unique_id_text(bytes@),
{
    let simple = uuid_simple_text(bytes);
    let chars = chars_of(simple.as_str());
    let short = text_of(&chars, 0, 16);
    let id = upper_text(short.as_str());
    proof {
        let wanted = hex_upper(bytes@.take(8));
        assert forall|i: int| 0 <= i < 16 implies id@[i] == wanted[i] by {
            let n: int = if i % 2 == 0 {
                bytes@[i / 2] / 16
            } else {
                bytes@[i / 2] % 16
            } as int;
            assert(short@[i] == lower_hex_digit(n));
            assert(upper_char(lower_hex_digit(n)) == upper_hex_digit(n));
        }
        assert(id@ =~= wanted);
    }
    id
}

/// The first byte of a hardware address that is locally administered and not a
/// group address.
pub open spec fn local_address_byte(byte: u8) -> u8 {
    (byte & 0xfe) | 0x02
}

/// The hardware address made of random bytes: the first six, the first of them
/// made that of a local address, in upper-case digits with colons between.
pub open spec fn mac_text(bytes: Seq<u8>) -> Seq<char> {
    let address = bytes.take(6).update(0, local_address_byte(bytes[0]));
    join(Seq::new(6, |i: int| hex_upper(seq![address[i]])), ":"@)
}

/// Generated hardware addresses are local ones and no group addresses.
pub proof fn generated_addresses_are_local(byte: u8)
    ensures
        local_address_byte(byte) & 1 == 0,
        local_address_byte(byte) & 2 == 2,
        local_address_byte(byte) & 0xfc == byte & 0xfc,
{
    assert(((byte & 0xfe) | 0x02) & 1 == 0) by (bit_vector);
    assert(((byte & 0xfe) | 0x02) & 2 == 2) by (bit_vector);
    assert(((byte & 0xfe) | 0x02) & 0xfc == byte & 0xfc) by (bit_vector);
}

proof fn lemma_join_len(pieces: Seq<Seq<char>>, separator: Seq<char>, len: int)
    requires
        pieces.len() > 0,
        separator.len() == 1,
        forall|i: int| 0 <= i < pieces.len() ==> (#[trigger] pieces[i]).len() == len,
    ensures
        join(pieces, separator).len() == pieces.len() * (len + 1) - 1,
    decreases pieces.len(),
{
    if pieces.len() > 1 {
        let shorter = pieces.drop_last();
        assert forall|i: int| 0 <= i < shorter.len() implies (#[trigger] shorter[i]).len() == len by {
            assert(shorter[i] == pieces[i]);
        }
        lemma_join_len(shorter, separator, len);
        assert(pieces[pieces.len() - 1].len() == len);
        assert(pieces.len() * (len + 1) == shorter.len() * (len + 1) + (len + 1)) by (nonlinear_arith)
            requires
                pieces.len() == shorter.len() + 1,
        ;
    } else {
        assert(pieces.len() * (len + 1) == len + 1) by (nonlinear_arith)
            requires
                pieces.len() == 1,
        ;
    }
}

/// Identifiers have sixteen characters, hardware addresses seventeen and UUIDs
/// thirty-six.
pub proof fn fresh_identifiers_have_their_lengths(bytes: Seq<u8>)
    requires
        bytes.len() == 16,
    ensures
        unique_id_text(bytes).len() == 16,
        mac_text(bytes).len() == 17,
        hyphenated(bytes).len() == 36,
{
    reveal_strlit(":");
    reveal_strlit("-");
    let address = bytes.take(6).update(0, local_address_byte(bytes[0]));
    lemma_join_len(Seq::new(6, |i: int| hex_upper(seq![address[i]])), ":"@, 2);
    let a = hex_lower(bytes.subrange(0, 4));
    let b = hex_lower(bytes.subrange(4, 6));
    let c = hex_lower(bytes.subrange(6, 8));
    let d = hex_lower(bytes.subrange(8, 10));
    let e = hex_lower(bytes.subrange(10, 16));
    let all = seq![a, b, c, d, e];
    assert(all.drop_last() =~= seq![a, b, c, d]);
    assert(seq![a, b, c, d].drop_last() =~= seq![a, b, c]);
    assert(seq![a, b, c].drop_last() =~= seq![a, b]);
    assert(seq![a, b].drop_last() =~= seq![a]);
    assert(join(seq![a], "-"@) == a);
    assert(join(seq![a, b], "-"@) == a + "-"@ + b);
    assert(join(seq![a, b, c], "-"@) == a + "-"@ + b + "-"@ + c);
    assert(join(seq![a, b, c, d], "-"@) == a + "-"@ + b + "-"@ + c + "-"@ + d);
}

/// One of the sixteen upper-case digits.
fn upper_digit(n: u8) -> (c: char)
    requires
        n < 16,
    ensures
        c == upper_hex_digit(n as int),
{
    if n < 10 {
        (48 + n) as char
    } else {
        (55 + n) as char
    }
}

/// A byte in two upper-case digits.
fn byte_text(byte: u8) -> (text: String)
    ensures
        text@ == hex_upper(seq![byte]),
{
    let mut text = String::new();
    text.push(upper_digit(byte / 16));
    text.push(upper_digit(byte % 16));
    assert(text@ =~= hex_upper(seq![byte]));
    text
}

/// The hardware address that a UUID gives.
pub fn mac_address_from(bytes: &[u8; 16]) -> (address: String)
    ensures
        address@ == mac_text(bytes@),
{
    let first: u8 = bytes[0];
    let local: u8 = (first & 0xfe) | 0x02;
    let parts: Vec<String> = vec![
        byte_text(local),
        byte_text(bytes[1]),
        byte_text(bytes[2]),
        byte_text(bytes[3]),
        byte_text(bytes[4]),
        byte_text(bytes[5]),
    ];
    proof {
        let address = bytes@.take(6).update(0, local_address_byte(bytes@[0]));
        assert(texts(parts@) =~= Seq::new(6, |i: int| hex_upper(seq![address[i]])));
    }
    join_texts(&parts, ":")
}

// ---------------------------------------------------------------------------
// Settings
// ---------------------------------------------------------------------------
impl SunriseConfig {
    /// The settings are fresh ones: default ports, no certificate, no clients,
    /// and identifiers made of the given bytes.
    pub open spec fn is_fresh(
        &self,
        host_name: Seq<char>,
        uuid: Seq<u8>,
        id: Seq<u8>,
        mac: Seq<u8>,
    ) -> bool {
        &&& self.host_name@ == host_name
        &&& self.http_port == DEFAULT_HTTP_PORT
        &&& self.https_port == DEFAULT_HTTPS_PORT
        &&& self.rtsp_port == DEFAULT_RTSP_PORT
        &&& self.unique_id@ == unique_id_text(id)
        &&& self.uuid@ == hyphenated(uuid)
        &&& self.mac_address@ == mac_text(mac)
        &&& self.server_cert_pem is None
        &&& self.server_private_key_pem is None
        &&& self.paired_clients@.len() == 0
    }

    /// Fresh settings for a host, with identifiers made of the given bytes.
    pub fn from_random_bytes(
        host_name: String,
        uuid: &[u8; 16],
        id: &[u8; 16],
        mac: &[u8; 16],
    ) -> (config: Self)
        ensures
            config.is_fresh(host_name@, uuid@, id@, mac@),
    {
        SunriseConfig {
            host_name,
            http_port: DEFAULT_HTTP_PORT,
            https_port: DEFAULT_HTTPS_PORT,
            rtsp_port: DEFAULT_RTSP_PORT,
            unique_id: unique_id_from(id),
            uuid: uuid_text(uuid),
            mac_address: mac_address_from(mac),
            server_cert_pem: None,
            server_private_key_pem: None,
            paired_clients: Vec::new(),
        }
    }

    /// Fresh settings with random identifiers.
    pub fn generate(computer_name: Option<&str>, host_name: Option<&str>) -> (config: Self)
        ensures
            exists|uuid: Seq<u8>, id: Seq<u8>, mac: Seq<u8>|
                {
                    &&& is_random_uuid(uuid)
                    &&& is_random_uuid(id)
                    &&& is_random_uuid(mac)
                    &&& #[trigger] config.is_fresh(
                        host_name_from(computer_name, host_name),
                        uuid,
                        id,
                        mac,
                    )
                },
    {
        let uuid = new_uuid();
        let id = new_uuid();
        let mac = new_uuid();
        let name = default_host_name(computer_name, host_name);
        Self::from_random_bytes(name, &uuid, &id, &mac)
    }
}

/// Settings as they were read from a file: what older files do not hold may be
/// absent.
#[derive(Debug, PartialEq, Eq)]
pub struct StoredConfig {
    pub host_name: String,
    pub http_port: Option<u16>,
    pub https_port: Option<u16>,
    pub rtsp_port: Option<u16>,
    pub unique_id: String,
    pub uuid: String,
    pub mac_address: String,
    pub server_cert_pem: Option<String>,
    pub server_private_key_pem: Option<String>,
    pub paired_clients: Option<Vec<PairedClient>>,
}

/// A port that may be absent, or its default.
pub open spec fn port_or(port: Option<u16>, default: u16) -> u16 {
    match port {
        Some(p) => p,
        None => default,
    }
}

impl SunriseConfig {
    /// The settings that a file holds, with defaults for what is absent: the usual
    /// ports, no certificate, no clients.
    pub fn from_stored(stored: StoredConfig) -> (config: Self)
        ensures
            config.host_name == stored.host_name,
            config.http_port == port_or(stored.http_port, DEFAULT_HTTP_PORT),
            config.https_port == port_or(stored.https_port, DEFAULT_HTTPS_PORT),
            config.rtsp_port == port_or(stored.rtsp_port, DEFAULT_RTSP_PORT),
            config.unique_id == stored.unique_id,
            config.uuid == stored.uuid,
            config.mac_address == stored.mac_address,
            config.server_cert_pem == stored.server_cert_pem,
            config.server_private_key_pem == stored.server_private_key_pem,
            config.paired_clients@ == match stored.paired_clients {
                Some(clients) => clients@,
                None => Seq::empty(),
            },
    {
        let http_port: u16 = match stored.http_port {
            Some(port) => port,
            None => DEFAULT_HTTP_PORT,
        };
        let https_port: u16 = match stored.https_port {
            Some(port) => port,
            None => DEFAULT_HTTPS_PORT,
        };
        let rtsp_port: u16 = match stored.rtsp_port {
            Some(port) => port,
            None => DEFAULT_RTSP_PORT,
        };
        let paired_clients: Vec<PairedClient> = match stored.paired_clients {
            Some(clients) => clients,
            None => Vec::new(),
        };
        SunriseConfig {
            host_name: stored.host_name,
            http_port,
            https_port,
            rtsp_port,
            unique_id: stored.unique_id,
            uuid: stored.uuid,
            mac_address: stored.mac_address,
            server_cert_pem: stored.server_cert_pem,
            server_private_key_pem: stored.server_private_key_pem,
            paired_clients,
        }
    }
}

/// The settings to run with: those that were loaded, or fresh ones where there
/// are none yet. The second part tells whether they are fresh and have to be
/// written.
pub fn load_or_generate(
    loaded: Option<SunriseConfig>,
    computer_name: Option<&str>,
    host_name: Option<&str>,
) -> (settings: (SunriseConfig, bool))
    ensures
        match loaded {
            Some(config) => settings.0 == config && !settings.1,
            None => settings.1 && exists|uuid: Seq<u8>, id: Seq<u8>, mac: Seq<u8>|
                {
                    &&& is_random_uuid(uuid)
                    &&& is_random_uuid(id)
                    &&& is_random_uuid(mac)
                    &&& #[trigger] settings.0.is_fresh(
                        host_name_from(computer_name, host_name),
                        uuid,
                        id,
                        mac,
                    )
                },
        },
{
    match loaded {
        Some(config) => (config, false),
        None => (SunriseConfig::generate(computer_name, host_name), true),
    }
}

/// Where the settings are kept unless another place is named.
pub fn default_config_path() -> (path: &'static str)
    ensures
        path@ == DEFAULT_CONFIG_FILE@,
{
    DEFAULT_CONFIG_FILE
}

// ---------------------------------------------------------------------------
// What settings hold
// ---------------------------------------------------------------------------
/// Fresh settings have the usual ports, 47989 for HTTP, 47984 for HTTPS and 48010 for
/// RTSP, no certificate and no clients, and keep the given name.
pub proof fn fresh_settings_have_the_usual_ports(
    host_name: String,
    uuid: &[u8; 16],
    id: &[u8; 16],
    mac: &[u8; 16],
    config: SunriseConfig,
)
    requires
        call_ensures(SunriseConfig::from_random_bytes, (host_name, uuid, id, mac), config),
    ensures
        config.host_name@ == host_name@,
        config.http_port == 47989,
        config.https_port == 47984,
        config.rtsp_port == 48010,
        config.server_cert_pem is None && config.server_private_key_pem is None,
        config.paired_clients@.len() == 0,
        config.unique_id@.len() == 16,
        config.mac_address@.len() == 17,
        config.uuid@.len() == 36,
        hex_bytes(config.unique_id@) == Some(id@.take(8)),
{
    fresh_identifiers_have_their_lengths(uuid@);
    fresh_identifiers_have_their_lengths(id@);
    fresh_identifiers_have_their_lengths(mac@);
    hex_round_trip(id@.take(8));
}

/// Stored settings are kept as they are; ports that are absent are the usual ones, and
/// absent clients are none.
pub proof fn stored_settings_are_kept(stored: StoredConfig, config: SunriseConfig)
    requires
        call_ensures(SunriseConfig::from_stored, (stored,), config),
    ensures
        config.host_name == stored.host_name,
        config.unique_id == stored.unique_id,
        config.uuid == stored.uuid,
        config.mac_address == stored.mac_address,
        config.server_cert_pem == stored.server_cert_pem,
        config.server_private_key_pem == stored.server_private_key_pem,
        stored.http_port matches Some(p) ==> config.http_port == p,
        stored.http_port is None ==> config.http_port == 47989,
        stored.https_port matches Some(p) ==> config.https_port == p,
        stored.https_port is None ==> config.https_port == 47984,
        stored.rtsp_port matches Some(p) ==> config.rtsp_port == p,
        stored.rtsp_port is None ==> config.rtsp_port == 48010,
        stored.paired_clients matches Some(c) ==> config.paired_clients@ == c@,
        stored.paired_clients is None ==> config.paired_clients@.len() == 0,
{
}

/// The host is called what `COMPUTERNAME` says, or else `HOSTNAME`; a blank name, or
/// none, leaves a fixed one.
pub proof fn hosts_are_named_by_the_environment(
    computer_name: Option<&str>,
    host_name: Option<&str>,
    name: String,
)
    requires
        call_ensures(default_host_name, (computer_name, host_name), name),
    ensures
        computer_name is Some && trim(computer_name->0@).len() > 0 ==> name@ == computer_name->0@,
        computer_name is Some && trim(computer_name->0@).len() == 0 ==> name@ == "sunrise-host"@,
        computer_name is None ==> {
            &&& host_name is Some && trim(host_name->0@).len() > 0 ==> name@ == host_name->0@
            &&& host_name is Some && trim(host_name->0@).len() == 0 ==> name@ == "sunrise-host"@
            &&& host_name is None ==> name@ == "sunrise-host"@
        },
{
}

/// Settings that were loaded are used as they are and not written again.
pub proof fn loaded_settings_are_used(
    loaded: SunriseConfig,
    computer_name: Option<&str>,
    host_name: Option<&str>,
    settings: (SunriseConfig, bool),
    fresh: (SunriseConfig, bool),
)
    requires
        call_ensures(load_or_generate, (Some(loaded), computer_name, host_name), settings),
        call_ensures(
            load_or_generate,
            (None::<SunriseConfig>, computer_name, host_name),
            fresh,
        ),
    ensures
        settings == (loaded, false),
        fresh.1,
        fresh.0.http_port == 47989 && fresh.0.https_port == 47984 && fresh.0.rtsp_port == 48010,
        fresh.0.paired_clients@.len() == 0,
{
}

/// A hardware address is read back, between its colons, as the six bytes that it was
/// made of, the first of them with its two lowest bits set to local and not a group.
pub proof fn hardware_addresses_are_read_back(bytes: &[u8; 16], address: String, i: int)
    requires
        call_ensures(mac_address_from, (bytes,), address),
        0 <= i < 6,
    ensures
        ({
            let parts = split_on(address@, seq![':']);
            &&& parts.len() == 6
            &&& i > 0 ==> hex_bytes(parts[i]) == Some(seq![bytes@[i]])
            &&& hex_bytes(parts[0]) matches Some(first) && first.len() == 1 && first[0] / 4
                == bytes@[0] / 4 && first[0] % 4 == 2
        }),
{
    reveal_strlit(":");
    assert(":"@ =~= seq![':']);
    let made = bytes@.take(6).update(0, local_address_byte(bytes@[0]));
    let parts = Seq::new(6, |j: int| hex_upper(seq![made[j]]));
    assert forall|j: int| 0 <= j < parts.len() implies !(#[trigger] parts[j]).contains(':') by {
        let p = parts[j];
        if p.contains(':') {
            let k = choose|k: int| 0 <= k < p.len() && p[k] == ':';
            assert(hex_upper(seq![made[j]])[k] != ':');
        }
    }
    splitting_at_a_character_undoes_joining(parts, ':');
    hex_round_trip(seq![made[i]]);
    hex_round_trip(seq![made[0]]);
    let b = bytes@[0];
    assert(((b & 0xfe) | 0x02) / 4 == b / 4 && ((b & 0xfe) | 0x02) % 4 == 2) by (bit_vector);
}

/// Generated identifiers and hardware addresses are written in upper-case digits.
pub proof fn identifiers_are_in_upper_case(bytes: &[u8; 16], id: String, address: String, i: int)
    requires
        call_ensures(unique_id_from, (bytes,), id),
        call_ensures(mac_address_from, (bytes,), address),
    ensures
        0 <= i < 16 ==> id@.len() == 16 && ('0' <= id@[i] && id@[i] <= '9' || 'A' <= id@[i] && id@[i]
            <= 'F'),
        0 <= i < 6 ==> ({
            let part = split_on(address@, seq![':'])[i];
            part.len() == 2 && forall|j: int|
                0 <= j < 2 ==> ('0' <= #[trigger] part[j] && part[j] <= '9' || 'A' <= part[j]
                    && part[j] <= 'F')
        }),
{
    if 0 <= i < 16 {
        let b = bytes@.take(8)[i / 2];
        assert(id@[i] == upper_hex_digit(
            if i % 2 == 0 {
                b / 16
            } else {
                b % 16
            } as int,
        ));
    }
    if 0 <= i < 6 {
        reveal_strlit(":");
        assert(":"@ =~= seq![':']);
        let made = bytes@.take(6).update(0, local_address_byte(bytes@[0]));
        let parts = Seq::new(6, |j: int| hex_upper(seq![made[j]]));
        assert forall|j: int| 0 <= j < parts.len() implies !(#[trigger] parts[j]).contains(':') by {
            let p = parts[j];
            if p.contains(':') {
                let k = choose|k: int| 0 <= k < p.len() && p[k] == ':';
                assert(hex_upper(seq![made[j]])[k] != ':');
            }
        }
        splitting_at_a_character_undoes_joining(parts, ':');
    }
}

} // verus!
