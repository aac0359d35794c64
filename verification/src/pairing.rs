//! Pairing: how a client that knows the PIN becomes a known client.
use vstd::prelude::*;
use vstd::hash_map::*;
use vstd::hash_set::*;
use vstd::string::*;
use vstd::utf8::*;
use crate::bytes::{
    append_bytes, copy_bytes, copy_range, optional_bytes, same_bytes, same_bytes_at_start,
};
use crate::certificate::{
    certificate_signature, pem_document, pem_encode, pem_parse, pem_text,
    read_certificate_signature, rsa_signature,
};
use crate::config::{PairedClient, SunriseConfig};
use crate::crypto::{
    aes128_ecb_crypt, ecb_decrypt, ecb_encrypt, hex_bytes, hex_decode, hex_encode_upper,
    hex_round_trip, hex_upper, random_16, sha256, sha256_digest, CipherMode,
};
use crate::identity::{IdentityModel, ServerIdentity};
use crate::protocol::{
    document, element_text, is_plain_name, pair_xml, readers_find_fields_by_name,
};
use crate::text::{
    lower, lower_text, pair_views, same_text, starts_with, texts, trim, trim_text,
    utf8_text,
};

verus! {

/// Why a pairing request is refused.
#[derive(Clone, Copy, Debug, PartialEq, Eq, Structural)]
pub enum PairError {
    /// The request does not tell its phase.
    MissingPhrase,
    /// The request names a phase that does not exist.
    UnsupportedPhrase,
    /// A parameter that the phase needs is missing.
    MissingParameter,
    /// A parameter is not hexadecimal.
    InvalidHex,
    /// The certificate looks like PEM but is not UTF-8.
    CertificateNotUtf8,
    /// The certificate looks like PEM but is not.
    InvalidCertificatePem,
    /// The PEM document is not a certificate.
    UnexpectedPemTag,
    /// The certificate cannot be read.
    InvalidCertificate,
    /// No PIN was given.
    EmptyPin,
    /// The client has not begun to pair.
    SessionNotFound,
    /// Encrypted data is empty or not a whole number of blocks.
    PayloadNotAligned,
    /// The phases come in the wrong order.
    ServerSecretMissing,
    ServerChallengeMissing,
    ClientHashMissing,
    /// The client's secret is not followed by a signature.
    SecretTooShort,
    /// The client does not know the PIN.
    HashMismatch,
    /// The host could not sign its secret.
    SigningFailed,
}

// ---------------------------------------------------------------------------
// Parameters
// ---------------------------------------------------------------------------
/// The parameters of a request, by their names.
pub type Query = StringHashMap<String>;

/// The parameters of a request.
pub open spec fn parameters(query: Query) -> Map<Seq<char>, Seq<char>> {
    query@.map_values(|s: String| s@)
}

/// The parameters that a list of names and values makes; a later value replaces an
/// earlier one.
pub open spec fn parameter_map(pairs: Seq<(Seq<char>, Seq<char>)>) -> Map<Seq<char>, Seq<char>>
    decreases pairs.len(),
{
    if pairs.len() == 0 {
        Map::empty()
    } else {
        parameter_map(pairs.drop_last()).insert(pairs.last().0, pairs.last().1)
    }
}

/// The parameters that a list of names and values makes.
pub fn collect_parameters(pairs: &Vec<(String, String)>) -> (query: Query)
    ensures
        parameters(query) == parameter_map(
            pairs@.map_values(|p: (String, String)| (p.0@, p.1@)),
        ),
{
    let mut query: Query = StringHashMap::new();
    let ghost all = pairs@.map_values(|p: (String, String)| (p.0@, p.1@));
    let mut i: usize = 0;
    assert(parameters(query) =~= parameter_map(all.take(0)));
    while i < pairs.len()
        invariant
            i <= pairs@.len(),
            all == pairs@.map_values(|p: (String, String)| (p.0@, p.1@)),
            parameters(query) == parameter_map(all.take(i as int)),
        decreases pairs@.len() - i,
    {
        assert(all.take(i + 1).drop_last() =~= all.take(i as int));
        let ghost before = parameters(query);
        let name = pairs[i].0.clone();
        let value = pairs[i].1.clone();
        query.insert(name, value);
        assert(parameters(query) =~= before.insert(name@, value@));
        i += 1;
    }
    assert(all.take(i as int) =~= all);
    query
}

/// A parameter that has to be there.
pub open spec fn parameter(query: Map<Seq<char>, Seq<char>>, key: Seq<char>) -> Result<
    Seq<char>,
    PairError,
> {
    if query.contains_key(key) {
        Ok(query[key])
    } else {
        Err(PairError::MissingParameter)
    }
}

/// The bytes that a parameter that has to be there writes in hexadecimal.
pub open spec fn hex_parameter(value: Result<Seq<char>, PairError>) -> Result<Seq<u8>, PairError> {
    match value {
        Err(e) => Err(e),
        Ok(text) => match hex_bytes(text) {
            Some(bytes) => Ok(bytes),
            None => Err(PairError::InvalidHex),
        },
    }
}

/// A parameter that has to be there.
pub fn required<'a>(query: &'a Query, key: &str) -> (value: Result<
    &'a str,
    PairError,
>)
    ensures
        match value {
            Ok(v) => parameter(parameters(*query), key@) == Ok::<_, PairError>(v@),
            Err(e) => parameter(parameters(*query), key@) == Err::<Seq<char>, _>(e),
        },
{
    match query.get(key) {
        Some(value) => Ok(value.as_str()),
        None => Err(PairError::MissingParameter),
    }
}

/// The first of the keys that the request has, from key number `from` on.
pub open spec fn first_parameter(
    query: Map<Seq<char>, Seq<char>>,
    keys: Seq<&str>,
    from: int,
) -> Result<Seq<char>, PairError>
    decreases keys.len() - from,
{
    if from < 0 || from >= keys.len() {
        Err(PairError::MissingParameter)
    } else if query.contains_key(keys[from]@) {
        Ok(query[keys[from]@])
    } else {
        first_parameter(query, keys, from + 1)
    }
}

/// The first of several parameters that is there.
pub fn required_any<'a>(query: &'a Query, keys: &[&str]) -> (value: Result<
    &'a str,
    PairError,
>)
    ensures
        match value {
            Ok(v) => first_parameter(parameters(*query), keys@, 0) == Ok::<_, PairError>(v@),
            Err(e) => first_parameter(parameters(*query), keys@, 0) == Err::<Seq<char>, _>(e),
        },
{
    let mut i: usize = 0;
    while i < keys.len()
        invariant
            i <= keys@.len(),
            first_parameter(parameters(*query), keys@, 0) == first_parameter(
                parameters(*query),
                keys@,
                i as int,
            ),
        decreases keys@.len() - i,
    {
        match query.get(keys[i]) {
            Some(value) => {
                return Ok(value.as_str());
            },
            None => {},
        }
        i += 1;
    }
    Err(PairError::MissingParameter)
}

/// The bytes that a text writes in hexadecimal.
pub fn decode_hex(value: &str) -> (bytes: Result<Vec<u8>, PairError>)
    ensures
        match bytes {
            Ok(b) => hex_bytes(value@) == Some(b@),
            Err(e) => e is InvalidHex && hex_bytes(value@) is None,
        },
{
    match hex_decode(value) {
        Some(bytes) => Ok(bytes),
        None => Err(PairError::InvalidHex),
    }
}

/// The phase that a request is for: the one that it names, or the one whose
/// parameter it has.
pub open spec fn phrase_of(query: Map<Seq<char>, Seq<char>>) -> Result<Seq<char>, PairError> {
    if query.contains_key("phrase"@) {
        let phrase = lower(query["phrase"@]);
        if phrase == "getservercert"@ {
            Ok("getservercert"@)
        } else if phrase == "clientchallenge"@ || phrase == "pairchallenge"@ {
            Ok("clientchallenge"@)
        } else if phrase == "serverchallengeresp"@ {
            Ok("serverchallengeresp"@)
        } else if phrase == "clientpairingsecret"@ {
            Ok("clientpairingsecret"@)
        } else if phrase == "cancel"@ {
            Ok("cancel"@)
        } else {
            Err(PairError::UnsupportedPhrase)
        }
    } else if query.contains_key("clientchallenge"@) {
        Ok("clientchallenge"@)
    } else if query.contains_key("serverchallengeresp"@) {
        Ok("serverchallengeresp"@)
    } else if query.contains_key("clientpairingsecret"@) {
        Ok("clientpairingsecret"@)
    } else {
        Err(PairError::MissingPhrase)
    }
}

/// The phase that a request is for.
pub fn pairing_phrase(query: &Query) -> (phrase: Result<&'static str, PairError>)
    ensures
        match phrase {
            Ok(p) => phrase_of(parameters(*query)) == Ok::<_, PairError>(p@),
            Err(e) => phrase_of(parameters(*query)) == Err::<Seq<char>, _>(e),
        },
{
    match query.get("phrase") {
        Some(value) => {
            let phrase = lower_text(value.as_str());
            let p = phrase.as_str();
            if same_text(p, "getservercert") {
                Ok("getservercert")
            } else if same_text(p, "clientchallenge") || same_text(p, "pairchallenge") {
                Ok("clientchallenge")
            } else if same_text(p, "serverchallengeresp") {
                Ok("serverchallengeresp")
            } else if same_text(p, "clientpairingsecret") {
                Ok("clientpairingsecret")
            } else if same_text(p, "cancel") {
                Ok("cancel")
            } else {
                Err(PairError::UnsupportedPhrase)
            }
        },
        None => {
            if query.contains_key("clientchallenge") {
                Ok("clientchallenge")
            } else if query.contains_key("serverchallengeresp") {
                Ok("serverchallengeresp")
            } else if query.contains_key("clientpairingsecret") {
                Ok("clientpairingsecret")
            } else {
                Err(PairError::MissingPhrase)
            }
        },
    }
}

/// The PIN that a user typed or set: what they wrote without white space around
/// it, unless nothing is left.
pub fn clean_pin(text: &str) -> (pin: Result<String, PairError>)
    ensures
        match pin {
            Ok(p) => p@ == trim(text@) && trim(text@).len() > 0,
            Err(e) => e is EmptyPin && trim(text@).len() == 0,
        },
{
    let pin = trim_text(text);
    if pin.as_str().is_empty() {
        Err(PairError::EmptyPin)
    } else {
        Ok(pin)
    }
}

// ---------------------------------------------------------------------------
// The client's certificate
// ---------------------------------------------------------------------------
/// A client's certificate in both forms.
#[derive(Debug, PartialEq, Eq)]
pub struct DecodedCertificate {
    pub der: Vec<u8>,
    pub pem: String,
}

/// What PEM documents begin with.
pub open spec fn pem_begin() -> Seq<u8> {
    seq![45u8, 45u8, 45u8, 45u8, 45u8, 66u8, 69u8, 71u8, 73u8, 78u8]
}

/// The certificate that a text in PEM form holds, by what it was read as.
pub open spec fn certificate_of_pem(
    text: Seq<char>,
    pem: Option<(Seq<char>, Seq<u8>)>,
) -> Result<(Seq<u8>, Seq<char>), PairError> {
    match pem {
        None => Err(PairError::InvalidCertificatePem),
        Some((tag, contents)) => if tag != "CERTIFICATE"@ {
            Err(PairError::UnexpectedPemTag)
        } else {
            Ok((contents, text))
        },
    }
}

/// The certificate, in DER and PEM form, that a client sent in either form.
pub open spec fn certificate_of(bytes: Seq<u8>) -> Result<(Seq<u8>, Seq<char>), PairError> {
    if starts_with(bytes, pem_begin()) {
        if !valid_utf8(bytes) {
            Err(PairError::CertificateNotUtf8)
        } else {
            certificate_of_pem(decode_utf8(bytes), pem_document(decode_utf8(bytes)))
        }
    } else {
        Ok((bytes, pem_text("CERTIFICATE"@, bytes)))
    }
}

/// The characters and bytes of a PEM document that may be absent.
pub open spec fn document_view(pem: Option<(String, Vec<u8>)>) -> Option<(Seq<char>, Seq<u8>)> {
    match pem {
        Some((tag, contents)) => Some((tag@, contents@)),
        None => None,
    }
}

/// The certificate that a text in PEM form holds, by what it was read as.
pub fn certificate_from_pem(text: String, pem: Option<(String, Vec<u8>)>) -> (certificate: Result<
    DecodedCertificate,
    PairError,
>)
    ensures
        match certificate {
            Ok(c) => certificate_of_pem(text@, document_view(pem)) == Ok::<_, PairError>(
                (c.der@, c.pem@),
            ),
            Err(e) => certificate_of_pem(text@, document_view(pem)) == Err::<
                (Seq<u8>, Seq<char>),
                _,
            >(e),
        },
{
    match pem {
        None => Err(PairError::InvalidCertificatePem),
        Some((tag, contents)) => if same_text(tag.as_str(), "CERTIFICATE") {
            Ok(DecodedCertificate { der: contents, pem: text })
        } else {
            Err(PairError::UnexpectedPemTag)
        },
    }
}

/// Reads a certificate that a client sent in hexadecimal, in DER or PEM form. The
/// PEM form holds the DER form.
pub fn decode_certificate_hex(value: &str) -> (certificate: Result<DecodedCertificate, PairError>)
    ensures
        match hex_bytes(value@) {
            None => certificate matches Err(e) && e is InvalidHex,
            Some(bytes) => match certificate {
                Ok(c) => {
                    &&& certificate_of(bytes) == Ok::<_, PairError>((c.der@, c.pem@))
                    &&& pem_document(c.pem@) == Some(("CERTIFICATE"@, c.der@))
                },
                Err(e) => certificate_of(bytes) == Err::<(Seq<u8>, Seq<char>), _>(e),
            },
        },
{
    let decoded = match decode_hex(value) {
        Ok(bytes) => bytes,
        Err(e) => {
            return Err(e);
        },
    };
    let begin: [u8; 10] = [45, 45, 45, 45, 45, 66, 69, 71, 73, 78];
    assert(begin@ =~= pem_begin());
    if same_bytes_at_start(decoded.as_slice(), &begin) {
        match utf8_text(decoded.as_slice()) {
            None => Err(PairError::CertificateNotUtf8),
            Some(text) => {
                let pem = pem_parse(text.as_str());
                certificate_from_pem(text, pem)
            },
        }
    } else {
        let pem = pem_encode("CERTIFICATE", decoded.as_slice());
        Ok(DecodedCertificate { der: decoded, pem })
    }
}

/// What a client that begins to pair has sent.
#[derive(Debug, PartialEq, Eq)]
pub struct PendingClient {
    pub salt: Vec<u8>,
    pub cert_der: Vec<u8>,
    pub cert_pem: String,
    pub cert_signature: Vec<u8>,
}

/// What a client that begins to pair has sent, as plain values.
pub struct ClientModel {
    pub salt: Seq<u8>,
    pub cert_der: Seq<u8>,
    pub cert_pem: Seq<char>,
    pub cert_signature: Seq<u8>,
}

impl View for PendingClient {
    type V = ClientModel;

    open spec fn view(&self) -> ClientModel {
        ClientModel {
            salt: self.salt@,
            cert_der: self.cert_der@,
            cert_pem: self.cert_pem@,
            cert_signature: self.cert_signature@,
        }
    }
}

/// The client that a salt and a certificate make, by the signature that was read
/// from the certificate.
pub open spec fn client_of_parts(
    salt: Seq<u8>,
    certificate: (Seq<u8>, Seq<char>),
    signature: Option<Seq<u8>>,
) -> Result<ClientModel, PairError> {
    match signature {
        None => Err(PairError::InvalidCertificate),
        Some(cert_signature) => Ok(
            ClientModel {
                salt,
                cert_der: certificate.0,
                cert_pem: certificate.1,
                cert_signature,
            },
        ),
    }
}

/// The client that begins to pair with a request.
pub open spec fn client_of(query: Map<Seq<char>, Seq<char>>) -> Result<ClientModel, PairError> {
    match hex_parameter(parameter(query, "salt"@)) {
        Err(e) => Err(e),
        Ok(salt) => match hex_parameter(parameter(query, "clientcert"@)) {
            Err(e) => Err(e),
            Ok(bytes) => match certificate_of(bytes) {
                Err(e) => Err(e),
                Ok(certificate) => client_of_parts(
                    salt,
                    certificate,
                    certificate_signature(certificate.0),
                ),
            },
        },
    }
}

/// Puts together what a client has sent, by the signature that was read from its
/// certificate.
pub fn pending_client(
    salt: Vec<u8>,
    certificate: DecodedCertificate,
    signature: Option<Vec<u8>>,
) -> (client: Result<PendingClient, PairError>)
    ensures
        ({
            let model = client_of_parts(
                salt@,
                (certificate.der@, certificate.pem@),
                optional_bytes(signature),
            );
            match client {
                Ok(c) => model == Ok::<_, PairError>(c@),
                Err(e) => model == Err::<ClientModel, _>(e),
            }
        }),
{
    match signature {
        None => Err(PairError::InvalidCertificate),
        Some(cert_signature) => Ok(
            PendingClient {
                salt,
                cert_der: certificate.der,
                cert_pem: certificate.pem,
                cert_signature,
            },
        ),
    }
}

/// Reads what a client that begins to pair has sent.
pub fn read_client(query: &Query) -> (client: Result<PendingClient, PairError>)
    ensures
        match client {
            Ok(c) => client_of(parameters(*query)) == Ok::<_, PairError>(c@),
            Err(e) => client_of(parameters(*query)) == Err::<ClientModel, _>(e),
        },
{
    let salt_text = match required(query, "salt") {
        Ok(text) => text,
        Err(e) => {
            return Err(e);
        },
    };
    let salt = match decode_hex(salt_text) {
        Ok(bytes) => bytes,
        Err(e) => {
            return Err(e);
        },
    };
    let cert_text = match required(query, "clientcert") {
        Ok(text) => text,
        Err(e) => {
            return Err(e);
        },
    };
    let certificate = match decode_certificate_hex(cert_text) {
        Ok(certificate) => certificate,
        Err(e) => {
            return Err(e);
        },
    };
    let signature = read_certificate_signature(certificate.der.as_slice());
    pending_client(salt, certificate, signature)
}

// ---------------------------------------------------------------------------
// Sessions
// ---------------------------------------------------------------------------
/// The exchange with one client that is pairing.
#[derive(Debug, PartialEq, Eq)]
pub struct PairSession {
    pub aes_key: [u8; 16],
    pub client_cert_der: Vec<u8>,
    pub client_cert_pem: String,
    pub client_cert_signature: Vec<u8>,
    pub client_challenge: Option<Vec<u8>>,
    pub server_secret: Option<[u8; 16]>,
    pub server_challenge: Option<[u8; 16]>,
    pub client_hash: Option<Vec<u8>>,
}

/// The exchange with one client that is pairing, as plain values.
pub struct SessionModel {
    pub aes_key: Seq<u8>,
    pub client_cert_der: Seq<u8>,
    pub client_cert_pem: Seq<char>,
    pub client_cert_signature: Seq<u8>,
    pub client_challenge: Option<Seq<u8>>,
    pub server_secret: Option<Seq<u8>>,
    pub server_challenge: Option<Seq<u8>>,
    pub client_hash: Option<Seq<u8>>,
}

/// The contents of a block that may be absent.
pub open spec fn block_view(bytes: Option<[u8; 16]>) -> Option<Seq<u8>> {
    match bytes {
        Some(b) => Some(b@),
        None => None,
    }
}

impl View for PairSession {
    type V = SessionModel;

    open spec fn view(&self) -> SessionModel {
        SessionModel {
            aes_key: self.aes_key@,
            client_cert_der: self.client_cert_der@,
            client_cert_pem: self.client_cert_pem@,
            client_cert_signature: self.client_cert_signature@,
            client_challenge: optional_bytes(self.client_challenge),
            server_secret: block_view(self.server_secret),
            server_challenge: block_view(self.server_challenge),
            client_hash: optional_bytes(self.client_hash),
        }
    }
}

/// A copy of bytes that may be absent.
fn copy_optional(bytes: &Option<Vec<u8>>) -> (out: Option<Vec<u8>>)
    ensures
        optional_bytes(out) == optional_bytes(*bytes),
{
    match bytes {
        Some(b) => Some(copy_bytes(b.as_slice())),
        None => None,
    }
}

impl PairSession {
    /// A copy of the session.
    fn duplicate(&self) -> (out: Self)
        ensures
            out@ == self@,
    {
        PairSession {
            aes_key: self.aes_key,
            client_cert_der: copy_bytes(self.client_cert_der.as_slice()),
            client_cert_pem: self.client_cert_pem.clone(),
            client_cert_signature: copy_bytes(self.client_cert_signature.as_slice()),
            client_challenge: copy_optional(&self.client_challenge),
            server_secret: self.server_secret,
            server_challenge: self.server_challenge,
            client_hash: copy_optional(&self.client_hash),
        }
    }
}

/// The host's side of pairing.
pub struct PairingState {
    pub identity: ServerIdentity,
    pub sessions: StringHashMap<PairSession>,
    pub paired_unique_ids: StringHashSet,
}

/// The host's side of pairing, as plain values.
pub struct PairingModel {
    pub identity: IdentityModel,
    /// The sessions of the clients that are pairing, by their identifiers.
    pub sessions: Map<Seq<char>, SessionModel>,
    /// The identifiers of the clients that have paired.
    pub paired: Set<Seq<char>>,
}

/// The sessions as plain values.
pub open spec fn session_models(sessions: Map<Seq<char>, PairSession>) -> Map<
    Seq<char>,
    SessionModel,
> {
    sessions.map_values(|s: PairSession| s@)
}

impl View for PairingState {
    type V = PairingModel;

    open spec fn view(&self) -> PairingModel {
        PairingModel {
            identity: self.identity@,
            sessions: session_models(self.sessions@),
            paired: self.paired_unique_ids@,
        }
    }
}

impl PairingModel {
    /// The state with the session of one client replaced.
    pub open spec fn with_session(self, unique_id: Seq<char>, session: SessionModel) -> Self {
        PairingModel { sessions: self.sessions.insert(unique_id, session), ..self }
    }

    /// The state without the session of one client.
    pub open spec fn without_session(self, unique_id: Seq<char>) -> Self {
        PairingModel { sessions: self.sessions.remove(unique_id), ..self }
    }
}

/// The characters of a reply that may have failed.
pub open spec fn reply_view(reply: Result<String, PairError>) -> Result<Seq<char>, PairError> {
    match reply {
        Ok(text) => Ok(text@),
        Err(e) => Err(e),
    }
}

/// The reply that a client is, or stays, not paired.
pub open spec fn refusal() -> Seq<char> {
    document(seq![("paired"@, "0"@)])
}

/// The reply that a phase succeeded and nothing else.
pub open spec fn success() -> Seq<char> {
    document(seq![("paired"@, "1"@)])
}

/// The reply that a phase succeeded, with a value.
pub open spec fn success_with(name: Seq<char>, value: Seq<char>) -> Seq<char> {
    document(seq![("paired"@, "1"@), (name, value)])
}

/// The reply that a client is, or stays, not paired.
pub fn refusal_xml() -> (xml: String)
    ensures
        xml@ == refusal(),
{
    let fields: [(&str, &str); 1] = [("paired", "0")];
    assert(pair_views(fields@) =~= seq![("paired"@, "0"@)]);
    pair_xml(fields)
}

/// The reply that a phase succeeded and nothing else.
fn success_xml() -> (xml: String)
    ensures
        xml@ == success(),
{
    let fields: [(&str, &str); 1] = [("paired", "1")];
    assert(pair_views(fields@) =~= seq![("paired"@, "1"@)]);
    pair_xml(fields)
}

/// The reply that a phase succeeded, with a value.
fn success_with_xml(name: &str, value: &str) -> (xml: String)
    ensures
        xml@ == success_with(name@, value@),
{
    let fields: [(&str, &str); 2] = [("paired", "1"), (name, value)];
    assert(pair_views(fields@) =~= seq![("paired"@, "1"@), (name@, value@)]);
    pair_xml(fields)
}

/// The body that answers a pairing request: what the phase replied, or the
/// refusal where it failed.
pub fn pair_reply(reply: Result<String, PairError>) -> (body: String)
    ensures
        body@ == match reply {
            Ok(text) => text@,
            Err(_) => refusal(),
        },
{
    match reply {
        Ok(text) => text,
        Err(_) => refusal_xml(),
    }
}

/// The key that salt and PIN give: the first half of the digest of both.
pub open spec fn pairing_key(salt: Seq<u8>, pin: Seq<char>) -> Seq<u8> {
    sha256_digest(salt + encode_utf8(pin)).take(16)
}

/// The key that salt and PIN give.
pub fn derive_pairing_key(salt: &[u8], pin: &str) -> (key: [u8; 16])
    ensures
        key@ == pairing_key(salt@, pin@),
{
    let mut input: Vec<u8> = copy_bytes(salt);
    append_bytes(&mut input, pin.as_bytes());
    let digest = sha256(input.as_slice());
    let mut key: [u8; 16] = [0;16];
    let mut i: usize = 0;
    while i < 16
        invariant
            i <= 16,
            forall|j: int| 0 <= j < i ==> key@[j] == digest@[j],
        decreases 16 - i,
    {
        key[i] = digest[i];
        i += 1;
    }
    assert(key@ =~= digest@.take(16));
    key
}

// ---------------------------------------------------------------------------
// First phase: the certificates are exchanged
// ---------------------------------------------------------------------------
/// The session of a client whose user has given the PIN.
pub open spec fn first_session(client: ClientModel, pin: Seq<char>) -> SessionModel {
    SessionModel {
        aes_key: pairing_key(client.salt, pin),
        client_cert_der: client.cert_der,
        client_cert_pem: client.cert_pem,
        client_cert_signature: client.cert_signature,
        client_challenge: None,
        server_secret: None,
        server_challenge: None,
        client_hash: None,
    }
}

impl PairingState {
    /// The host's side of pairing with the clients that have paired before.
    pub fn new(identity: ServerIdentity, known_ids: Vec<String>) -> (state: Self)
        ensures
            state@.identity == identity@,
            state@.paired == texts(known_ids@).to_set(),
            state@.sessions == Map::<Seq<char>, SessionModel>::empty(),
    {
        let mut paired_unique_ids = StringHashSet::new();
        let ghost all = texts(known_ids@);
        let mut i: usize = 0;
        assert(paired_unique_ids@ =~= all.take(0).to_set());
        while i < known_ids.len()
            invariant
                i <= known_ids@.len(),
                all == texts(known_ids@),
                paired_unique_ids@ == all.take(i as int).to_set(),
            decreases known_ids@.len() - i,
        {
            let ghost before = all.take(i as int);
            paired_unique_ids.insert(known_ids[i].clone());
            proof {
                assert(all.take(i + 1) =~= before.push(all[i as int]));
                assert forall|id: Seq<char>| before.push(all[i as int]).contains(id) <==> (
                before.contains(id) || id == all[i as int]) by {
                    let pushed = before.push(all[i as int]);
                    if before.contains(id) {
                        let k = choose|k: int| 0 <= k < before.len() && before[k] == id;
                        assert(pushed[k] == id);
                    }
                    assert(pushed[before.len() as int] == all[i as int]);
                    if pushed.contains(id) {
                        let k = choose|k: int| 0 <= k < pushed.len() && pushed[k] == id;
                        if k < before.len() {
                            assert(before[k] == id);
                        }
                    }
                }
                assert(paired_unique_ids@ =~= all.take(i + 1).to_set());
            }
            i += 1;
        }
        assert(all.take(i as int) =~= all);
        let sessions: StringHashMap<PairSession> = StringHashMap::new();
        assert(session_models(sessions@) =~= Map::<Seq<char>, SessionModel>::empty());
        PairingState { identity, sessions, paired_unique_ids }
    }

    /// Whether a client has paired.
    pub fn is_paired(&self, unique_id: &str) -> (paired: bool)
        ensures
            paired == self@.paired.contains(unique_id@),
    {
        self.paired_unique_ids.contains(unique_id)
    }

    /// Keeps the session of a client.
    fn store(&mut self, unique_id: &str, session: PairSession)
        ensures
            final(self)@ == old(self)@.with_session(unique_id@, session@),
    {
        let ghost before = self.sessions@;
        self.sessions.insert(unique_id.to_owned(), session);
        assert(session_models(self.sessions@) =~= session_models(before).insert(
            unique_id@,
            session@,
        ));
    }

    /// Forgets the session of a client.
    fn forget(&mut self, unique_id: &str)
        ensures
            final(self)@ == old(self)@.without_session(unique_id@),
    {
        let ghost before = self.sessions@;
        self.sessions.remove(unique_id);
        assert(session_models(self.sessions@) =~= session_models(before).remove(unique_id@));
    }

    /// Begins a session with a client whose user has given the PIN, and replies
    /// with the host's certificate.
    pub fn get_server_cert(&mut self, unique_id: &str, client: PendingClient, pin: &str) -> (reply:
        String)
        ensures
            final(self)@ == old(self)@.with_session(unique_id@, first_session(client@, pin@)),
            reply@ == success_with(
                "plaincert"@,
                hex_upper(encode_utf8(old(self)@.identity.cert_pem)),
            ),
    {
        let aes_key = derive_pairing_key(client.salt.as_slice(), pin);
        let session = PairSession {
            aes_key,
            client_cert_der: client.cert_der,
            client_cert_pem: client.cert_pem,
            client_cert_signature: client.cert_signature,
            client_challenge: None,
            server_secret: None,
            server_challenge: None,
            client_hash: None,
        };
        self.store(unique_id, session);
        let plaincert = hex_encode_upper(self.identity.cert_pem().as_bytes());
        success_with_xml("plaincert", plaincert.as_str())
    }
}

// ---------------------------------------------------------------------------
// Second phase: the client's challenge
// ---------------------------------------------------------------------------
/// `data` is a whole number of blocks and not empty.
pub open spec fn is_aligned(data: Seq<u8>) -> bool {
    data.len() > 0 && data.len() % 16 == 0
}

/// The bytes of the challenge in a request, under either of its names.
pub open spec fn challenge_parameter(query: Map<Seq<char>, Seq<char>>) -> Result<
    Seq<u8>,
    PairError,
> {
    hex_parameter(
        if query.contains_key("challenge"@) {
            Ok(query["challenge"@])
        } else {
            parameter(query, "clientchallenge"@)
        },
    )
}

/// What the host answers to a challenge, in the clear: the digest of the
/// challenge, its certificate's signature and its secret, and then its own
/// challenge.
pub open spec fn challenge_answer(
    challenge: Seq<u8>,
    cert_signature: Seq<u8>,
    server_secret: Seq<u8>,
    server_challenge: Seq<u8>,
) -> Seq<u8> {
    sha256_digest(challenge + cert_signature + server_secret) + server_challenge
}

/// The state and the reply after a challenge, for the secret and the challenge
/// that the host has chosen.
pub open spec fn challenge_step(
    state: PairingModel,
    unique_id: Seq<char>,
    query: Map<Seq<char>, Seq<char>>,
    server_secret: Seq<u8>,
    server_challenge: Seq<u8>,
) -> (PairingModel, Result<Seq<char>, PairError>) {
    match challenge_parameter(query) {
        Err(e) => (state, Err(e)),
        Ok(encrypted) => if !state.sessions.contains_key(unique_id) {
            (state, Err(PairError::SessionNotFound))
        } else if !is_aligned(encrypted) {
            (state, Err(PairError::PayloadNotAligned))
        } else {
            let session = state.sessions[unique_id];
            let challenge = ecb_decrypt(session.aes_key, encrypted);
            let answer = challenge_answer(
                challenge,
                state.identity.cert_signature,
                server_secret,
                server_challenge,
            );
            (
                state.with_session(
                    unique_id,
                    SessionModel {
                        client_challenge: Some(challenge),
                        server_secret: Some(server_secret),
                        server_challenge: Some(server_challenge),
                        ..session
                    },
                ),
                Ok(
                    success_with(
                        "challengeresponse"@,
                        hex_upper(ecb_encrypt(session.aes_key, answer)),
                    ),
                ),
            )
        },
    }
}

impl PairingState {
    /// Answers a client's challenge with the given secret and challenge of the
    /// host.
    pub fn client_challenge_with(
        &mut self,
        unique_id: &str,
        query: &Query,
        server_secret: [u8; 16],
        server_challenge: [u8; 16],
    ) -> (reply: Result<String, PairError>)
        ensures
            (final(self)@, reply_view(reply)) == challenge_step(
                old(self)@,
                unique_id@,
                parameters(*query),
                server_secret@,
                server_challenge@,
            ),
    {
        let keys: [&str; 2] = ["challenge", "clientchallenge"];
        proof {
            reveal_with_fuel(first_parameter, 3);
        }
        let text = match required_any(query, &keys) {
            Ok(text) => text,
            Err(e) => {
                return Err(e);
            },
        };
        let encrypted = match decode_hex(text) {
            Ok(bytes) => bytes,
            Err(e) => {
                return Err(e);
            },
        };
        let mut session = match self.sessions.get(unique_id) {
            Some(session) => session.duplicate(),
            None => {
                return Err(PairError::SessionNotFound);
            },
        };
        let challenge = match aes128_ecb_crypt(
            &session.aes_key,
            encrypted.as_slice(),
            CipherMode::Decrypt,
        ) {
            Some(bytes) => bytes,
            None => {
                return Err(PairError::PayloadNotAligned);
            },
        };
        let mut input = copy_bytes(challenge.as_slice());
        append_bytes(&mut input, self.identity.cert_signature());
        append_bytes(&mut input, &server_secret);
        let digest = sha256(input.as_slice());
        let mut answer = copy_bytes(&digest);
        append_bytes(&mut answer, &server_challenge);
        let encrypted_answer = match aes128_ecb_crypt(
            &session.aes_key,
            answer.as_slice(),
            CipherMode::Encrypt,
        ) {
            Some(bytes) => bytes,
            None => {
                return Err(PairError::PayloadNotAligned);
            },
        };
        session.client_challenge = Some(challenge);
        session.server_secret = Some(server_secret);
        session.server_challenge = Some(server_challenge);
        self.store(unique_id, session);
        let response = hex_encode_upper(encrypted_answer.as_slice());
        Ok(success_with_xml("challengeresponse", response.as_str()))
    }

    /// Answers a client's challenge with a random secret and challenge of the host.
    pub fn client_challenge(&mut self, unique_id: &str, query: &Query) -> (reply:
        Result<String, PairError>)
        ensures
            exists|server_secret: Seq<u8>, server_challenge: Seq<u8>|
                {
                    &&& server_secret.len() == 16
                    &&& server_challenge.len() == 16
                    &&& (final(self)@, reply_view(reply)) == #[trigger] challenge_step(
                        old(self)@,
                        unique_id@,
                        parameters(*query),
                        server_secret,
                        server_challenge,
                    )
                },
    {
        let server_secret = random_16();
        let server_challenge = random_16();
        self.client_challenge_with(unique_id, query, server_secret, server_challenge)
    }
}

// ---------------------------------------------------------------------------
// Third phase: the client's answer to the host's challenge
// ---------------------------------------------------------------------------
/// The state after a client's answer has been kept, and the host's secret, which
/// is now told to the client.
pub open spec fn answer_step(
    state: PairingModel,
    unique_id: Seq<char>,
    query: Map<Seq<char>, Seq<char>>,
) -> (PairingModel, Result<Seq<u8>, PairError>) {
    match hex_parameter(parameter(query, "serverchallengeresp"@)) {
        Err(e) => (state, Err(e)),
        Ok(encrypted) => if !state.sessions.contains_key(unique_id) {
            (state, Err(PairError::SessionNotFound))
        } else {
            let session = state.sessions[unique_id];
            match session.server_secret {
                None => (state, Err(PairError::ServerSecretMissing)),
                Some(secret) => if !is_aligned(encrypted) {
                    (state, Err(PairError::PayloadNotAligned))
                } else {
                    (
                        state.with_session(
                            unique_id,
                            SessionModel {
                                client_hash: Some(ecb_decrypt(session.aes_key, encrypted)),
                                ..session
                            },
                        ),
                        Ok(secret),
                    )
                },
            }
        },
    }
}

/// The reply that tells the host's secret and its signature.
pub open spec fn secret_reply(secret: Seq<u8>, signature: Seq<u8>) -> Seq<char> {
    success_with("pairingsecret"@, hex_upper(secret + signature))
}

/// The reply that tells the host's secret and its signature.
pub fn pairing_secret_reply(secret: &[u8; 16], signature: &[u8]) -> (reply: String)
    ensures
        reply@ == secret_reply(secret@, signature@),
{
    let mut bytes = copy_bytes(secret);
    append_bytes(&mut bytes, signature);
    let text = hex_encode_upper(bytes.as_slice());
    success_with_xml("pairingsecret", text.as_str())
}

impl PairingState {
    /// Keeps a client's answer to the host's challenge and gives the secret that
    /// the client is told in return.
    pub fn keep_client_answer(&mut self, unique_id: &str, query: &Query) -> (secret:
        Result<[u8; 16], PairError>)
        ensures
            (
                final(self)@,
                match secret {
                    Ok(s) => Ok(s@),
                    Err(e) => Err::<Seq<u8>, PairError>(e),
                },
            ) == answer_step(old(self)@, unique_id@, parameters(*query)),
    {
        let text = match required(query, "serverchallengeresp") {
            Ok(text) => text,
            Err(e) => {
                return Err(e);
            },
        };
        let encrypted = match decode_hex(text) {
            Ok(bytes) => bytes,
            Err(e) => {
                return Err(e);
            },
        };
        let mut session = match self.sessions.get(unique_id) {
            Some(session) => session.duplicate(),
            None => {
                return Err(PairError::SessionNotFound);
            },
        };
        let secret = match session.server_secret {
            Some(secret) => secret,
            None => {
                return Err(PairError::ServerSecretMissing);
            },
        };
        let hash = match aes128_ecb_crypt(
            &session.aes_key,
            encrypted.as_slice(),
            CipherMode::Decrypt,
        ) {
            Some(bytes) => bytes,
            None => {
                return Err(PairError::PayloadNotAligned);
            },
        };
        session.client_hash = Some(hash);
        self.store(unique_id, session);
        Ok(secret)
    }

    /// Keeps a client's answer to the host's challenge and tells the client the
    /// host's secret, signed.
    pub fn server_challenge_response(
        &mut self,
        unique_id: &str,
        query: &Query,
    ) -> (reply: Result<String, PairError>)
        ensures
            final(self)@ == answer_step(old(self)@, unique_id@, parameters(*query)).0,
            match answer_step(old(self)@, unique_id@, parameters(*query)).1 {
                Err(e) => reply matches Err(r) && r == e,
                Ok(secret) => {
                    &&& match rsa_signature(old(self)@.identity.key_pem, secret) {
                        Some(signature) => reply matches Ok(text) && text@ == secret_reply(
                            secret,
                            signature,
                        ),
                        None => true,
                    }
                    &&& match reply {
                        Ok(text) => exists|signature: Seq<u8>|
                            text@ == #[trigger] secret_reply(secret, signature),
                        Err(e) => e is SigningFailed,
                    }
                },
            },
    {
        let secret = match self.keep_client_answer(unique_id, query) {
            Ok(secret) => secret,
            Err(e) => {
                return Err(e);
            },
        };
        match self.identity.sign_pairing_secret(&secret) {
            Ok(signature) => Ok(pairing_secret_reply(&secret, signature.as_slice())),
            Err(_) => Err(PairError::SigningFailed),
        }
    }
}

// ---------------------------------------------------------------------------
// The list of known clients
// ---------------------------------------------------------------------------
/// The known clients: their identifiers and certificates.
pub open spec fn known_clients(config: SunriseConfig) -> Seq<(Seq<char>, Seq<char>)> {
    config.paired_clients@.map_values(
        |c: PairedClient| (c.unique_id@, c.client_cert_pem@),
    )
}

/// The clients without those that have the given identifier.
pub open spec fn without_client(
    clients: Seq<(Seq<char>, Seq<char>)>,
    unique_id: Seq<char>,
) -> Seq<(Seq<char>, Seq<char>)>
    decreases clients.len(),
{
    if clients.len() == 0 {
        Seq::empty()
    } else {
        let others = without_client(clients.drop_last(), unique_id);
        if clients.last().0 == unique_id {
            others
        } else {
            others.push(clients.last())
        }
    }
}

/// The clients with one that has just paired, in place of any with the same
/// identifier.
pub open spec fn with_client(
    clients: Seq<(Seq<char>, Seq<char>)>,
    unique_id: Seq<char>,
    cert_pem: Seq<char>,
) -> Seq<(Seq<char>, Seq<char>)> {
    without_client(clients, unique_id).push((unique_id, cert_pem))
}

/// The identifiers of the known clients.
pub fn known_ids(config: &SunriseConfig) -> (ids: Vec<String>)
    ensures
        ids@.len() == known_clients(*config).len(),
        forall|k: int| 0 <= k < ids@.len() ==> #[trigger] ids@[k]@ == known_clients(*config)[k].0,
{
    let mut ids: Vec<String> = Vec::new();
    let mut i: usize = 0;
    while i < config.paired_clients.len()
        invariant
            i <= config.paired_clients@.len(),
            ids@.len() == i,
            forall|k: int|
                0 <= k < ids@.len() ==> #[trigger] ids@[k]@ == known_clients(*config)[k].0,
        decreases config.paired_clients@.len() - i,
    {
        ids.push(config.paired_clients[i].unique_id.clone());
        i += 1;
    }
    ids
}

/// Takes a client out of the settings.
pub fn persist_unpaired_client(config: &mut SunriseConfig, unique_id: &str)
    ensures
        known_clients(*final(config)) == without_client(known_clients(*old(config)), unique_id@),
        *final(config) == (SunriseConfig {
            paired_clients: final(config).paired_clients,
            ..*old(config)
        }),
{
    let mut kept: Vec<PairedClient> = Vec::new();
    let ghost all = known_clients(*config);
    let ghost view = |c: PairedClient| (c.unique_id@, c.client_cert_pem@);
    let mut i: usize = 0;
    assert(kept@.map_values(view) =~= without_client(all.take(0), unique_id@));
    while i < config.paired_clients.len()
        invariant
            *config == *old(config),
            all == known_clients(*config),
            view == (|c: PairedClient| (c.unique_id@, c.client_cert_pem@)),
            i <= config.paired_clients@.len(),
            kept@.map_values(view) == without_client(all.take(i as int), unique_id@),
        decreases config.paired_clients@.len() - i,
    {
        let client = &config.paired_clients[i];
        assert(all.take(i + 1).drop_last() =~= all.take(i as int));
        assert(all.take(i + 1).last() == (client.unique_id@, client.client_cert_pem@));
        if !same_text(client.unique_id.as_str(), unique_id) {
            let ghost before = kept@;
            let copy = PairedClient {
                unique_id: client.unique_id.clone(),
                client_cert_pem: client.client_cert_pem.clone(),
            };
            kept.push(copy);
            assert(kept@.map_values(view) =~= before.map_values(view).push(all[i as int]));
        }
        i += 1;
    }
    assert(all.take(i as int) =~= all);
    config.paired_clients = kept;
}

/// Puts a client that has just paired into the settings.
pub fn persist_paired_client(config: &mut SunriseConfig, unique_id: &str, client_cert_pem: String)
    ensures
        known_clients(*final(config)) == with_client(
            known_clients(*old(config)),
            unique_id@,
            client_cert_pem@,
        ),
        *final(config) == (SunriseConfig {
            paired_clients: final(config).paired_clients,
            ..*old(config)
        }),
{
    persist_unpaired_client(config, unique_id);
    let ghost others = known_clients(*config);
    let ghost before = config.paired_clients@;
    let client = PairedClient { unique_id: unique_id.to_owned(), client_cert_pem };
    config.paired_clients.push(client);
    assert(config.paired_clients@ =~= before.push(client));
    assert(known_clients(*config) =~= others.push((unique_id@, client_cert_pem@)));
}

// ---------------------------------------------------------------------------
// Last phase: the client's secret
// ---------------------------------------------------------------------------
/// The digest that a client which knows the PIN has sent: that of the host's
/// challenge, the signature of its own certificate and its secret.
pub open spec fn expected_hash(
    server_challenge: Seq<u8>,
    cert_signature: Seq<u8>,
    client_secret: Seq<u8>,
) -> Seq<u8> {
    sha256_digest(server_challenge + cert_signature + client_secret)
}

/// The state, the known clients and the reply after a client has told its secret.
pub open spec fn secret_step(
    state: PairingModel,
    clients: Seq<(Seq<char>, Seq<char>)>,
    unique_id: Seq<char>,
    query: Map<Seq<char>, Seq<char>>,
) -> (PairingModel, Seq<(Seq<char>, Seq<char>)>, Result<Seq<char>, PairError>) {
    match hex_parameter(parameter(query, "clientpairingsecret"@)) {
        Err(e) => (state, clients, Err(e)),
        Ok(bytes) => if bytes.len() < 17 {
            (state, clients, Err(PairError::SecretTooShort))
        } else if !state.sessions.contains_key(unique_id) {
            (state, clients, Err(PairError::SessionNotFound))
        } else {
            let session = state.sessions[unique_id];
            match (session.server_challenge, session.client_hash) {
                (None, _) => (state, clients, Err(PairError::ServerChallengeMissing)),
                (Some(_), None) => (state, clients, Err(PairError::ClientHashMissing)),
                (Some(challenge), Some(hash)) => if hash != expected_hash(
                    challenge,
                    session.client_cert_signature,
                    bytes.take(16),
                ) {
                    (state, clients, Err(PairError::HashMismatch))
                } else {
                    (
                        PairingModel {
                            paired: state.paired.insert(unique_id),
                            ..state.without_session(unique_id)
                        },
                        with_client(clients, unique_id, session.client_cert_pem),
                        Ok(success()),
                    )
                },
            }
        },
    }
}

impl PairingState {
    /// Checks a client's secret against what it sent before; a client that passes
    /// has paired.
    pub fn client_pairing_secret(
        &mut self,
        config: &mut SunriseConfig,
        unique_id: &str,
        query: &Query,
    ) -> (reply: Result<String, PairError>)
        ensures
            (final(self)@, known_clients(*final(config)), reply_view(reply)) == secret_step(
                old(self)@,
                known_clients(*old(config)),
                unique_id@,
                parameters(*query),
            ),
            *final(config) == (SunriseConfig {
                paired_clients: final(config).paired_clients,
                ..*old(config)
            }),
    {
        let text = match required(query, "clientpairingsecret") {
            Ok(text) => text,
            Err(e) => {
                return Err(e);
            },
        };
        let bytes = match decode_hex(text) {
            Ok(bytes) => bytes,
            Err(e) => {
                return Err(e);
            },
        };
        if bytes.len() < 17 {
            return Err(PairError::SecretTooShort);
        }
        let client_secret = copy_range(bytes.as_slice(), 0, 16);
        assert(client_secret@ =~= bytes@.take(16));
        let session = match self.sessions.get(unique_id) {
            Some(session) => session.duplicate(),
            None => {
                return Err(PairError::SessionNotFound);
            },
        };
        let challenge = match session.server_challenge {
            Some(challenge) => challenge,
            None => {
                return Err(PairError::ServerChallengeMissing);
            },
        };
        let hash = match session.client_hash {
            Some(hash) => hash,
            None => {
                return Err(PairError::ClientHashMissing);
            },
        };
        let mut input = copy_bytes(&challenge);
        append_bytes(&mut input, session.client_cert_signature.as_slice());
        append_bytes(&mut input, client_secret.as_slice());
        let expected = sha256(input.as_slice());
        if !same_bytes(&expected, hash.as_slice()) {
            return Err(PairError::HashMismatch);
        }
        self.forget(unique_id);
        self.paired_unique_ids.insert(unique_id.to_owned());
        persist_paired_client(config, unique_id, session.client_cert_pem);
        Ok(success_xml())
    }

    /// Gives up pairing with a client.
    pub fn cancel(&mut self, unique_id: &str) -> (reply: String)
        ensures
            final(self)@ == old(self)@.without_session(unique_id@),
            reply@ == refusal(),
    {
        self.forget(unique_id);
        refusal_xml()
    }
}

// ---------------------------------------------------------------------------
// Requests
// ---------------------------------------------------------------------------
/// What a pairing request leads to.
#[derive(Debug, PartialEq, Eq)]
pub enum PairOutcome {
    /// The request is answered.
    Reply(String),
    /// The client has paired; the request is answered once the settings are kept.
    ReplyAfterSaving(String),
    /// The user has to give the PIN before the request is answered.
    NeedPin { unique_id: String, client: PendingClient },
}

/// The outcome is the given reply, or the given refusal.
pub open spec fn replies(
    outcome: Result<PairOutcome, PairError>,
    reply: Result<Seq<char>, PairError>,
) -> bool {
    match reply {
        Ok(text) => outcome matches Ok(PairOutcome::Reply(t)) && t@ == text,
        Err(e) => outcome matches Err(r) && r == e,
    }
}

/// What a pairing request for a known phase and client does to the state and the
/// known clients, and what it leads to.
pub open spec fn pair_request(
    state: PairingModel,
    clients: Seq<(Seq<char>, Seq<char>)>,
    phrase: Seq<char>,
    unique_id: Seq<char>,
    query: Map<Seq<char>, Seq<char>>,
    after: PairingModel,
    clients_after: Seq<(Seq<char>, Seq<char>)>,
    outcome: Result<PairOutcome, PairError>,
) -> bool {
    if phrase == "getservercert"@ {
        &&& after == state
        &&& clients_after == clients
        &&& match client_of(query) {
            Ok(model) => {
                &&& outcome matches Ok(PairOutcome::NeedPin { unique_id: id, client })
                &&& id@ == unique_id
                &&& client@ == model
            },
            Err(e) => outcome matches Err(r) && r == e,
        }
    } else if phrase == "clientchallenge"@ {
        &&& clients_after == clients
        &&& exists|secret: Seq<u8>, challenge: Seq<u8>|
            {
                let step = #[trigger] challenge_step(state, unique_id, query, secret, challenge);
                &&& secret.len() == 16
                &&& challenge.len() == 16
                &&& after == step.0
                &&& replies(outcome, step.1)
            }
    } else if phrase == "serverchallengeresp"@ {
        let step = answer_step(state, unique_id, query);
        &&& after == step.0
        &&& clients_after == clients
        &&& match step.1 {
            Err(e) => outcome matches Err(r) && r == e,
            Ok(secret) => {
                &&& match rsa_signature(state.identity.key_pem, secret) {
                    Some(signature) => replies(outcome, Ok(secret_reply(secret, signature))),
                    None => true,
                }
                &&& match outcome {
                    Ok(_) => exists|signature: Seq<u8>|
                        replies(outcome, Ok(#[trigger] secret_reply(secret, signature))),
                    Err(e) => e is SigningFailed,
                }
            },
        }
    } else if phrase == "clientpairingsecret"@ {
        let step = secret_step(state, clients, unique_id, query);
        &&& after == step.0
        &&& clients_after == step.1
        &&& match step.2 {
            Ok(text) => outcome matches Ok(PairOutcome::ReplyAfterSaving(t)) && t@ == text,
            Err(e) => outcome matches Err(r) && r == e,
        }
    } else {
        &&& after == state.without_session(unique_id)
        &&& clients_after == clients
        &&& replies(outcome, Ok(refusal()))
    }
}

impl PairingState {
    /// Handles a pairing request up to the point where the PIN is needed or the
    /// settings have to be kept.
    pub fn handle_pair(&mut self, config: &mut SunriseConfig, query: &Query) -> (
        outcome: Result<PairOutcome, PairError>)
        ensures
            *final(config) == (SunriseConfig {
                paired_clients: final(config).paired_clients,
                ..*old(config)
            }),
            match (phrase_of(parameters(*query)), parameter(parameters(*query), "uniqueid"@)) {
                (Ok(phrase), Ok(unique_id)) => pair_request(
                    old(self)@,
                    known_clients(*old(config)),
                    phrase,
                    unique_id,
                    parameters(*query),
                    final(self)@,
                    known_clients(*final(config)),
                    outcome,
                ),
                (Ok(_), Err(e)) => {
                    &&& outcome matches Err(r) && r == e
                    &&& final(self)@ == old(self)@
                    &&& *final(config) == *old(config)
                },
                (Err(e), _) => {
                    &&& outcome matches Err(r) && r == e
                    &&& final(self)@ == old(self)@
                    &&& *final(config) == *old(config)
                },
            },
    {
        let phrase = match pairing_phrase(query) {
            Ok(phrase) => phrase,
            Err(e) => {
                return Err(e);
            },
        };
        let unique_id = match required(query, "uniqueid") {
            Ok(text) => text,
            Err(e) => {
                return Err(e);
            },
        };
        if same_text(phrase, "getservercert") {
            return match read_client(query) {
                Ok(client) => Ok(
                    PairOutcome::NeedPin { unique_id: unique_id.to_owned(), client },
                ),
                Err(e) => Err(e),
            };
        }
        if same_text(phrase, "clientchallenge") {
            return match self.client_challenge(unique_id, query) {
                Ok(reply) => Ok(PairOutcome::Reply(reply)),
                Err(e) => Err(e),
            };
        }
        if same_text(phrase, "serverchallengeresp") {
            return match self.server_challenge_response(unique_id, query) {
                Ok(reply) => Ok(PairOutcome::Reply(reply)),
                Err(e) => Err(e),
            };
        }
        if same_text(phrase, "clientpairingsecret") {
            return match self.client_pairing_secret(config, unique_id, query) {
                Ok(reply) => Ok(PairOutcome::ReplyAfterSaving(reply)),
                Err(e) => Err(e),
            };
        }
        Ok(PairOutcome::Reply(self.cancel(unique_id)))
    }

    /// Forgets a client. Gives whether the settings have changed and have to be
    /// kept: they have not where the request names no client.
    pub fn unpair(&mut self, config: &mut SunriseConfig, query: &Query) -> (save:
        bool)
        ensures
            *final(config) == (SunriseConfig {
                paired_clients: final(config).paired_clients,
                ..*old(config)
            }),
            match parameter(parameters(*query), "uniqueid"@) {
                Ok(unique_id) if unique_id.len() > 0 => {
                    &&& save
                    &&& final(self)@ == (PairingModel {
                        paired: old(self)@.paired.remove(unique_id),
                        ..old(self)@.without_session(unique_id)
                    })
                    &&& known_clients(*final(config)) == without_client(
                        known_clients(*old(config)),
                        unique_id,
                    )
                },
                _ => {
                    &&& !save
                    &&& final(self)@ == old(self)@
                    &&& *final(config) == *old(config)
                },
            },
    {
        let unique_id = match required(query, "uniqueid") {
            Ok(text) => text,
            Err(_) => {
                return false;
            },
        };
        if unique_id.is_empty() {
            return false;
        }
        self.forget(unique_id);
        self.paired_unique_ids.remove(unique_id);
        persist_unpaired_client(config, unique_id);
        true
    }
}

// ---------------------------------------------------------------------------
// What pairing promises
// ---------------------------------------------------------------------------
/// The certificates that are known for an identifier.
pub open spec fn certificates_of(
    clients: Seq<(Seq<char>, Seq<char>)>,
    unique_id: Seq<char>,
) -> Seq<Seq<char>>
    decreases clients.len(),
{
    if clients.len() == 0 {
        Seq::empty()
    } else {
        let others = certificates_of(clients.drop_last(), unique_id);
        if clients.last().0 == unique_id {
            others.push(clients.last().1)
        } else {
            others
        }
    }
}

/// A client that has been taken out is not known any more, and all other clients
/// are known as before.
pub proof fn forgotten_client_is_unknown(
    clients: Seq<(Seq<char>, Seq<char>)>,
    unique_id: Seq<char>,
    other: Seq<char>,
)
    requires
        other != unique_id,
    ensures
        certificates_of(without_client(clients, unique_id), unique_id) == Seq::<Seq<char>>::empty(),
        certificates_of(without_client(clients, unique_id), other) == certificates_of(
            clients,
            other,
        ),
    decreases clients.len(),
{
    if clients.len() > 0 {
        forgotten_client_is_unknown(clients.drop_last(), unique_id, other);
        let others = without_client(clients.drop_last(), unique_id);
        assert(others.push(clients.last()).drop_last() =~= others);
    }
}

/// A client that has paired is known once, with the certificate that it paired
/// with, whatever was known of it before, and all other clients are known as
/// before.
pub proof fn paired_client_is_known_once(
    clients: Seq<(Seq<char>, Seq<char>)>,
    unique_id: Seq<char>,
    cert_pem: Seq<char>,
    other: Seq<char>,
)
    requires
        other != unique_id,
    ensures
        certificates_of(with_client(clients, unique_id, cert_pem), unique_id) == seq![cert_pem],
        certificates_of(with_client(clients, unique_id, cert_pem), other) == certificates_of(
            clients,
            other,
        ),
{
    forgotten_client_is_unknown(clients, unique_id, other);
    let others = without_client(clients, unique_id);
    assert(others.push((unique_id, cert_pem)).drop_last() =~= others);
    assert(certificates_of(with_client(clients, unique_id, cert_pem), unique_id) =~= seq![cert_pem]);
}

/// Pairing and then forgetting a client leaves the others as forgetting it alone
/// does.
pub proof fn forgetting_undoes_pairing(
    clients: Seq<(Seq<char>, Seq<char>)>,
    unique_id: Seq<char>,
    cert_pem: Seq<char>,
)
    ensures
        without_client(with_client(clients, unique_id, cert_pem), unique_id) == without_client(
            clients,
            unique_id,
        ),
{
    let others = without_client(clients, unique_id);
    assert(others.push((unique_id, cert_pem)).drop_last() =~= others);
    lemma_without_twice(clients, unique_id);
}

proof fn lemma_without_twice(clients: Seq<(Seq<char>, Seq<char>)>, unique_id: Seq<char>)
    ensures
        without_client(without_client(clients, unique_id), unique_id) == without_client(
            clients,
            unique_id,
        ),
    decreases clients.len(),
{
    if clients.len() > 0 {
        lemma_without_twice(clients.drop_last(), unique_id);
        let others = without_client(clients.drop_last(), unique_id);
        assert(others.push(clients.last()).drop_last() =~= others);
    }
}

/// Only a client whose hash is right becomes paired, and no refused request
/// changes who has paired or which clients are known. A challenge and an answer
/// never do.
pub proof fn only_the_right_hash_pairs(
    state: PairingModel,
    clients: Seq<(Seq<char>, Seq<char>)>,
    unique_id: Seq<char>,
    query: Map<Seq<char>, Seq<char>>,
    server_secret: Seq<u8>,
    server_challenge: Seq<u8>,
)
    ensures
        challenge_step(state, unique_id, query, server_secret, server_challenge).0.paired
            == state.paired,
        answer_step(state, unique_id, query).0.paired == state.paired,
        ({
            let (after, clients_after, reply) = secret_step(state, clients, unique_id, query);
            &&& reply is Err ==> after == state && clients_after == clients
            &&& reply is Ok ==> {
                let session = state.sessions[unique_id];
                let bytes = hex_parameter(parameter(query, "clientpairingsecret"@))->Ok_0;
                &&& state.sessions.contains_key(unique_id)
                &&& session.client_hash == Some(
                    expected_hash(
                        session.server_challenge->0,
                        session.client_cert_signature,
                        bytes.take(16),
                    ),
                )
                &&& after.paired == state.paired.insert(unique_id)
                &&& !after.sessions.contains_key(unique_id)
            }
        }),
{
}

/// What one client sends leaves the sessions of all others alone.
pub proof fn sessions_do_not_interfere(
    state: PairingModel,
    clients: Seq<(Seq<char>, Seq<char>)>,
    unique_id: Seq<char>,
    other: Seq<char>,
    query: Map<Seq<char>, Seq<char>>,
    server_secret: Seq<u8>,
    server_challenge: Seq<u8>,
    client: ClientModel,
    pin: Seq<char>,
)
    requires
        other != unique_id,
        state.sessions.contains_key(other),
    ensures
        ({
            let after = state.with_session(unique_id, first_session(client, pin));
            after.sessions.contains_key(other) && after.sessions[other] == state.sessions[other]
        }),
        ({
            let after = challenge_step(
                state,
                unique_id,
                query,
                server_secret,
                server_challenge,
            ).0;
            after.sessions.contains_key(other) && after.sessions[other] == state.sessions[other]
        }),
        ({
            let after = answer_step(state, unique_id, query).0;
            after.sessions.contains_key(other) && after.sessions[other] == state.sessions[other]
        }),
        ({
            let after = secret_step(state, clients, unique_id, query).0;
            after.sessions.contains_key(other) && after.sessions[other] == state.sessions[other]
        }),
        ({
            let after = state.without_session(unique_id);
            after.sessions.contains_key(other) && after.sessions[other] == state.sessions[other]
        }),
{
}

/// A client that goes through the phases in order and whose answer decrypts, under
/// the key that salt and PIN give, to the right digest, has paired in the end: it
/// is told so, it counts as paired, it is known with its certificate, and its
/// session is over. A client whose answer decrypts to anything else is refused and
/// has not paired.
pub proof fn pairing_succeeds_for_the_right_pin(
    state: PairingModel,
    clients: Seq<(Seq<char>, Seq<char>)>,
    unique_id: Seq<char>,
    client: ClientModel,
    pin: Seq<char>,
    challenge_query: Map<Seq<char>, Seq<char>>,
    server_secret: Seq<u8>,
    server_challenge: Seq<u8>,
    answer_query: Map<Seq<char>, Seq<char>>,
    secret_query: Map<Seq<char>, Seq<char>>,
)
    requires
        challenge_parameter(challenge_query) matches Ok(challenge) && is_aligned(challenge),
        hex_parameter(parameter(answer_query, "serverchallengeresp"@)) matches Ok(answer)
            && is_aligned(answer),
        hex_parameter(parameter(secret_query, "clientpairingsecret"@)) matches Ok(secret)
            && secret.len() >= 17,
    ensures
        ({
            let key = pairing_key(client.salt, pin);
            let begun = state.with_session(unique_id, first_session(client, pin));
            let (challenged, first_reply) = challenge_step(
                begun,
                unique_id,
                challenge_query,
                server_secret,
                server_challenge,
            );
            let (answered, told) = answer_step(challenged, unique_id, answer_query);
            let (finished, clients_after, last_reply) = secret_step(
                answered,
                clients,
                unique_id,
                secret_query,
            );
            let answer = hex_parameter(parameter(answer_query, "serverchallengeresp"@))->Ok_0;
            let secret = hex_parameter(parameter(secret_query, "clientpairingsecret"@))->Ok_0;
            let right = expected_hash(server_challenge, client.cert_signature, secret.take(16));
            &&& first_reply is Ok
            &&& told == Ok::<_, PairError>(server_secret)
            &&& ecb_decrypt(key, answer) == right ==> {
                &&& last_reply == Ok::<_, PairError>(success())
                &&& finished.paired == state.paired.insert(unique_id)
                &&& !finished.sessions.contains_key(unique_id)
                &&& certificates_of(clients_after, unique_id) == seq![client.cert_pem]
            }
            &&& ecb_decrypt(key, answer) != right ==> {
                &&& last_reply == Err::<Seq<char>, _>(PairError::HashMismatch)
                &&& finished.paired == state.paired
                &&& clients_after == clients
            }
        }),
{
    let others = without_client(clients, unique_id);
    lemma_without_has_none(clients, unique_id);
    assert(others.push((unique_id, client.cert_pem)).drop_last() =~= others);
    assert(certificates_of(with_client(clients, unique_id, client.cert_pem), unique_id) =~= seq![
        client.cert_pem,
    ]);
}

proof fn lemma_without_has_none(clients: Seq<(Seq<char>, Seq<char>)>, unique_id: Seq<char>)
    ensures
        certificates_of(without_client(clients, unique_id), unique_id) == Seq::<Seq<char>>::empty(),
    decreases clients.len(),
{
    if clients.len() > 0 {
        lemma_without_has_none(clients.drop_last(), unique_id);
        let others = without_client(clients.drop_last(), unique_id);
        assert(others.push(clients.last()).drop_last() =~= others);
    }
}

/// The phases have to come in order: without a challenge there is no answer, and
/// without an answer no pairing.
pub proof fn phases_come_in_order(
    state: PairingModel,
    clients: Seq<(Seq<char>, Seq<char>)>,
    unique_id: Seq<char>,
    client: ClientModel,
    pin: Seq<char>,
    query: Map<Seq<char>, Seq<char>>,
)
    ensures
        ({
            let begun = state.with_session(unique_id, first_session(client, pin));
            &&& answer_step(begun, unique_id, query).1 is Err
            &&& secret_step(begun, clients, unique_id, query).2 is Err
        }),
        !state.sessions.contains_key(unique_id) ==> {
            &&& answer_step(state, unique_id, query).1 is Err
            &&& secret_step(state, clients, unique_id, query).2 is Err
        },
{
}

// ---------------------------------------------------------------------------
// What a client reads in the replies
// ---------------------------------------------------------------------------
proof fn lemma_reply_elements(name: Seq<char>, value: Seq<char>)
    requires
        is_plain_name(name),
        name != "paired"@,
    ensures
        element_text(success_with(name, value), "paired"@) == Some("1"@),
        element_text(success_with(name, value), name) == Some(value),
{
    reveal_strlit("paired");
    let fields = seq![("paired"@, "1"@), (name, value)];
    assert(is_plain_name(fields[0].0) && is_plain_name(fields[1].0));
    readers_find_fields_by_name(fields, 0);
    readers_find_fields_by_name(fields, 1);
}

proof fn lemma_reply_names()
    ensures
        is_plain_name("plaincert"@) && "plaincert"@ != "paired"@,
        is_plain_name("challengeresponse"@) && "challengeresponse"@ != "paired"@,
        is_plain_name("pairingsecret"@) && "pairingsecret"@ != "paired"@,
        element_text(success(), "paired"@) == Some("1"@),
        element_text(refusal(), "paired"@) == Some("0"@),
{
    reveal_strlit("paired");
    reveal_strlit("plaincert");
    reveal_strlit("challengeresponse");
    reveal_strlit("pairingsecret");
    assert("paired"@.len() == 6 && "plaincert"@.len() == 9 && "challengeresponse"@.len() == 17
        && "pairingsecret"@.len() == 13);
    readers_find_fields_by_name(seq![("paired"@, "1"@)], 0);
    readers_find_fields_by_name(seq![("paired"@, "0"@)], 0);
}

/// A client that begins to pair reads in the reply that all is well and, in hexadecimal,
/// the certificate of the host. The key of its session is the first half of the digest
/// of its salt and the PIN, and the session keeps the client's certificate.
pub proof fn clients_get_the_certificate_of_the_host(
    state: &mut PairingState,
    unique_id: &str,
    client: PendingClient,
    pin: &str,
    reply: String,
)
    requires
        call_ensures(PairingState::get_server_cert, (state, unique_id, client, pin), reply),
    ensures
        element_text(reply@, "paired"@) == Some("1"@),
        element_text(reply@, "plaincert"@) matches Some(text) && hex_bytes(text) == Some(
            encode_utf8(old(state)@.identity.cert_pem),
        ),
        final(state)@.sessions.contains_key(unique_id@),
        ({
            let session = final(state)@.sessions[unique_id@];
            &&& session.aes_key == sha256_digest(client.salt@ + encode_utf8(pin@)).take(16)
            &&& session.client_cert_der == client.cert_der@
            &&& session.client_cert_pem == client.cert_pem@
            &&& session.client_cert_signature == client.cert_signature@
            &&& session.client_challenge is None && session.server_secret is None
            &&& session.server_challenge is None && session.client_hash is None
        }),
        final(state)@.paired == old(state)@.paired,
        final(state)@.identity == old(state)@.identity,
{
    lemma_reply_names();
    let bytes = encode_utf8(old(state)@.identity.cert_pem);
    lemma_reply_elements("plaincert"@, hex_upper(bytes));
    hex_round_trip(bytes);
}

/// A client decrypts its own challenge's answer to the digest of that challenge, of the
/// signature of the host's certificate and of the host's secret, followed by the host's
/// challenge. `opened` is what the sent challenge decrypts to under the session's key,
/// and `sealed` what the answer encrypts to.
pub proof fn challenges_are_answered_under_the_key(
    state: &mut PairingState,
    unique_id: &str,
    query: &Query,
    secret: [u8; 16],
    challenge: [u8; 16],
    reply: Result<String, PairError>,
    key: &[u8; 16],
    sent: &[u8],
    opened: Option<Vec<u8>>,
    answer: &[u8],
    sealed: Option<Vec<u8>>,
)
    requires
        call_ensures(
            PairingState::client_challenge_with,
            (state, unique_id, query, secret, challenge),
            reply,
        ),
        old(state)@.sessions.contains_key(unique_id@),
        key@ == old(state)@.sessions[unique_id@].aes_key,
        parameters(*query).contains_key("challenge"@) && hex_bytes(
            parameters(*query)["challenge"@],
        ) == Some(sent@) || !parameters(*query).contains_key("challenge"@) && parameters(
            *query,
        ).contains_key("clientchallenge"@) && hex_bytes(parameters(*query)["clientchallenge"@])
            == Some(sent@),
        call_ensures(aes128_ecb_crypt, (key, sent, CipherMode::Decrypt), opened),
        opened is Some,
        answer@ == sha256_digest(
            opened->0@ + old(state)@.identity.cert_signature + secret@,
        ) + challenge@,
        call_ensures(aes128_ecb_crypt, (key, answer, CipherMode::Encrypt), sealed),
        sealed is Some,
    ensures
        reply is Ok,
        element_text(reply->Ok_0@, "paired"@) == Some("1"@),
        element_text(reply->Ok_0@, "challengeresponse"@) matches Some(text) && hex_bytes(text)
            == Some(sealed->0@),
        ({
            let before = old(state)@.sessions[unique_id@];
            let session = final(state)@.sessions[unique_id@];
            &&& session.client_challenge == Some(opened->0@)
            &&& session.server_secret == Some(secret@)
            &&& session.server_challenge == Some(challenge@)
            &&& session.aes_key == before.aes_key
            &&& session.client_cert_signature == before.client_cert_signature
            &&& session.client_cert_pem == before.client_cert_pem
        }),
        final(state)@.paired == old(state)@.paired,
{
    lemma_reply_names();
    let bytes = ecb_encrypt(key@, answer@);
    lemma_reply_elements("challengeresponse"@, hex_upper(bytes));
    hex_round_trip(bytes);
}

/// A client that has answered the host's challenge reads the host's secret, sixteen
/// bytes, followed by its signature, in hexadecimal; its answer is kept as it decrypts
/// under the session's key.
pub proof fn secrets_are_told_with_their_signature(
    secret: &[u8; 16],
    signature: &[u8],
    reply: String,
    state: &mut PairingState,
    unique_id: &str,
    query: &Query,
    told: Result<[u8; 16], PairError>,
    key: &[u8; 16],
    sent: &[u8],
    opened: Option<Vec<u8>>,
)
    requires
        call_ensures(pairing_secret_reply, (secret, signature), reply),
        call_ensures(PairingState::keep_client_answer, (state, unique_id, query), told),
        old(state)@.sessions.contains_key(unique_id@),
        key@ == old(state)@.sessions[unique_id@].aes_key,
        parameters(*query).contains_key("serverchallengeresp"@),
        hex_bytes(parameters(*query)["serverchallengeresp"@]) == Some(sent@),
        call_ensures(aes128_ecb_crypt, (key, sent, CipherMode::Decrypt), opened),
        opened is Some,
    ensures
        element_text(reply@, "paired"@) == Some("1"@),
        element_text(reply@, "pairingsecret"@) matches Some(text) && hex_bytes(text) == Some(
            secret@ + signature@,
        ),
        match old(state)@.sessions[unique_id@].server_secret {
            Some(s) => {
                &&& told matches Ok(t) && t@ == s
                &&& final(state)@.sessions[unique_id@].client_hash == Some(opened->0@)
            },
            None => told is Err && final(state)@ == old(state)@,
        },
        final(state)@.paired == old(state)@.paired,
{
    lemma_reply_names();
    let bytes = secret@ + signature@;
    lemma_reply_elements("pairingsecret"@, hex_upper(bytes));
    hex_round_trip(bytes);
}

/// A client has paired, and reads so, exactly when the answer that it gave before is the
/// digest of the host's challenge, of the signature of its own certificate and of the
/// first sixteen bytes of what it tells now; then its session is over and it is kept
/// with its certificate. Otherwise nothing changes.
pub proof fn clients_pair_by_the_right_digest(
    state: &mut PairingState,
    config: &mut SunriseConfig,
    unique_id: &str,
    query: &Query,
    reply: Result<String, PairError>,
    sent: Seq<u8>,
)
    requires
        call_ensures(
            PairingState::client_pairing_secret,
            (state, config, unique_id, query),
            reply,
        ),
        parameters(*query).contains_key("clientpairingsecret"@),
        hex_bytes(parameters(*query)["clientpairingsecret"@]) == Some(sent),
    ensures
        ({
            let session = old(state)@.sessions[unique_id@];
            let right = old(state)@.sessions.contains_key(unique_id@) && sent.len() > 16
                && session.server_challenge is Some && session.client_hash == Some(
                sha256_digest(
                    session.server_challenge->0 + session.client_cert_signature + sent.take(16),
                ),
            );
            &&& reply is Ok <==> right
            &&& right ==> {
                &&& element_text(reply->Ok_0@, "paired"@) == Some("1"@)
                &&& final(state)@.paired.contains(unique_id@)
                &&& !final(state)@.sessions.contains_key(unique_id@)
                &&& known_clients(*final(config)).contains((unique_id@, session.client_cert_pem))
            }
            &&& !right ==> {
                &&& final(state)@ == old(state)@
                &&& known_clients(*final(config)) == known_clients(*old(config))
            }
        }),
{
    lemma_reply_names();
    if reply is Ok {
        let clients = known_clients(*final(config));
        let n = clients.len() - 1;
        assert(clients[n] == (unique_id@, old(state)@.sessions[unique_id@].client_cert_pem));
    }
}

/// A client that gives up, or whose request fails, reads that it is not paired, and
/// giving up ends its session.
pub proof fn failures_are_told(
    state: &mut PairingState,
    unique_id: &str,
    reply: String,
    error: PairError,
    body: String,
    text: String,
    same: String,
)
    requires
        call_ensures(PairingState::cancel, (state, unique_id), reply),
        call_ensures(pair_reply, (Err::<String, PairError>(error),), body),
        call_ensures(pair_reply, (Ok::<String, PairError>(text),), same),
    ensures
        element_text(reply@, "paired"@) == Some("0"@),
        element_text(body@, "paired"@) == Some("0"@),
        same@ == text@,
        !final(state)@.sessions.contains_key(unique_id@),
        final(state)@.paired == old(state)@.paired,
{
    lemma_reply_names();
}

/// Forgetting a client takes it out of those that have paired and out of the settings,
/// ends its session, and asks for the settings to be kept; a request without an
/// identifier does nothing.
pub proof fn forgotten_clients_have_not_paired(
    state: &mut PairingState,
    config: &mut SunriseConfig,
    query: &Query,
    save: bool,
    id: &str,
    later: &PairingState,
    paired: bool,
    k: int,
)
    requires
        call_ensures(PairingState::unpair, (state, config, query), save),
        *later == *final(state),
        call_ensures(PairingState::is_paired, (later, id), paired),
    ensures
        parameters(*query).contains_key("uniqueid"@) && parameters(*query)["uniqueid"@] == id@
            && id@.len() > 0 ==> {
            &&& save
            &&& !paired
            &&& !final(state)@.sessions.contains_key(id@)
            &&& 0 <= k < known_clients(*final(config)).len() ==> known_clients(
                *final(config),
            )[k].0 != id@
        },
        !parameters(*query).contains_key("uniqueid"@) ==> !save && final(state)@ == old(state)@,
        parameters(*query).contains_key("uniqueid"@) && parameters(*query)["uniqueid"@] != id@
            ==> paired == old(state)@.paired.contains(id@),
{
    lemma_without_lacks(known_clients(*old(config)), id@, k);
}

proof fn lemma_without_lacks(clients: Seq<(Seq<char>, Seq<char>)>, unique_id: Seq<char>, k: int)
    ensures
        0 <= k < without_client(clients, unique_id).len() ==> without_client(
            clients,
            unique_id,
        )[k].0 != unique_id,
    decreases clients.len(),
{
    if clients.len() > 0 {
        lemma_without_lacks(clients.drop_last(), unique_id, k);
    }
}

/// The key of a session is the first half of the digest of the salt followed by the PIN.
pub proof fn keys_are_made_of_salt_and_pin(salt: &[u8], pin: &str, key: [u8; 16])
    requires
        call_ensures(derive_pairing_key, (salt, pin), key),
    ensures
        key@ == sha256_digest(salt@ + encode_utf8(pin@)).subrange(0, 16),
{
    assert(key@ =~= sha256_digest(salt@ + encode_utf8(pin@)).subrange(0, 16));
}

/// The phase that a request names, in any letter case, is the one that it is for; one
/// that names none is told apart by the parameter that it brings.
pub proof fn phases_are_told_apart(query: &Query, phrase: Result<&'static str, PairError>)
    requires
        call_ensures(pairing_phrase, (query,), phrase),
    ensures
        ({
            let q = parameters(*query);
            let named = lower(q["phrase"@]);
            if q.contains_key("phrase"@) {
                &&& named == "getservercert"@ ==> phrase is Ok && phrase->Ok_0@ == "getservercert"@
                &&& named == "clientchallenge"@ ==> phrase is Ok && phrase->Ok_0@
                    == "clientchallenge"@
                &&& named == "pairchallenge"@ ==> phrase is Ok && phrase->Ok_0@
                    == "clientchallenge"@
                &&& named == "serverchallengeresp"@ ==> phrase is Ok && phrase->Ok_0@
                    == "serverchallengeresp"@
                &&& named == "clientpairingsecret"@ ==> phrase is Ok && phrase->Ok_0@
                    == "clientpairingsecret"@
                &&& named == "cancel"@ ==> phrase is Ok && phrase->Ok_0@ == "cancel"@
                &&& named != "getservercert"@ && named != "clientchallenge"@ && named
                    != "pairchallenge"@ && named != "serverchallengeresp"@ && named
                    != "clientpairingsecret"@ && named != "cancel"@ ==> phrase == Err::<
                    &'static str,
                    _,
                >(PairError::UnsupportedPhrase)
            } else {
                &&& q.contains_key("clientchallenge"@) ==> phrase is Ok && phrase->Ok_0@
                    == "clientchallenge"@
                &&& !q.contains_key("clientchallenge"@) && q.contains_key("serverchallengeresp"@)
                    ==> phrase is Ok && phrase->Ok_0@ == "serverchallengeresp"@
                &&& !q.contains_key("clientchallenge"@) && !q.contains_key("serverchallengeresp"@)
                    && q.contains_key("clientpairingsecret"@) ==> phrase is Ok && phrase->Ok_0@
                    == "clientpairingsecret"@
                &&& !q.contains_key("clientchallenge"@) && !q.contains_key("serverchallengeresp"@)
                    && !q.contains_key("clientpairingsecret"@) ==> phrase == Err::<
                    &'static str,
                    _,
                >(PairError::MissingPhrase)
            }
        }),
{
    lemma_phrases_differ();
}

proof fn lemma_phrases_differ()
    ensures
        "getservercert"@ != "clientchallenge"@,
        "getservercert"@ != "pairchallenge"@,
        "getservercert"@ != "serverchallengeresp"@,
        "getservercert"@ != "clientpairingsecret"@,
        "getservercert"@ != "cancel"@,
        "clientchallenge"@ != "pairchallenge"@,
        "clientchallenge"@ != "serverchallengeresp"@,
        "clientchallenge"@ != "clientpairingsecret"@,
        "clientchallenge"@ != "cancel"@,
        "pairchallenge"@ != "serverchallengeresp"@,
        "pairchallenge"@ != "clientpairingsecret"@,
        "pairchallenge"@ != "cancel"@,
        "serverchallengeresp"@ != "clientpairingsecret"@,
        "serverchallengeresp"@ != "cancel"@,
        "clientpairingsecret"@ != "cancel"@,
{
    reveal_strlit("getservercert");
    reveal_strlit("clientchallenge");
    reveal_strlit("pairchallenge");
    reveal_strlit("serverchallengeresp");
    reveal_strlit("clientpairingsecret");
    reveal_strlit("cancel");
    assert("getservercert"@[0] == 'g' && "clientchallenge"@.len() == 15 && "pairchallenge"@[0]
        == 'p');
    assert("serverchallengeresp"@[0] == 's' && "clientpairingsecret"@[0] == 'c'
        && "clientpairingsecret"@.len() == 19 && "cancel"@.len() == 6);
}

/// A client begins to pair with the salt and the certificate that its request brings,
/// both in hexadecimal, and the host then needs the PIN; nothing has changed so far.
pub proof fn beginning_to_pair_needs_the_pin(
    state: &mut PairingState,
    config: &mut SunriseConfig,
    query: &Query,
    outcome: Result<PairOutcome, PairError>,
)
    requires
        call_ensures(PairingState::handle_pair, (state, config, query), outcome),
        parameters(*query).contains_key("phrase"@),
        lower(parameters(*query)["phrase"@]) == "getservercert"@,
        parameters(*query).contains_key("uniqueid"@),
    ensures
        final(state)@ == old(state)@,
        known_clients(*final(config)) == known_clients(*old(config)),
        outcome matches Ok(o) ==> {
            &&& o matches PairOutcome::NeedPin { unique_id, client }
            &&& unique_id@ == parameters(*query)["uniqueid"@]
            &&& parameters(*query).contains_key("salt"@)
            &&& hex_bytes(parameters(*query)["salt"@]) == Some(client.salt@)
            &&& parameters(*query).contains_key("clientcert"@)
            &&& certificate_signature(client.cert_der@) == Some(client.cert_signature@)
            &&& !starts_with(hex_bytes(parameters(*query)["clientcert"@])->0, seq![45u8, 45u8, 45u8, 45u8, 45u8, 66u8, 69u8, 71u8, 73u8, 78u8])
                ==> hex_bytes(parameters(*query)["clientcert"@]) == Some(client.cert_der@)
            &&& starts_with(hex_bytes(parameters(*query)["clientcert"@])->0, seq![45u8, 45u8, 45u8, 45u8, 45u8, 66u8, 69u8, 71u8, 73u8, 78u8])
                ==> client.cert_pem@ == decode_utf8(
                hex_bytes(parameters(*query)["clientcert"@])->0,
            ) && pem_document(client.cert_pem@) == Some(("CERTIFICATE"@, client.cert_der@))
        },
{
    lemma_phrases_differ();
}

/// A request to give up ends the session of the client that it names and is answered
/// with a refusal.
pub proof fn cancelling_ends_the_session(
    state: &mut PairingState,
    config: &mut SunriseConfig,
    query: &Query,
    outcome: Result<PairOutcome, PairError>,
)
    requires
        call_ensures(PairingState::handle_pair, (state, config, query), outcome),
        parameters(*query).contains_key("phrase"@),
        lower(parameters(*query)["phrase"@]) == "cancel"@,
        parameters(*query).contains_key("uniqueid"@),
    ensures
        !final(state)@.sessions.contains_key(parameters(*query)["uniqueid"@]),
        final(state)@.paired == old(state)@.paired,
        outcome matches Ok(PairOutcome::Reply(text)) && element_text(text@, "paired"@) == Some(
            "0"@,
        ),
{
    lemma_phrases_differ();
    lemma_reply_names();
}

/// A request that tells the client's secret pairs the client exactly when its earlier
/// answer is the right digest; the reply is then sent once the settings are kept. No
/// other request pairs a client.
pub proof fn only_the_last_phase_pairs(
    state: &mut PairingState,
    config: &mut SunriseConfig,
    query: &Query,
    outcome: Result<PairOutcome, PairError>,
    sent: Seq<u8>,
)
    requires
        call_ensures(PairingState::handle_pair, (state, config, query), outcome),
        parameters(*query).contains_key("phrase"@),
        parameters(*query).contains_key("uniqueid"@),
    ensures
        lower(parameters(*query)["phrase"@]) != "clientpairingsecret"@ ==> {
            &&& final(state)@.paired == old(state)@.paired
            &&& known_clients(*final(config)) == known_clients(*old(config))
            &&& !(outcome matches Ok(PairOutcome::ReplyAfterSaving(_)))
        },
        lower(parameters(*query)["phrase"@]) == "clientpairingsecret"@ && parameters(
            *query,
        ).contains_key("clientpairingsecret"@) && hex_bytes(
            parameters(*query)["clientpairingsecret"@],
        ) == Some(sent) ==> {
            let id = parameters(*query)["uniqueid"@];
            let session = old(state)@.sessions[id];
            let right = old(state)@.sessions.contains_key(id) && sent.len() > 16
                && session.server_challenge is Some && session.client_hash == Some(
                sha256_digest(
                    session.server_challenge->0 + session.client_cert_signature + sent.take(16),
                ),
            );
            &&& right ==> {
                &&& outcome matches Ok(PairOutcome::ReplyAfterSaving(text))
                &&& element_text(text@, "paired"@) == Some("1"@)
                &&& final(state)@.paired.contains(id)
            }
            &&& !right ==> outcome is Err && final(state)@.paired == old(state)@.paired
        },
{
    lemma_phrases_differ();
    lemma_reply_names();
}

/// After a restart the clients that the settings keep count as paired, and no others.
pub proof fn kept_clients_have_paired(
    config: &SunriseConfig,
    ids: Vec<String>,
    identity: ServerIdentity,
    state: PairingState,
    same: &PairingState,
    id: &str,
    paired: bool,
)
    requires
        call_ensures(known_ids, (config,), ids),
        call_ensures(PairingState::new, (identity, ids), state),
        *same == state,
        call_ensures(PairingState::is_paired, (same, id), paired),
    ensures
        paired <==> exists|k: int|
            0 <= k < config.paired_clients@.len() && (#[trigger] config.paired_clients@[k]).unique_id@
                == id@,
        state@.identity == identity@,
        state@.sessions.dom() == Set::<Seq<char>>::empty(),
{
    let known = known_clients(*config);
    let list = texts(ids@);
    assert(state@.sessions.dom() =~= Set::<Seq<char>>::empty());
    if paired {
        assert(list.contains(id@));
        let k = choose|k: int| 0 <= k < list.len() && list[k] == id@;
        assert(ids@[k]@ == known[k].0);
        assert(config.paired_clients@[k].unique_id@ == id@);
    }
    if exists|k: int|
        0 <= k < config.paired_clients@.len() && (#[trigger] config.paired_clients@[k]).unique_id@
            == id@ {
        let k = choose|k: int|
            0 <= k < config.paired_clients@.len() && (#[trigger] config.paired_clients@[k]).unique_id@
                == id@;
        assert(ids@[k]@ == known[k].0);
        assert(list[k] == id@);
        assert(list.contains(id@));
    }
}

/// A client that has just paired is kept last in the settings, once, with its
/// certificate, and the other clients stay in their order.
pub proof fn paired_clients_are_kept_last(
    config: &mut SunriseConfig,
    unique_id: &str,
    cert_pem: String,
    k: int,
)
    requires
        call_ensures(persist_paired_client, (config, unique_id, cert_pem), ()),
    ensures
        final(config).paired_clients@.len() > 0,
        final(config).paired_clients@.last().unique_id@ == unique_id@,
        final(config).paired_clients@.last().client_cert_pem@ == cert_pem@,
        0 <= k < final(config).paired_clients@.len() - 1
            ==> final(config).paired_clients@[k].unique_id@ != unique_id@,
        final(config).host_name == old(config).host_name,
        final(config).http_port == old(config).http_port,
        final(config).https_port == old(config).https_port,
        final(config).rtsp_port == old(config).rtsp_port,
        final(config).server_cert_pem == old(config).server_cert_pem,
        final(config).server_private_key_pem == old(config).server_private_key_pem,
{
    let before = known_clients(*old(config));
    let after = known_clients(*final(config));
    let n = after.len() - 1;
    assert(after.len() == final(config).paired_clients@.len());
    assert(after[n] == (unique_id@, cert_pem@));
    lemma_without_lacks(before, unique_id@, k);
    if 0 <= k < n {
        assert(after[k] == without_client(before, unique_id@)[k]);
    }
}

/// A PIN is what was typed without white space around it; nothing is no PIN.
pub proof fn pins_are_trimmed(text: &str, pin: Result<String, PairError>)
    requires
        call_ensures(clean_pin, (text,), pin),
    ensures
        trim(text@).len() > 0 ==> pin is Ok && pin->Ok_0@ == trim(text@),
        trim(text@).len() == 0 ==> pin == Err::<String, _>(PairError::EmptyPin),
{
}

/// Of two parameters with the same name the later one counts, and each parameter is
/// found under its own name.
pub proof fn parameters_are_found_by_name(
    pairs: &Vec<(String, String)>,
    query: Query,
    same: &Query,
    key: &'static str,
    value: Result<&'static str, PairError>,
    k: int,
)
    requires
        call_ensures(collect_parameters, (pairs,), query),
        *same == query,
        call_ensures(required, (same, key), value),
        0 <= k < pairs@.len(),
        pairs@[k].0@ == key@,
        forall|j: int| k < j < pairs@.len() ==> (#[trigger] pairs@[j]).0@ != key@,
    ensures
        value matches Ok(v) && v@ == pairs@[k].1@,
{
    let all = pairs@.map_values(|p: (String, String)| (p.0@, p.1@));
    assert forall|j: int| k < j < all.len() implies (#[trigger] all[j]).0 != key@ by {
        assert(all[j].0 == pairs@[j].0@);
    }
    lemma_parameter_found(all, k, key@);
}

proof fn lemma_parameter_found(pairs: Seq<(Seq<char>, Seq<char>)>, k: int, key: Seq<char>)
    requires
        0 <= k < pairs.len(),
        pairs[k].0 == key,
        forall|j: int| k < j < pairs.len() ==> (#[trigger] pairs[j]).0 != key,
    ensures
        parameter_map(pairs).contains_key(key),
        parameter_map(pairs)[key] == pairs[k].1,
    decreases pairs.len(),
{
    if k < pairs.len() - 1 {
        let shorter = pairs.drop_last();
        assert forall|j: int| k < j < shorter.len() implies (#[trigger] shorter[j]).0 != key by {
            assert(shorter[j] == pairs[j]);
        }
        lemma_parameter_found(shorter, k, key);
        assert(pairs[pairs.len() - 1].0 != key);
    }
}

/// A client whose answer was kept, and for whose secret an RSA key signs, reads the
/// secret and that signature.
pub proof fn answers_are_rewarded_with_the_secret(
    state: &mut PairingState,
    config: &mut SunriseConfig,
    query: &Query,
    outcome: Result<PairOutcome, PairError>,
    secret: Seq<u8>,
    signature: Seq<u8>,
    sent: Seq<u8>,
)
    requires
        call_ensures(PairingState::handle_pair, (state, config, query), outcome),
        parameters(*query).contains_key("phrase"@),
        lower(parameters(*query)["phrase"@]) == "serverchallengeresp"@,
        parameters(*query).contains_key("uniqueid"@),
        old(state)@.sessions.contains_key(parameters(*query)["uniqueid"@]),
        old(state)@.sessions[parameters(*query)["uniqueid"@]].server_secret == Some(secret),
        parameters(*query).contains_key("serverchallengeresp"@),
        hex_bytes(parameters(*query)["serverchallengeresp"@]) == Some(sent),
        sent.len() > 0 && sent.len() % 16 == 0,
        rsa_signature(old(state)@.identity.key_pem, secret) == Some(signature),
    ensures
        outcome matches Ok(PairOutcome::Reply(reply)) && element_text(reply@, "paired"@) == Some(
            "1"@,
        ) && (element_text(reply@, "pairingsecret"@) matches Some(text) && hex_bytes(text) == Some(
            secret + signature,
        )),
        final(state)@.paired == old(state)@.paired,
{
    lemma_phrases_differ();
    lemma_reply_names();
    let bytes = secret + signature;
    lemma_reply_elements("pairingsecret"@, hex_upper(bytes));
    hex_round_trip(bytes);
}

/// Why the last phase fails: a secret without a signature, a client that has not begun, a
/// phase that was left out, or the wrong digest, in this order.
pub proof fn refused_secrets_are_told_why(
    state: &mut PairingState,
    config: &mut SunriseConfig,
    unique_id: &str,
    query: &Query,
    reply: Result<String, PairError>,
)
    requires
        call_ensures(
            PairingState::client_pairing_secret,
            (state, config, unique_id, query),
            reply,
        ),
        reply is Err,
    ensures
        ({
            let q = parameters(*query);
            let sent = hex_bytes(q["clientpairingsecret"@]);
            let session = old(state)@.sessions[unique_id@];
            reply->Err_0 == if !q.contains_key("clientpairingsecret"@) {
                PairError::MissingParameter
            } else if sent is None {
                PairError::InvalidHex
            } else if sent->0.len() <= 16 {
                PairError::SecretTooShort
            } else if !old(state)@.sessions.contains_key(unique_id@) {
                PairError::SessionNotFound
            } else if session.server_challenge is None {
                PairError::ServerChallengeMissing
            } else if session.client_hash is None {
                PairError::ClientHashMissing
            } else {
                PairError::HashMismatch
            }
        }),
{
}

/// Why a challenge or an answer fails: the parameter is missing or no hexadecimal text,
/// the client has not begun, a phase was left out, or what was sent is not made of whole
/// blocks.
pub proof fn refused_challenges_are_told_why(
    state: &mut PairingState,
    unique_id: &str,
    query: &Query,
    secret: [u8; 16],
    challenge: [u8; 16],
    reply: Result<String, PairError>,
    later: &mut PairingState,
    told: Result<[u8; 16], PairError>,
)
    requires
        call_ensures(
            PairingState::client_challenge_with,
            (state, unique_id, query, secret, challenge),
            reply,
        ),
        call_ensures(PairingState::keep_client_answer, (later, unique_id, query), told),
    ensures
        reply is Err ==> final(state)@ == old(state)@,
        reply is Err ==> ({
            let q = parameters(*query);
            let text = if q.contains_key("challenge"@) {
                q["challenge"@]
            } else {
                q["clientchallenge"@]
            };
            reply->Err_0 == if !q.contains_key("challenge"@) && !q.contains_key("clientchallenge"@) {
                PairError::MissingParameter
            } else if hex_bytes(text) is None {
                PairError::InvalidHex
            } else if !old(state)@.sessions.contains_key(unique_id@) {
                PairError::SessionNotFound
            } else {
                PairError::PayloadNotAligned
            }
        }),
        told is Err ==> final(later)@ == old(later)@,
        told is Err ==> ({
            let q = parameters(*query);
            told->Err_0 == if !q.contains_key("serverchallengeresp"@) {
                PairError::MissingParameter
            } else if hex_bytes(q["serverchallengeresp"@]) is None {
                PairError::InvalidHex
            } else if !old(later)@.sessions.contains_key(unique_id@) {
                PairError::SessionNotFound
            } else if old(later)@.sessions[unique_id@].server_secret is None {
                PairError::ServerSecretMissing
            } else {
                PairError::PayloadNotAligned
            }
        }),
{
}

/// A certificate that a client sends in DER form is kept in PEM form too, one that it
/// sends in PEM form as it came; a PEM document with another tag is refused.
pub proof fn certificates_are_read_in_either_form(
    value: &str,
    certificate: Result<DecodedCertificate, PairError>,
)
    requires
        call_ensures(decode_certificate_hex, (value,), certificate),
    ensures
        hex_bytes(value@) is None ==> certificate == Err::<DecodedCertificate, _>(
            PairError::InvalidHex,
        ),
        certificate matches Ok(c) ==> pem_document(c.pem@) == Some(("CERTIFICATE"@, c.der@)),
        hex_bytes(value@) matches Some(bytes) ==> {
            let begin = seq![45u8, 45u8, 45u8, 45u8, 45u8, 66u8, 69u8, 71u8, 73u8, 78u8];
            &&& !starts_with(bytes, begin) ==> certificate is Ok && certificate->Ok_0.der@ == bytes
                && certificate->Ok_0.pem@ == pem_text("CERTIFICATE"@, bytes)
            &&& starts_with(bytes, begin) && !valid_utf8(bytes) ==> certificate == Err::<
                DecodedCertificate,
                _,
            >(PairError::CertificateNotUtf8)
            &&& starts_with(bytes, begin) && certificate is Ok ==> certificate->Ok_0.pem@
                == decode_utf8(bytes)
            &&& starts_with(bytes, begin) && valid_utf8(bytes) && pem_document(decode_utf8(bytes))
                is None ==> certificate == Err::<DecodedCertificate, _>(
                PairError::InvalidCertificatePem,
            )
        },
{
}

} // verus!
