//! The XML documents that clients read.
use vstd::prelude::*;
use vstd::string::*;
use crate::config::SunriseConfig;
use crate::text::{
    chars_of, decimal, decimal_text, find, join, join_texts, lemma_find_from, occurs_at,
    pair_views, parse_unsigned, parse_unsigned_of_decimal, split_once, starts_with, texts,
};

verus! {

/// What the host tells of itself.
#[derive(Clone, Debug)]
pub struct ServerInfo {
    pub hostname: String,
    pub unique_id: String,
    pub uuid: String,
    pub local_ip: String,
    pub external_ip: String,
    pub pair_status: u8,
    pub current_game: u32,
    pub state: String,
    pub app_version: String,
    pub gfe_version: String,
    pub server_codec_mode_support: u32,
    pub supported_display_mode: String,
    pub mac: String,
    pub https_port: u16,
    pub http_port: u16,
    pub rtsp_port: u16,
}

impl ServerInfo {
    /// What a host with the given settings tells a client while no game runs.
    pub fn from_config(config: &SunriseConfig, local_ip: &str, paired: bool) -> (info: Self)
        ensures
            info.hostname@ == config.host_name@,
            info.unique_id@ == config.unique_id@,
            info.uuid@ == config.uuid@,
            info.local_ip@ == local_ip@,
            info.external_ip@ == local_ip@,
            info.pair_status == if paired {
                1u8
            } else {
                0u8
            },
            info.current_game == 0,
            info.state@ == "ONLINE"@,
            info.app_version@ == "7.1.431.-1"@,
            info.gfe_version@ == "3.23.0.74"@,
            info.server_codec_mode_support == 257,
            info.supported_display_mode@ == "1920x1080x60"@,
            info.mac@ == config.mac_address@,
            info.https_port == config.https_port,
            info.http_port == config.http_port,
            info.rtsp_port == config.rtsp_port,
    {
        ServerInfo {
            hostname: config.host_name.clone(),
            unique_id: config.unique_id.clone(),
            uuid: config.uuid.clone(),
            local_ip: local_ip.to_owned(),
            external_ip: local_ip.to_owned(),
            pair_status: if paired {
                1
            } else {
                0
            },
            current_game: 0,
            state: "ONLINE".to_owned(),
            app_version: "7.1.431.-1".to_owned(),
            gfe_version: "3.23.0.74".to_owned(),
            server_codec_mode_support: 257,
            supported_display_mode: "1920x1080x60".to_owned(),
            mac: config.mac_address.clone(),
            https_port: config.https_port,
            http_port: config.http_port,
            rtsp_port: config.rtsp_port,
        }
    }

    /// What the host tells while `game` runs, zero for none: a host with a
    /// running game is busy.
    pub fn with_current_game(self, game: u32) -> (info: Self)
        ensures
            info.current_game == game,
            info.state@ == if game != 0 {
                "SUNSHINE_SERVER_BUSY"@
            } else {
                self.state@
            },
            info == (ServerInfo { current_game: game, state: info.state, ..self }),
    {
        let mut info = self;
        info.current_game = game;
        if game != 0 {
            info.state = "SUNSHINE_SERVER_BUSY".to_owned();
        }
        info
    }
}

// ---------------------------------------------------------------------------
// Escaping
// ---------------------------------------------------------------------------
/// How a character is written in the text of an element.
pub open spec fn escaped_char(c: char) -> Seq<char> {
    if c == '&' {
        "&amp;"@
    } else if c == '<' {
        "&lt;"@
    } else if c == '>' {
        "&gt;"@
    } else if c == '"' {
        "&quot;"@
    } else if c == '\'' {
        "&apos;"@
    } else {
        seq![c]
    }
}

/// How a text is written in an element.
pub open spec fn escaped(value: Seq<char>) -> Seq<char>
    decreases value.len(),
{
    if value.len() == 0 {
        Seq::empty()
    } else {
        escaped(value.drop_last()) + escaped_char(value.last())
    }
}

/// Writes a text as the contents of an element.
pub fn escape_xml(value: &str) -> (out: String)
    ensures
        out@ == escaped(value@),
{
    let chars = chars_of(value);
    let mut out = String::new();
    let mut i: usize = 0;
    assert(out@ =~= escaped(value@.take(0)));
    while i < chars.len()
        invariant
            chars@ == value@,
            i <= chars@.len(),
            out@ == escaped(value@.take(i as int)),
        decreases chars@.len() - i,
    {
        assert(value@.take(i + 1).drop_last() =~= value@.take(i as int));
        let c = chars[i];
        if c == '&' {
            out.append("&amp;");
        } else if c == '<' {
            out.append("&lt;");
        } else if c == '>' {
            out.append("&gt;");
        } else if c == '"' {
            out.append("&quot;");
        } else if c == '\'' {
            out.append("&apos;");
        } else {
            out.push(c);
            assert(out@ =~= escaped(value@.take(i as int)) + seq![c]);
        }
        i += 1;
    }
    assert(value@.take(i as int) =~= value@);
    out
}

/// What a reader makes of the contents of an element: each of the five entities
/// stands for its character.
pub open spec fn unescaped(s: Seq<char>) -> Seq<char>
    decreases s.len(),
{
    if s.len() == 0 {
        Seq::empty()
    } else if starts_with(s, "&amp;"@) && "&amp;"@.len() > 0 {
        seq!['&'] + unescaped(s.skip("&amp;"@.len() as int))
    } else if starts_with(s, "&lt;"@) && "&lt;"@.len() > 0 {
        seq!['<'] + unescaped(s.skip("&lt;"@.len() as int))
    } else if starts_with(s, "&gt;"@) && "&gt;"@.len() > 0 {
        seq!['>'] + unescaped(s.skip("&gt;"@.len() as int))
    } else if starts_with(s, "&quot;"@) && "&quot;"@.len() > 0 {
        seq!['"'] + unescaped(s.skip("&quot;"@.len() as int))
    } else if starts_with(s, "&apos;"@) && "&apos;"@.len() > 0 {
        seq!['\''] + unescaped(s.skip("&apos;"@.len() as int))
    } else {
        seq![s[0]] + unescaped(s.skip(1))
    }
}

proof fn lemma_escaped_front(value: Seq<char>)
    requires
        value.len() > 0,
    ensures
        escaped(value) == escaped_char(value[0]) + escaped(value.skip(1)),
    decreases value.len(),
{
    if value.len() == 1 {
        assert(value.drop_last() =~= Seq::empty());
        assert(value.skip(1) =~= Seq::empty());
        assert(escaped(value) =~= escaped_char(value[0]) + escaped(value.skip(1)));
    } else {
        lemma_escaped_front(value.drop_last());
        assert(value.drop_last().skip(1) =~= value.skip(1).drop_last());
        assert(escaped(value) =~= escaped_char(value[0]) + escaped(value.skip(1)));
    }
}

proof fn lemma_unescape_first(c: char, rest: Seq<char>)
    ensures
        unescaped(escaped_char(c) + rest) == seq![c] + unescaped(rest),
{
    reveal_strlit("&amp;");
    reveal_strlit("&lt;");
    reveal_strlit("&gt;");
    reveal_strlit("&quot;");
    reveal_strlit("&apos;");
    let s = escaped_char(c) + rest;
    assert(s.skip(escaped_char(c).len() as int) =~= rest);
    assert(s.subrange(0, escaped_char(c).len() as int) =~= escaped_char(c));
    assert(starts_with(s, "&amp;"@) ==> s.subrange(0, 5)[1] == 'a' && s.subrange(0, 5)[2] == 'm');
    assert(starts_with(s, "&lt;"@) ==> s.subrange(0, 4)[1] == 'l');
    assert(starts_with(s, "&gt;"@) ==> s.subrange(0, 4)[1] == 'g');
    assert(starts_with(s, "&quot;"@) ==> s.subrange(0, 6)[1] == 'q');
    assert(starts_with(s, "&apos;"@) ==> s.subrange(0, 6)[1] == 'a' && s.subrange(0, 6)[2] == 'p');
    assert(starts_with(s, "&amp;"@) ==> s.subrange(0, 5)[0] == '&');
    assert(starts_with(s, "&lt;"@) ==> s.subrange(0, 4)[0] == '&');
    assert(starts_with(s, "&gt;"@) ==> s.subrange(0, 4)[0] == '&');
    assert(starts_with(s, "&quot;"@) ==> s.subrange(0, 6)[0] == '&');
    assert(starts_with(s, "&apos;"@) ==> s.subrange(0, 6)[0] == '&');
}

/// A reader gets back every text that was written into an element.
pub proof fn escaping_round_trip(value: Seq<char>)
    ensures
        unescaped(escaped(value)) == value,
    decreases value.len(),
{
    if value.len() == 0 {
        assert(unescaped(escaped(value)) =~= value);
    } else {
        lemma_escaped_front(value);
        lemma_unescape_first(value[0], escaped(value.skip(1)));
        escaping_round_trip(value.skip(1));
        assert(seq![value[0]] + value.skip(1) =~= value);
    }
}

/// What is written into an element holds no character that could end it or begin
/// another.
pub proof fn escaped_text_has_no_markup(value: Seq<char>)
    ensures
        forall|i: int|
            0 <= i < escaped(value).len() ==> {
                let c = #[trigger] escaped(value)[i];
                c != '<' && c != '>' && c != '"' && c != '\''
            },
    decreases value.len(),
{
    reveal_strlit("&amp;");
    reveal_strlit("&lt;");
    reveal_strlit("&gt;");
    reveal_strlit("&quot;");
    reveal_strlit("&apos;");
    if value.len() > 0 {
        escaped_text_has_no_markup(value.drop_last());
        let head = escaped(value.drop_last());
        let tail = escaped_char(value.last());
        assert forall|i: int| 0 <= i < escaped(value).len() implies {
            let c = #[trigger] escaped(value)[i];
            c != '<' && c != '>' && c != '"' && c != '\''
        } by {
            if i < head.len() {
                assert(escaped(value)[i] == head[i]);
            } else {
                assert(escaped(value)[i] == tail[i - head.len()]);
            }
        }
    }
}

// ---------------------------------------------------------------------------
// Documents
// ---------------------------------------------------------------------------
/// The elements of a document, one on each line.
pub open spec fn elements(fields: Seq<(Seq<char>, Seq<char>)>) -> Seq<char>
    decreases fields.len(),
{
    if fields.len() == 0 {
        Seq::empty()
    } else {
        let (name, value) = fields.last();
        elements(fields.drop_last()) + "  <"@ + name + ">"@ + escaped(value) + "</"@ + name
            + ">\n"@
    }
}

/// A document that reports success and holds the fields in order.
pub open spec fn document(fields: Seq<(Seq<char>, Seq<char>)>) -> Seq<char> {
    "<?xml version=\"1.0\" encoding=\"UTF-8\"?>\n"@ + "<root status_code=\"200\">\n"@ + elements(
        fields,
    ) + "</root>\n"@
}

/// A document that reports success and holds the fields in order.
fn render_document(fields: &[(&str, &str)]) -> (xml: String)
    ensures
        xml@ == document(pair_views(fields@)),
{
    let mut xml = "<?xml version=\"1.0\" encoding=\"UTF-8\"?>\n".to_owned();
    xml.append("<root status_code=\"200\">\n");
    let ghost start = xml@;
    let ghost all = pair_views(fields@);
    let mut i: usize = 0;
    assert(xml@ =~= start + elements(all.take(0)));
    while i < fields.len()
        invariant
            all == pair_views(fields@),
            i <= fields@.len(),
            xml@ == start + elements(all.take(i as int)),
        decreases fields@.len() - i,
    {
        assert(all.take(i + 1).drop_last() =~= all.take(i as int));
        let name = fields[i].0;
        let value = escape_xml(fields[i].1);
        xml.append("  <");
        xml.append(name);
        xml.append(">");
        xml.append(value.as_str());
        xml.append("</");
        xml.append(name);
        xml.append(">\n");
        assert(xml@ =~= start + elements(all.take(i + 1)));
        i += 1;
    }
    assert(all.take(i as int) =~= all);
    xml.append("</root>\n");
    xml
}

/// The answer to a pairing request.
pub fn pair_xml<'a, const N: usize>(fields: [(&'a str, &'a str); N]) -> (xml: String)
    ensures
        xml@ == document(pair_views(fields@)),
{
    render_document(&fields)
}

/// The fields of the description of a host.
pub open spec fn serverinfo_fields(info: ServerInfo) -> Seq<(Seq<char>, Seq<char>)> {
    seq![
        ("hostname"@, info.hostname@),
        ("uniqueid"@, info.unique_id@),
        ("uuid"@, info.uuid@),
        ("LocalIP"@, info.local_ip@),
        ("ExternalIP"@, info.external_ip@),
        ("PairStatus"@, decimal(info.pair_status as nat)),
        ("currentgame"@, decimal(info.current_game as nat)),
        ("state"@, info.state@),
        ("appversion"@, info.app_version@),
        ("GfeVersion"@, info.gfe_version@),
        ("serverCodecModeSupport"@, decimal(info.server_codec_mode_support as nat)),
        ("supportedDisplayMode"@, info.supported_display_mode@),
        ("mac"@, info.mac@),
        ("HTTPSPort"@, decimal(info.https_port as nat)),
        ("HTTPPort"@, decimal(info.http_port as nat)),
        ("RTSPPort"@, decimal(info.rtsp_port as nat)),
    ]
}

/// The description of a host.
pub fn serverinfo_xml(info: &ServerInfo) -> (xml: String)
    ensures
        xml@ == document(serverinfo_fields(*info)),
{
    let pair_status = decimal_text(info.pair_status as u64);
    let current_game = decimal_text(info.current_game as u64);
    let codecs = decimal_text(info.server_codec_mode_support as u64);
    let https_port = decimal_text(info.https_port as u64);
    let http_port = decimal_text(info.http_port as u64);
    let rtsp_port = decimal_text(info.rtsp_port as u64);
    let fields: [(&str, &str); 16] = [
        ("hostname", info.hostname.as_str()),
        ("uniqueid", info.unique_id.as_str()),
        ("uuid", info.uuid.as_str()),
        ("LocalIP", info.local_ip.as_str()),
        ("ExternalIP", info.external_ip.as_str()),
        ("PairStatus", pair_status.as_str()),
        ("currentgame", current_game.as_str()),
        ("state", info.state.as_str()),
        ("appversion", info.app_version.as_str()),
        ("GfeVersion", info.gfe_version.as_str()),
        ("serverCodecModeSupport", codecs.as_str()),
        ("supportedDisplayMode", info.supported_display_mode.as_str()),
        ("mac", info.mac.as_str()),
        ("HTTPSPort", https_port.as_str()),
        ("HTTPPort", http_port.as_str()),
        ("RTSPPort", rtsp_port.as_str()),
    ];
    assert(pair_views(fields@) =~= serverinfo_fields(*info));
    render_document(&fields)
}

/// The lines of the list of applications.
pub open spec fn applist_lines() -> Seq<Seq<char>> {
    seq![
        "<?xml version=\"1.0\" encoding=\"UTF-8\"?>"@,
        "<root protocol_version=\"0.1\" query=\"applist\" status_code=\"200\" status_message=\"OK\">"@,
        "  <App>"@,
        "    <AppInstallPath>C:\\\\Windows\\\\explorer.exe</AppInstallPath>"@,
        "    <ID>1</ID>"@,
        "    <AppTitle>Desktop</AppTitle>"@,
        "    <CmsId>0</CmsId>"@,
        "    <Distributor>Standalone</Distributor>"@,
        "    <IsAppCollectorGame>0</IsAppCollectorGame>"@,
        "    <IsHdrSupported>0</IsHdrSupported>"@,
        "    <MaxControllersForSingleSession>1</MaxControllersForSingleSession>"@,
        "    <ShortName>desktop</ShortName>"@,
        "    <SupportedSOPS>"@,
        "      <SOPS>"@,
        "        <Height>1080</Height>"@,
        "        <RefreshRate>60</RefreshRate>"@,
        "        <Width>1920</Width>"@,
        "      </SOPS>"@,
        "    </SupportedSOPS>"@,
        "    <UniqueId>1</UniqueId>"@,
        "    <simulateControllers>0</simulateControllers>"@,
        "  </App>"@,
        "</root>"@,
        ""@,
    ]
}

/// The list of applications: the desktop alone.
pub fn applist_xml() -> (xml: String)
    ensures
        xml@ == join(applist_lines(), "\n"@),
{
    let lines: Vec<String> = vec![
        "<?xml version=\"1.0\" encoding=\"UTF-8\"?>".to_owned(),
        "<root protocol_version=\"0.1\" query=\"applist\" status_code=\"200\" status_message=\"OK\">".to_owned(),
        "  <App>".to_owned(),
        "    <AppInstallPath>C:\\\\Windows\\\\explorer.exe</AppInstallPath>".to_owned(),
        "    <ID>1</ID>".to_owned(),
        "    <AppTitle>Desktop</AppTitle>".to_owned(),
        "    <CmsId>0</CmsId>".to_owned(),
        "    <Distributor>Standalone</Distributor>".to_owned(),
        "    <IsAppCollectorGame>0</IsAppCollectorGame>".to_owned(),
        "    <IsHdrSupported>0</IsHdrSupported>".to_owned(),
        "    <MaxControllersForSingleSession>1</MaxControllersForSingleSession>".to_owned(),
        "    <ShortName>desktop</ShortName>".to_owned(),
        "    <SupportedSOPS>".to_owned(),
        "      <SOPS>".to_owned(),
        "        <Height>1080</Height>".to_owned(),
        "        <RefreshRate>60</RefreshRate>".to_owned(),
        "        <Width>1920</Width>".to_owned(),
        "      </SOPS>".to_owned(),
        "    </SupportedSOPS>".to_owned(),
        "    <UniqueId>1</UniqueId>".to_owned(),
        "    <simulateControllers>0</simulateControllers>".to_owned(),
        "  </App>".to_owned(),
        "</root>".to_owned(),
        "".to_owned(),
    ];
    assert(texts(lines@) =~= applist_lines());
    join_texts(&lines, "\n")
}

// ---------------------------------------------------------------------------
// What a reader finds
// ---------------------------------------------------------------------------
/// What a reader finds in a document under the name of an element: the text from the
/// first opening tag with the name up to the next closing one.
pub open spec fn element_text(xml: Seq<char>, name: Seq<char>) -> Option<Seq<char>> {
    match split_once(xml, seq!['<'] + name + seq!['>']) {
        None => None,
        Some((_, rest)) => match split_once(rest, seq!['<', '/'] + name + seq!['>']) {
            None => None,
            Some((text, _)) => Some(unescaped(text)),
        },
    }
}

/// The number that a reader finds in a document under the name of an element.
pub open spec fn element_number(xml: Seq<char>, name: Seq<char>) -> Option<nat> {
    match element_text(xml, name) {
        None => None,
        Some(text) => parse_unsigned(text, u32::MAX as nat),
    }
}

/// The name of an element is made of letters.
pub open spec fn is_plain_name(name: Seq<char>) -> bool {
    &&& name.len() > 0
    &&& forall|i: int|
        0 <= i < name.len() ==> ('a' <= #[trigger] name[i] && name[i] <= 'z') || ('A' <= name[i]
            && name[i] <= 'Z')
}

/// All fields have plain names.
pub open spec fn have_plain_names(fields: Seq<(Seq<char>, Seq<char>)>) -> bool {
    forall|j: int| 0 <= j < fields.len() ==> is_plain_name((#[trigger] fields[j]).0)
}

proof fn lemma_other_tag(text: Seq<char>, at: int, other: Seq<char>, name: Seq<char>)
    requires
        is_plain_name(name),
        is_plain_name(other),
        other != name,
        0 <= at,
        at + other.len() + 2 <= text.len(),
        text[at] == '<',
        forall|i: int| 0 <= i < other.len() ==> #[trigger] text[at + 1 + i] == other[i],
        text[at + 1 + other.len()] == '>',
    ensures
        !occurs_at(text, seq!['<'] + name + seq!['>'], at),
{
    let open = seq!['<'] + name + seq!['>'];
    if occurs_at(text, open, at) {
        let here = text.subrange(at, at + open.len());
        assert(forall|i: int| 0 <= i < open.len() ==> text[at + i] == here[i]);
        assert(forall|i: int| 0 <= i < name.len() ==> open[1 + i] == name[i]);
        assert forall|i: int| 0 <= i < name.len() implies text[at + 1 + i] == name[i] by {
            assert(text[at + (1 + i)] == here[1 + i]);
        }
        if name.len() < other.len() {
            assert(text[at + 1 + name.len()] == other[name.len() as int]);
            assert(here[(1 + name.len()) as int] == '>');
        } else if name.len() > other.len() {
            assert(text[at + 1 + other.len()] == name[other.len() as int]);
        } else {
            assert forall|i: int| 0 <= i < name.len() implies name[i] == other[i] by {
                assert(text[at + 1 + i] == other[i]);
            }
            assert(name =~= other);
        }
    }
}

/// One line of a document.
spec fn element_line(name: Seq<char>, value: Seq<char>) -> Seq<char> {
    "  <"@ + name + ">"@ + escaped(value) + "</"@ + name + ">\n"@
}

proof fn lemma_line_has_no_other_tag(
    before: Seq<char>,
    other: Seq<char>,
    value: Seq<char>,
    after: Seq<char>,
    name: Seq<char>,
    at: int,
)
    requires
        is_plain_name(name),
        is_plain_name(other),
        other != name,
        before.len() <= at < before.len() + element_line(other, value).len(),
    ensures
        !occurs_at(
            before + element_line(other, value) + after,
            seq!['<'] + name + seq!['>'],
            at,
        ),
{
    reveal_strlit("  <");
    reveal_strlit(">");
    reveal_strlit("</");
    reveal_strlit(">\n");
    let line = element_line(other, value);
    let text = before + line + after;
    let open = seq!['<'] + name + seq!['>'];
    let n = other.len() as int;
    let e = escaped(value);
    let r = at - before.len();
    escaped_text_has_no_markup(value);
    assert(text[at] == line[r]);
    if occurs_at(text, open, at) {
        let here = text.subrange(at, at + open.len());
        assert(here[0] == '<' && here[1] == name[0]);
        assert(text[at] == here[0] && text[at + 1] == here[1]);
        if r == 2 {
            assert forall|i: int| 0 <= i < n implies #[trigger] text[at + 1 + i] == other[i] by {
                assert(line[3 + i] == other[i]);
            }
            assert(text[at + 1 + n] == line[3 + n]);
            lemma_other_tag(text, at, other, name);
        } else if r == 4 + n + e.len() {
            assert(text[at + 1] == line[r + 1]);
            assert(line[r + 1] == '/');
        } else if 3 <= r < 3 + n {
            assert(line[r] == other[r - 3]);
        } else if 4 + n <= r < 4 + n + e.len() {
            assert(line[r] == e[r - 4 - n]);
        } else if 6 + n + e.len() <= r < 6 + 2 * n + e.len() {
            assert(line[r] == other[r - 6 - n - e.len()]);
        }
    }
}

/// The first two lines of a document.
spec fn document_head() -> Seq<char> {
    "<?xml version=\"1.0\" encoding=\"UTF-8\"?>\n"@ + "<root status_code=\"200\">\n"@
}

proof fn lemma_head_has_no_tag(after: Seq<char>, name: Seq<char>, at: int)
    requires
        is_plain_name(name),
        0 <= at < document_head().len(),
    ensures
        !occurs_at(document_head() + after, seq!['<'] + name + seq!['>'], at),
{
    reveal_strlit("<?xml version=\"1.0\" encoding=\"UTF-8\"?>\n");
    reveal_strlit("<root status_code=\"200\">\n");
    let first = "<?xml version=\"1.0\" encoding=\"UTF-8\"?>\n"@;
    let second = "<root status_code=\"200\">\n"@;
    let head = document_head();
    let text = head + after;
    let open = seq!['<'] + name + seq!['>'];
    let m = first.len() as int;
    assert(text[at] == head[at]);
    if occurs_at(text, open, at) {
        let here = text.subrange(at, at + open.len());
        assert(here[0] == '<' && here[1] == name[0]);
        assert(text[at] == here[0] && text[at + 1] == here[1]);
        if at < m {
            assert(head[at] == first[at]);
            assert(at == 0);
            assert(text[1] == first[1]);
        } else {
            assert(head[at] == second[at - m]);
            assert(at == m);
            assert(forall|i: int| 0 <= i < open.len() ==> text[m + i] == here[i]);
            assert(forall|i: int| 0 <= i < name.len() ==> open[1 + i] == name[i]);
            if name.len() >= 5 {
                assert(text[m + 5] == here[5]);
                assert(here[5] == name[4]);
                assert(text[m + 5] == second[5]);
            } else {
                let k = name.len() as int;
                assert(here[1 + k] == '>');
                assert(text[m + (1 + k)] == here[1 + k]);
                assert(text[m + 1 + k] == second[1 + k]);
            }
        }
    }
}

proof fn lemma_no_tag_before(
    fields: Seq<(Seq<char>, Seq<char>)>,
    name: Seq<char>,
    after: Seq<char>,
    at: int,
)
    requires
        is_plain_name(name),
        have_plain_names(fields),
        forall|j: int| 0 <= j < fields.len() ==> (#[trigger] fields[j]).0 != name,
        0 <= at < document_head().len() + elements(fields).len(),
    ensures
        !occurs_at(
            document_head() + elements(fields) + after,
            seq!['<'] + name + seq!['>'],
            at,
        ),
    decreases fields.len(),
{
    let head = document_head();
    if fields.len() == 0 {
        assert(head + elements(fields) + after =~= head + after);
        lemma_head_has_no_tag(after, name, at);
    } else {
        let shorter = fields.drop_last();
        let (other, value) = fields.last();
        let line = element_line(other, value);
        assert(fields[fields.len() - 1].0 == other);
        assert(elements(fields) =~= elements(shorter) + line);
        let before = head + elements(shorter);
        if at < before.len() {
            assert forall|j: int| 0 <= j < shorter.len() implies is_plain_name(
                (#[trigger] shorter[j]).0,
            ) && shorter[j].0 != name by {
                assert(shorter[j] == fields[j]);
            }
            lemma_no_tag_before(shorter, name, line + after, at);
            assert(head + elements(fields) + after =~= head + elements(shorter) + (line + after));
        } else {
            lemma_line_has_no_other_tag(before, other, value, after, name, at);
            assert(head + elements(fields) + after =~= before + line + after);
        }
    }
}

proof fn lemma_elements_split(fields: Seq<(Seq<char>, Seq<char>)>, k: int)
    requires
        0 <= k < fields.len(),
    ensures
        exists|rest: Seq<char>|
            elements(fields) == elements(fields.take(k)) + element_line(fields[k].0, fields[k].1)
                + #[trigger] (rest + Seq::<char>::empty()),
    decreases fields.len(),
{
    let line = element_line(fields[k].0, fields[k].1);
    let shorter = fields.drop_last();
    let (name, value) = fields.last();
    let last = element_line(name, value);
    assert(elements(fields) =~= elements(shorter) + last);
    if k == fields.len() - 1 {
        assert(fields.take(k) =~= shorter);
        let rest = Seq::<char>::empty();
        assert(elements(fields) =~= elements(fields.take(k)) + line + (rest + Seq::<char>::empty()));
    } else {
        lemma_elements_split(shorter, k);
        assert(shorter.take(k) =~= fields.take(k));
        let rest = choose|rest: Seq<char>|
            elements(shorter) == elements(shorter.take(k)) + line + #[trigger] (rest + Seq::<
                char,
            >::empty());
        let longer = rest + last;
        assert(elements(fields) =~= elements(fields.take(k)) + line + (longer + Seq::<
            char,
        >::empty()));
    }
}

proof fn lemma_closing_tag(name: Seq<char>, value: Seq<char>, rest: Seq<char>)
    ensures
        ({
            let close = seq!['<', '/'] + name + seq!['>'];
            find(escaped(value) + close + rest, close) == Some(escaped(value).len() as int)
        }),
{
    let close = seq!['<', '/'] + name + seq!['>'];
    let e = escaped(value);
    let text = e + close + rest;
    let n = e.len() as int;
    escaped_text_has_no_markup(value);
    assert(text.subrange(n, n + close.len()) =~= close);
    assert(occurs_at(text, close, n));
    assert forall|i: int| 0 <= i < n implies !#[trigger] occurs_at(text, close, i) by {
        if occurs_at(text, close, i) {
            assert(text.subrange(i, i + close.len())[0] == '<');
            assert(text[i] == '<');
            assert(e[i] == text[i]);
        }
    }
    lemma_find_from(text, close, 0);
}

/// A reader that looks in a document for an element finds the value of the first field
/// with its name, whatever characters the values of the fields are made of.
pub proof fn readers_find_fields_by_name(fields: Seq<(Seq<char>, Seq<char>)>, k: int)
    requires
        have_plain_names(fields),
        0 <= k < fields.len(),
        forall|j: int| 0 <= j < k ==> (#[trigger] fields[j]).0 != fields[k].0,
    ensures
        element_text(document(fields), fields[k].0) == Some(fields[k].1),
{
    let (name, value) = fields[k];
    let open = seq!['<'] + name + seq!['>'];
    let close = seq!['<', '/'] + name + seq!['>'];
    let line = element_line(name, value);
    lemma_elements_split(fields, k);
    let rest = choose|rest: Seq<char>|
        elements(fields) == elements(fields.take(k)) + line + #[trigger] (rest + Seq::<
            char,
        >::empty());
    let before = document_head() + elements(fields.take(k));
    let after = rest + "</root>\n"@;
    let xml = document(fields);
    assert(xml =~= before + (line + after));
    assert(is_plain_name(fields[k].0));
    let tail = escaped(value) + close + ("\n"@ + after);
    lemma_line_shape(name, value, after);
    assert forall|i: int| 0 <= i < before.len() implies !#[trigger] occurs_at(xml, open, i) by {
        let shorter = fields.take(k);
        assert forall|j: int| 0 <= j < shorter.len() implies is_plain_name((#[trigger] shorter[j]).0)
            && shorter[j].0 != name by {
            assert(shorter[j] == fields[j]);
        }
        lemma_no_tag_before(shorter, name, line + after, i);
    }
    lemma_found(before, open, tail, xml);
    lemma_closing_tag(name, value, "\n"@ + after);
    assert(tail.take(escaped(value).len() as int) =~= escaped(value));
    escaping_round_trip(value);
}

proof fn lemma_line_shape(name: Seq<char>, value: Seq<char>, after: Seq<char>)
    ensures
        element_line(name, value) + after == seq![' ', ' '] + (seq!['<'] + name + seq!['>']) + (
        escaped(value) + (seq!['<', '/'] + name + seq!['>']) + ("\n"@ + after)),
{
    reveal_strlit("  <");
    reveal_strlit(">");
    reveal_strlit("</");
    reveal_strlit(">\n");
    reveal_strlit("\n");
    assert("  <"@ =~= seq![' ', ' '] + seq!['<']);
    assert(">"@ =~= seq!['>']);
    assert("</"@ =~= seq!['<', '/']);
    assert(">\n"@ =~= seq!['>'] + "\n"@);
    assert(element_line(name, value) + after =~= seq![' ', ' '] + (seq!['<'] + name + seq!['>']) + (
    escaped(value) + (seq!['<', '/'] + name + seq!['>']) + ("\n"@ + after)));
}

proof fn lemma_found(before: Seq<char>, open: Seq<char>, tail: Seq<char>, xml: Seq<char>)
    requires
        open.len() > 0,
        open[0] == '<',
        xml == before + (seq![' ', ' '] + open + tail),
        forall|i: int| 0 <= i < before.len() ==> !#[trigger] occurs_at(xml, open, i),
    ensures
        split_once(xml, open) matches Some((_, rest)) && rest == tail,
{
    let front = before + seq![' ', ' '];
    lemma_indented(before, open, tail);
    lemma_found_after(front, open, tail);
    assert forall|i: int| 0 <= i < front.len() implies !#[trigger] occurs_at(xml, open, i) by {
        if i >= before.len() {
            lemma_not_at_space(before, open, tail, i);
        }
    }
    lemma_find_from(xml, open, 0);
}

proof fn lemma_indented(before: Seq<char>, open: Seq<char>, tail: Seq<char>)
    ensures
        before + (seq![' ', ' '] + open + tail) == before + seq![' ', ' '] + open + tail,
{
    assert(before + (seq![' ', ' '] + open + tail) =~= before + seq![' ', ' '] + open + tail);
}

proof fn lemma_not_at_space(before: Seq<char>, open: Seq<char>, tail: Seq<char>, i: int)
    requires
        open.len() > 0,
        open[0] == '<',
        before.len() <= i < before.len() + 2,
    ensures
        !occurs_at(before + seq![' ', ' '] + open + tail, open, i),
{
    let s = before + seq![' ', ' '] + open + tail;
    assert(s[i] == ' ');
    if occurs_at(s, open, i) {
        assert(s.subrange(i, i + open.len())[0] == s[i]);
    }
}

proof fn lemma_found_after(front: Seq<char>, open: Seq<char>, tail: Seq<char>)
    ensures
        occurs_at(front + open + tail, open, front.len() as int),
        (front + open + tail).skip((front.len() + open.len()) as int) == tail,
{
    let s = front + open + tail;
    let p = front.len() as int;
    assert(s.subrange(p, p + open.len()) =~= open);
    assert(s.skip(p + open.len()) =~= tail);
}

/// The fields have the names of the description of a host, in order.
pub(crate) open spec fn are_serverinfo_fields(fields: Seq<(Seq<char>, Seq<char>)>) -> bool {
    &&& fields.len() == 16
    &&& fields[0].0 == "hostname"@
    &&& fields[1].0 == "uniqueid"@
    &&& fields[2].0 == "uuid"@
    &&& fields[3].0 == "LocalIP"@
    &&& fields[4].0 == "ExternalIP"@
    &&& fields[5].0 == "PairStatus"@
    &&& fields[6].0 == "currentgame"@
    &&& fields[7].0 == "state"@
    &&& fields[8].0 == "appversion"@
    &&& fields[9].0 == "GfeVersion"@
    &&& fields[10].0 == "serverCodecModeSupport"@
    &&& fields[11].0 == "supportedDisplayMode"@
    &&& fields[12].0 == "mac"@
    &&& fields[13].0 == "HTTPSPort"@
    &&& fields[14].0 == "HTTPPort"@
    &&& fields[15].0 == "RTSPPort"@
}

/// Under each name of the description of a host a reader finds the value of its field.
pub(crate) proof fn lemma_serverinfo_lookup(fields: Seq<(Seq<char>, Seq<char>)>)
    requires
        are_serverinfo_fields(fields),
    ensures
        element_text(document(fields), "hostname"@) == Some(fields[0].1),
        element_text(document(fields), "uniqueid"@) == Some(fields[1].1),
        element_text(document(fields), "uuid"@) == Some(fields[2].1),
        element_text(document(fields), "LocalIP"@) == Some(fields[3].1),
        element_text(document(fields), "ExternalIP"@) == Some(fields[4].1),
        element_text(document(fields), "PairStatus"@) == Some(fields[5].1),
        element_text(document(fields), "currentgame"@) == Some(fields[6].1),
        element_text(document(fields), "state"@) == Some(fields[7].1),
        element_text(document(fields), "appversion"@) == Some(fields[8].1),
        element_text(document(fields), "GfeVersion"@) == Some(fields[9].1),
        element_text(document(fields), "serverCodecModeSupport"@) == Some(fields[10].1),
        element_text(document(fields), "supportedDisplayMode"@) == Some(fields[11].1),
        element_text(document(fields), "mac"@) == Some(fields[12].1),
        element_text(document(fields), "HTTPSPort"@) == Some(fields[13].1),
        element_text(document(fields), "HTTPPort"@) == Some(fields[14].1),
        element_text(document(fields), "RTSPPort"@) == Some(fields[15].1),
{
    lemma_serverinfo_names(fields);
    assert forall|k: int| 0 <= k < 16 implies element_text(
        document(fields),
        (#[trigger] fields[k]).0,
    ) == Some(fields[k].1) by {
        readers_find_fields_by_name(fields, k);
    }
    assert(fields[0].0 == "hostname"@);
    assert(fields[1].0 == "uniqueid"@);
    assert(fields[2].0 == "uuid"@);
    assert(fields[3].0 == "LocalIP"@);
    assert(fields[4].0 == "ExternalIP"@);
    assert(fields[5].0 == "PairStatus"@);
    assert(fields[6].0 == "currentgame"@);
    assert(fields[7].0 == "state"@);
    assert(fields[8].0 == "appversion"@);
    assert(fields[9].0 == "GfeVersion"@);
    assert(fields[10].0 == "serverCodecModeSupport"@);
    assert(fields[11].0 == "supportedDisplayMode"@);
    assert(fields[12].0 == "mac"@);
    assert(fields[13].0 == "HTTPSPort"@);
    assert(fields[14].0 == "HTTPPort"@);
    assert(fields[15].0 == "RTSPPort"@);
}

proof fn lemma_serverinfo_names(fields: Seq<(Seq<char>, Seq<char>)>)
    requires
        are_serverinfo_fields(fields),
    ensures
        have_plain_names(fields),
        forall|j: int, k: int|
            0 <= j < k < fields.len() ==> (#[trigger] fields[j]).0 != (#[trigger] fields[k]).0,
{
    reveal_strlit("hostname");
    reveal_strlit("uniqueid");
    reveal_strlit("uuid");
    reveal_strlit("LocalIP");
    reveal_strlit("ExternalIP");
    reveal_strlit("PairStatus");
    reveal_strlit("currentgame");
    reveal_strlit("state");
    reveal_strlit("appversion");
    reveal_strlit("GfeVersion");
    reveal_strlit("serverCodecModeSupport");
    reveal_strlit("supportedDisplayMode");
    reveal_strlit("mac");
    reveal_strlit("HTTPSPort");
    reveal_strlit("HTTPPort");
    reveal_strlit("RTSPPort");
    assert(fields[0].0.len() == 8 && fields[0].0[0] == 'h');
    assert(fields[1].0.len() == 8 && fields[1].0[0] == 'u');
    assert(fields[2].0.len() == 4 && fields[2].0[0] == 'u');
    assert(fields[3].0.len() == 7 && fields[3].0[0] == 'L');
    assert(fields[4].0.len() == 10 && fields[4].0[0] == 'E');
    assert(fields[5].0.len() == 10 && fields[5].0[0] == 'P');
    assert(fields[6].0.len() == 11 && fields[6].0[0] == 'c');
    assert(fields[7].0.len() == 5 && fields[7].0[0] == 's');
    assert(fields[8].0.len() == 10 && fields[8].0[0] == 'a');
    assert(fields[9].0.len() == 10 && fields[9].0[0] == 'G');
    assert(fields[10].0.len() == 22 && fields[10].0[0] == 's');
    assert(fields[11].0.len() == 20 && fields[11].0[0] == 's');
    assert(fields[12].0.len() == 3 && fields[12].0[0] == 'm');
    assert(fields[13].0.len() == 9 && fields[13].0[0] == 'H');
    assert(fields[14].0.len() == 8 && fields[14].0[0] == 'H');
    assert(fields[15].0.len() == 8 && fields[15].0[0] == 'R');
    assert forall|j: int, k: int| 0 <= j < k < fields.len() implies (#[trigger] fields[j]).0 != (
    #[trigger] fields[k]).0 by {
        assert(fields[j].0.len() != fields[k].0.len() || fields[j].0[0] != fields[k].0[0]);
    }
}

/// A client that looks up an element in the description of a host finds under each name
/// what the name stands for.
pub proof fn serverinfo_is_read_by_name(info: &ServerInfo, xml: String)
    requires
        call_ensures(serverinfo_xml, (info,), xml),
    ensures
        element_text(xml@, "hostname"@) == Some(info.hostname@),
        element_text(xml@, "uniqueid"@) == Some(info.unique_id@),
        element_text(xml@, "uuid"@) == Some(info.uuid@),
        element_text(xml@, "LocalIP"@) == Some(info.local_ip@),
        element_text(xml@, "ExternalIP"@) == Some(info.external_ip@),
        element_number(xml@, "PairStatus"@) == Some(info.pair_status as nat),
        element_number(xml@, "currentgame"@) == Some(info.current_game as nat),
        element_text(xml@, "state"@) == Some(info.state@),
        element_text(xml@, "appversion"@) == Some(info.app_version@),
        element_text(xml@, "GfeVersion"@) == Some(info.gfe_version@),
        element_number(xml@, "serverCodecModeSupport"@) == Some(
            info.server_codec_mode_support as nat,
        ),
        element_text(xml@, "supportedDisplayMode"@) == Some(info.supported_display_mode@),
        element_text(xml@, "mac"@) == Some(info.mac@),
        element_number(xml@, "HTTPSPort"@) == Some(info.https_port as nat),
        element_number(xml@, "HTTPPort"@) == Some(info.http_port as nat),
        element_number(xml@, "RTSPPort"@) == Some(info.rtsp_port as nat),
{
    let fields = serverinfo_fields(*info);
    lemma_serverinfo_lookup(fields);
    let max = u32::MAX as nat;
    parse_unsigned_of_decimal(info.pair_status as nat, max);
    parse_unsigned_of_decimal(info.current_game as nat, max);
    parse_unsigned_of_decimal(info.server_codec_mode_support as nat, max);
    parse_unsigned_of_decimal(info.https_port as nat, max);
    parse_unsigned_of_decimal(info.http_port as nat, max);
    parse_unsigned_of_decimal(info.rtsp_port as nat, max);
}

/// Writing a text into an element replaces the five characters of markup by the
/// entities that XML has for them, and no other character.
pub proof fn entities_are_those_of_xml(a: &str, c: char, b: &str, x: String, y: String)
    requires
        call_ensures(escape_xml, (a,), x),
        call_ensures(escape_xml, (b,), y),
        b@ == a@.push(c),
    ensures
        c == '&' ==> y@ == x@ + "&amp;"@,
        c == '<' ==> y@ == x@ + "&lt;"@,
        c == '>' ==> y@ == x@ + "&gt;"@,
        c == '"' ==> y@ == x@ + "&quot;"@,
        c == '\'' ==> y@ == x@ + "&apos;"@,
        c != '&' && c != '<' && c != '>' && c != '"' && c != '\'' ==> y@ == x@.push(c),
{
    assert(b@.drop_last() =~= a@);
    if c != '&' && c != '<' && c != '>' && c != '"' && c != '\'' {
        assert(y@ =~= x@.push(c));
    }
}

/// The list of applications holds the desktop alone, as application number one.
pub proof fn the_desktop_is_the_only_application(xml: String)
    requires
        call_ensures(applist_xml, (), xml),
    ensures
        xml@ == join(
            seq![
                "<?xml version=\"1.0\" encoding=\"UTF-8\"?>"@,
                "<root protocol_version=\"0.1\" query=\"applist\" status_code=\"200\" status_message=\"OK\">"@,
                "  <App>"@,
                "    <AppInstallPath>C:\\\\Windows\\\\explorer.exe</AppInstallPath>"@,
                "    <ID>1</ID>"@,
                "    <AppTitle>Desktop</AppTitle>"@,
                "    <CmsId>0</CmsId>"@,
                "    <Distributor>Standalone</Distributor>"@,
                "    <IsAppCollectorGame>0</IsAppCollectorGame>"@,
                "    <IsHdrSupported>0</IsHdrSupported>"@,
                "    <MaxControllersForSingleSession>1</MaxControllersForSingleSession>"@,
                "    <ShortName>desktop</ShortName>"@,
                "    <SupportedSOPS>"@,
                "      <SOPS>"@,
                "        <Height>1080</Height>"@,
                "        <RefreshRate>60</RefreshRate>"@,
                "        <Width>1920</Width>"@,
                "      </SOPS>"@,
                "    </SupportedSOPS>"@,
                "    <UniqueId>1</UniqueId>"@,
                "    <simulateControllers>0</simulateControllers>"@,
                "  </App>"@,
                "</root>"@,
                ""@,
            ],
            "\n"@,
        ),
{
}

/// Every document reports success in its root element.
pub proof fn documents_report_success<'a>(name: &'a str, value: &'a str, xml: String)
    requires
        call_ensures(pair_xml::<1>, ([(name, value)],), xml),
        is_plain_name(name@),
    ensures
        starts_with(
            xml@,
            "<?xml version=\"1.0\" encoding=\"UTF-8\"?>\n"@ + "<root status_code=\"200\">\n"@,
        ),
        element_text(xml@, name@) == Some(value@),
{
    let fields = seq![(name@, value@)];
    assert(pair_views([(name, value)]@) =~= fields);
    assert(is_plain_name(fields[0].0));
    readers_find_fields_by_name(fields, 0);
    let head = document_head();
    assert(xml@.subrange(0, head.len() as int) =~= head);
}

} // verus!
