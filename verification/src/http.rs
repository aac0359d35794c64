//! The HTTP and HTTPS interface: requests, routes and responses.
use vstd::prelude::*;
use vstd::string::*;
use vstd::utf8::*;
use crate::config::SunriseConfig;
use crate::pairing::{secret_step, PairingModel, PairingState};
use crate::protocol::{
    applist_lines, applist_xml, document, element_number, element_text, lemma_serverinfo_lookup,
    pair_xml, readers_find_fields_by_name, serverinfo_fields, serverinfo_xml, ServerInfo,
};
use crate::text::{
    contains, contains_text, decimal, decimal_text, is_digit, is_one_line, join,
    lemma_body_after_head, lemma_decimal_digits, lemma_find_char, lemma_first_line,
    lemma_next_line, lemma_words_after_space, lemma_words_front, is_word,
    parse_unsigned_of_decimal, splitting_at_a_character_undoes_joining,
    pair_views, parse_number, parse_unsigned, same_text, split_on, split_once, split_text,
    split_text_once, text_of_bytes, texts, trim, trim_text, utf8_text_lossy, words, words_of,
};

verus! {

// ---------------------------------------------------------------------------
// Requests
// ---------------------------------------------------------------------------
/// What the first line of a request asks for.
#[derive(Debug, PartialEq, Eq)]
pub struct HttpRequest {
    pub method: String,
    pub path: String,
    pub query: String,
}

/// The part of `text` before its first line feed.
pub open spec fn first_line(text: Seq<char>) -> Seq<char> {
    match split_once(text, "\n"@) {
        Some((line, _)) => line,
        None => text,
    }
}

/// The word with the given number, or the empty text.
pub open spec fn word_or_empty(list: Seq<Seq<char>>, i: int) -> Seq<char> {
    if i < list.len() {
        list[i]
    } else {
        Seq::empty()
    }
}

/// The path of a target: what stands before the first question mark.
pub open spec fn path_of(target: Seq<char>) -> Seq<char> {
    match split_once(target, "?"@) {
        Some((path, _)) => path,
        None => target,
    }
}

/// The query of a target: what stands after the first question mark.
pub open spec fn query_of(target: Seq<char>) -> Seq<char> {
    match split_once(target, "?"@) {
        Some((_, query)) => query,
        None => Seq::empty(),
    }
}

/// The request is the one whose text is `text`: method and target are the first
/// two words of the first line.
pub open spec fn is_request(request: HttpRequest, text: Seq<char>) -> bool {
    let parts = words(first_line(text));
    &&& request.method@ == word_or_empty(parts, 0)
    &&& request.path@ == path_of(word_or_empty(parts, 1))
    &&& request.query@ == query_of(word_or_empty(parts, 1))
}

/// Path and query of a target.
pub fn split_path_query(target: &str) -> (parts: (String, String))
    ensures
        parts.0@ == path_of(target@),
        parts.1@ == query_of(target@),
{
    match split_text_once(target, "?") {
        Some((path, query)) => (path, query),
        None => {
            let none = String::new();
            assert(none@ =~= Seq::empty());
            (target.to_owned(), none)
        },
    }
}

/// Reads the first line of a request.
pub fn parse_request_text(text: &str) -> (request: HttpRequest)
    ensures
        is_request(request, text@),
{
    let line = match split_text_once(text, "\n") {
        Some((line, _)) => line,
        None => text.to_owned(),
    };
    let parts = words_of(line.as_str());
    assert(texts(parts@).len() == parts@.len());
    let method = if parts.len() > 0 {
        parts[0].as_str().to_owned()
    } else {
        String::new()
    };
    let target = if parts.len() > 1 {
        parts[1].as_str().to_owned()
    } else {
        String::new()
    };
    assert(method@ =~= word_or_empty(texts(parts@), 0));
    assert(target@ =~= word_or_empty(texts(parts@), 1));
    let (path, query) = split_path_query(target.as_str());
    HttpRequest { method, path, query }
}

/// Reads the first line of the bytes of a request.
pub fn parse_request(bytes: &[u8]) -> (request: HttpRequest)
    ensures
        is_request(request, text_of_bytes(bytes@)),
{
    let text = utf8_text_lossy(bytes);
    parse_request_text(text.as_str())
}

/// The value of the first `key=value` pair at or after pair `from` with the given
/// key.
pub open spec fn value_in(pairs: Seq<Seq<char>>, key: Seq<char>, from: int) -> Option<Seq<char>>
    decreases pairs.len() - from,
{
    if from < 0 || from >= pairs.len() {
        None
    } else {
        match split_once(pairs[from], "="@) {
            Some((name, value)) if name == key => Some(value),
            _ => value_in(pairs, key, from + 1),
        }
    }
}

/// The value that a query gives for `key`.
pub open spec fn value_of(query: Seq<char>, key: Seq<char>) -> Option<Seq<char>> {
    value_in(split_on(query, "&"@), key, 0)
}

/// The value that a query gives for `key`: that of the first pair with it.
pub fn query_value(query: &str, key: &str) -> (value: Option<String>)
    ensures
        match value {
            Some(v) => value_of(query@, key@) == Some(v@),
            None => value_of(query@, key@) is None,
        },
{
    proof {
        reveal_strlit("&");
    }
    let pairs = split_text(query, "&");
    let ghost all = split_on(query@, "&"@);
    let mut i: usize = 0;
    while i < pairs.len()
        invariant
            texts(pairs@) == all,
            i <= pairs@.len(),
            all == split_on(query@, "&"@),
            value_of(query@, key@) == value_in(all, key@, i as int),
        decreases pairs@.len() - i,
    {
        assert(pairs@[i as int]@ == all[i as int]);
        match split_text_once(pairs[i].as_str(), "=") {
            Some((name, value)) => {
                if same_text(name.as_str(), key) {
                    return Some(value);
                }
            },
            None => {},
        }
        i += 1;
    }
    assert(all.len() == pairs@.len());
    None
}

// ---------------------------------------------------------------------------
// Routes
// ---------------------------------------------------------------------------
/// What a request asks of the host.
#[derive(Clone, Copy, Debug, PartialEq, Eq, Structural)]
pub enum Route {
    ServerInfo,
    AppList,
    /// Launch an application, or go on with one.
    Launch,
    Cancel,
    PairChallenge,
    NotFound,
}

/// What a request asks of the host.
pub open spec fn route_of(method: Seq<char>, path: Seq<char>, query: Seq<char>) -> Route {
    if method != "GET"@ {
        Route::NotFound
    } else if path == "/serverinfo"@ {
        Route::ServerInfo
    } else if path == "/applist"@ {
        Route::AppList
    } else if path == "/launch"@ || path == "/resume"@ {
        Route::Launch
    } else if path == "/cancel"@ {
        Route::Cancel
    } else if path == "/pair"@ && contains(query, "phrase=pairchallenge"@) {
        Route::PairChallenge
    } else {
        Route::NotFound
    }
}

/// What a request asks of the host.
pub fn route(request: &HttpRequest) -> (route: Route)
    ensures
        route == route_of(request.method@, request.path@, request.query@),
{
    let path = request.path.as_str();
    if !same_text(request.method.as_str(), "GET") {
        Route::NotFound
    } else if same_text(path, "/serverinfo") {
        Route::ServerInfo
    } else if same_text(path, "/applist") {
        Route::AppList
    } else if same_text(path, "/launch") || same_text(path, "/resume") {
        Route::Launch
    } else if same_text(path, "/cancel") {
        Route::Cancel
    } else if same_text(path, "/pair") && contains_text(
        request.query.as_str(),
        "phrase=pairchallenge",
    ) {
        Route::PairChallenge
    } else {
        Route::NotFound
    }
}

/// The application that a launch names, the first one where it names none.
pub open spec fn app_id_of(query: Seq<char>) -> u32 {
    match value_of(query, "appid"@) {
        Some(value) => match parse_unsigned(value, u32::MAX as nat) {
            Some(n) => n as u32,
            None => 1,
        },
        None => 1,
    }
}

/// The application that a launch names.
pub fn launch_app_id(query: &str) -> (id: u32)
    ensures
        id == app_id_of(query@),
{
    match query_value(query, "appid") {
        Some(value) => match parse_number(value.as_str(), 0xffff_ffff) {
            Some(n) => n as u32,
            None => 1,
        },
        None => 1,
    }
}

/// The application that runs after a request: a launch starts one, a cancel ends
/// it, anything else leaves it alone.
pub open spec fn game_after(route: Route, query: Seq<char>, current: u32) -> u32 {
    match route {
        Route::Launch => app_id_of(query),
        Route::Cancel => 0,
        _ => current,
    }
}

/// The application that runs after a request.
pub fn current_game_after(route: Route, query: &str, current: u32) -> (game: u32)
    ensures
        game == game_after(route, query@, current),
{
    match route {
        Route::Launch => launch_app_id(query),
        Route::Cancel => 0,
        _ => current,
    }
}

/// A host as an address in a URL: an IPv6 address stands in brackets.
pub open spec fn url_host(host: Seq<char>, is_ipv6: bool) -> Seq<char> {
    if is_ipv6 {
        "["@ + host + "]"@
    } else {
        host
    }
}

/// A host as an address in a URL. `is_ipv6` tells whether it is an IPv6 address.
pub fn format_rtsp_host(host: &str, is_ipv6: bool) -> (out: String)
    ensures
        out@ == url_host(host@, is_ipv6),
{
    if is_ipv6 {
        let mut out = "[".to_owned();
        out.append(host);
        out.append("]");
        out
    } else {
        host.to_owned()
    }
}

/// The address of the RTSP session on a host.
pub open spec fn session_url(host: Seq<char>, is_ipv6: bool, port: u16) -> Seq<char> {
    "rtsp://"@ + url_host(host, is_ipv6) + ":"@ + decimal(port as nat)
}

/// The address of the RTSP session on a host.
pub fn rtsp_session_url(host: &str, is_ipv6: bool, rtsp_port: u16) -> (url: String)
    ensures
        url@ == session_url(host@, is_ipv6, rtsp_port),
{
    let mut url = "rtsp://".to_owned();
    let host = format_rtsp_host(host, is_ipv6);
    let port = decimal_text(rtsp_port as u64);
    url.append(host.as_str());
    url.append(":");
    url.append(port.as_str());
    url
}

// ---------------------------------------------------------------------------
// Responses
// ---------------------------------------------------------------------------
/// The fields of the description of the host for a client.
pub open spec fn serverinfo_fields_for(
    config: SunriseConfig,
    local_ip: Seq<char>,
    paired: bool,
    current_game: u32,
) -> Seq<(Seq<char>, Seq<char>)> {
    seq![
        ("hostname"@, config.host_name@),
        ("uniqueid"@, config.unique_id@),
        ("uuid"@, config.uuid@),
        ("LocalIP"@, local_ip),
        ("ExternalIP"@, local_ip),
        (
            "PairStatus"@,
            decimal(
                if paired {
                    1
                } else {
                    0
                },
            ),
        ),
        ("currentgame"@, decimal(current_game as nat)),
        (
            "state"@,
            if current_game != 0 {
                "SUNSHINE_SERVER_BUSY"@
            } else {
                "ONLINE"@
            },
        ),
        ("appversion"@, "7.1.431.-1"@),
        ("GfeVersion"@, "3.23.0.74"@),
        ("serverCodecModeSupport"@, decimal(257)),
        ("supportedDisplayMode"@, "1920x1080x60"@),
        ("mac"@, config.mac_address@),
        ("HTTPSPort"@, decimal(config.https_port as nat)),
        ("HTTPPort"@, decimal(config.http_port as nat)),
        ("RTSPPort"@, decimal(config.rtsp_port as nat)),
    ]
}

/// The description of the host for a client that has paired or has not.
pub fn render_serverinfo(
    config: &SunriseConfig,
    local_ip: &str,
    paired: bool,
    current_game: u32,
) -> (xml: String)
    ensures
        xml@ == document(serverinfo_fields_for(*config, local_ip@, paired, current_game)),
{
    let info = ServerInfo::from_config(config, local_ip, paired).with_current_game(current_game);
    assert(serverinfo_fields(info) =~= serverinfo_fields_for(
        *config,
        local_ip@,
        paired,
        current_game,
    ));
    serverinfo_xml(&info)
}

/// The body of the answer to a request that no route takes.
pub open spec fn not_found_body() -> Seq<char> {
    "<?xml version=\"1.0\" encoding=\"UTF-8\"?>\n<root status_code=\"404\" />\n"@
}

/// The status line of the answer on a route.
pub open spec fn status_of(route: Route) -> Seq<char> {
    if route is NotFound {
        "404 Not Found"@
    } else {
        "200 OK"@
    }
}

/// The status of the answer on a route.
pub fn route_status(route: Route) -> (status: &'static str)
    ensures
        status@ == status_of(route),
{
    match route {
        Route::NotFound => "404 Not Found",
        _ => "200 OK",
    }
}

/// The body of an answer.
#[derive(Debug, PartialEq, Eq)]
pub enum AnswerBody {
    /// A document that is complete.
    Document(String),
    /// The document that tells where a launched session is.
    Launched { rtsp_url: String },
    /// The document that tells that the session was cancelled.
    Cancelled,
}

/// An answer to a request.
#[derive(Debug, PartialEq, Eq)]
pub struct HttpsAnswer {
    pub status: &'static str,
    pub body: AnswerBody,
}

/// The client that a query names has paired.
pub open spec fn client_has_paired(pairing: PairingModel, query: Seq<char>) -> bool {
    match value_of(query, "uniqueid"@) {
        Some(unique_id) => pairing.paired.contains(unique_id),
        None => false,
    }
}

/// Answers a request of a client. `rtsp_host` is the address under which the
/// client reaches the RTSP server, and `current_game` the application that runs.
pub fn handle_https_request(
    request: &HttpRequest,
    config: &SunriseConfig,
    pairing: &PairingState,
    local_ip: &str,
    rtsp_host: &str,
    rtsp_host_is_ipv6: bool,
    current_game: &mut u32,
) -> (answer: HttpsAnswer)
    ensures
        ({
            let taken = route_of(request.method@, request.path@, request.query@);
            &&& answer.status@ == status_of(taken)
            &&& *final(current_game) == game_after(taken, request.query@, *old(current_game))
            &&& match taken {
                Route::ServerInfo => answer.body matches AnswerBody::Document(text) && text@
                    == document(
                    serverinfo_fields_for(
                        *config,
                        local_ip@,
                        client_has_paired(pairing@, request.query@),
                        *old(current_game),
                    ),
                ),
                Route::AppList => answer.body matches AnswerBody::Document(text) && text@ == join(
                    applist_lines(),
                    "\n"@,
                ),
                Route::Launch => answer.body matches AnswerBody::Launched { rtsp_url } && rtsp_url@
                    == session_url(rtsp_host@, rtsp_host_is_ipv6, config.rtsp_port),
                Route::Cancel => answer.body is Cancelled,
                Route::PairChallenge => answer.body matches AnswerBody::Document(text) && text@
                    == document(seq![("paired"@, "1"@)]),
                Route::NotFound => answer.body matches AnswerBody::Document(text) && text@
                    == not_found_body(),
            }
        }),
{
    let taken = route(request);
    let query = request.query.as_str();
    let running: u32 = *current_game;
    *current_game = current_game_after(taken, query, running);
    let body = match taken {
        Route::ServerInfo => {
            let paired = match query_value(query, "uniqueid") {
                Some(unique_id) => pairing.is_paired(unique_id.as_str()),
                None => false,
            };
            AnswerBody::Document(render_serverinfo(config, local_ip, paired, running))
        },
        Route::AppList => AnswerBody::Document(applist_xml()),
        Route::Launch => AnswerBody::Launched {
            rtsp_url: rtsp_session_url(rtsp_host, rtsp_host_is_ipv6, config.rtsp_port),
        },
        Route::Cancel => AnswerBody::Cancelled,
        Route::PairChallenge => {
            let fields: [(&str, &str); 1] = [("paired", "1")];
            assert(pair_views(fields@) =~= seq![("paired"@, "1"@)]);
            AnswerBody::Document(pair_xml(fields))
        },
        Route::NotFound => AnswerBody::Document(
            "<?xml version=\"1.0\" encoding=\"UTF-8\"?>\n<root status_code=\"404\" />\n".to_owned(),
        ),
    };
    HttpsAnswer { status: route_status(taken), body }
}

/// A response: its status, its headers with the length of the body in bytes, and
/// the body.
pub open spec fn response_text(status: Seq<char>, body: Seq<char>) -> Seq<char> {
    "HTTP/1.1 "@ + status
        + "\r\nContent-Type: application/xml; charset=utf-8\r\nContent-Length: "@ + decimal(
        encode_utf8(body).len(),
    ) + "\r\nConnection: close\r\n\r\n"@ + body
}

/// A response.
pub fn http_response(status: &str, body: &str) -> (out: String)
    ensures
        out@ == response_text(status@, body@),
{
    let mut out = "HTTP/1.1 ".to_owned();
    let size: usize = body.as_bytes().len();
    let length = decimal_text(size as u64);
    out.append(status);
    out.append("\r\nContent-Type: application/xml; charset=utf-8\r\nContent-Length: ");
    out.append(length.as_str());
    out.append("\r\nConnection: close\r\n\r\n");
    out.append(body);
    out
}

/// A client that reads a response up to the first blank line finds the body, all
/// of it and nothing else, after it.
pub proof fn responses_are_framed(status: Seq<char>, body: Seq<char>)
    requires
        is_one_line(status),
    ensures
        split_once(response_text(status, body), "\r\n\r\n"@) matches Some((_, rest)) && rest == body,
{
    reveal_strlit("HTTP/1.1 ");
    reveal_strlit("\r\n");
    reveal_strlit("\r\nContent-Type: application/xml; charset=utf-8\r\nContent-Length: ");
    reveal_strlit("\r\nConnection: close\r\n\r\n");
    let middle = "\r\nContent-Type: application/xml; charset=utf-8\r\nContent-Length: "@;
    let closing = "\r\nConnection: close\r\n\r\n"@;
    let digits = decimal(encode_utf8(body).len());
    lemma_decimal_digits(encode_utf8(body).len());
    let first = "HTTP/1.1 "@ + status;
    let second = middle.subrange(2, 46);
    let third = middle.skip(48) + digits;
    let fourth = closing.subrange(2, closing.len() - 4);
    assert forall|i: int| 0 <= i < first.len() implies #[trigger] first[i] != '\n' by {
        if i >= 9 {
            assert(first[i] == status[i - 9]);
        }
    }
    assert forall|i: int| 0 <= i < third.len() implies #[trigger] third[i] != '\n' by {
        if i >= 16 {
            assert(third[i] == digits[i - 16]);
            assert(is_digit(digits[i - 16]));
        }
    }
    let one = first + "\r\n"@;
    let two = one + second + "\r\n"@;
    let three = two + third + "\r\n"@;
    let four = three + fourth + "\r\n"@;
    lemma_first_line(first);
    lemma_next_line(one, second);
    lemma_next_line(two, third);
    lemma_next_line(three, fourth);
    lemma_body_after_head(four, body);
    assert(response_text(status, body) =~= four + "\r\n"@ + body);
}

/// Only `GET` requests reach a route.
pub proof fn other_methods_are_not_found(method: Seq<char>, path: Seq<char>, query: Seq<char>)
    requires
        method != "GET"@,
    ensures
        route_of(method, path, query) is NotFound,
        status_of(route_of(method, path, query)) == "404 Not Found"@,
{
}

/// A host that launched an application with a number other than zero says that
/// it is busy with it until the application is cancelled; then it is online.
pub proof fn launch_makes_busy_until_cancel(
    config: SunriseConfig,
    local_ip: Seq<char>,
    paired: bool,
    query: Seq<char>,
    cancel_query: Seq<char>,
    before: u32,
)
    requires
        app_id_of(query) != 0,
    ensures
        ({
            let launched = game_after(Route::Launch, query, before);
            let fields = serverinfo_fields_for(config, local_ip, paired, launched);
            &&& fields[6] == ("currentgame"@, decimal(app_id_of(query) as nat))
            &&& fields[7] == ("state"@, "SUNSHINE_SERVER_BUSY"@)
            &&& game_after(Route::ServerInfo, query, launched) == launched
        }),
        ({
            let launched = game_after(Route::Launch, query, before);
            let cancelled = game_after(Route::Cancel, cancel_query, launched);
            let fields = serverinfo_fields_for(config, local_ip, paired, cancelled);
            &&& fields[6] == ("currentgame"@, decimal(0))
            &&& fields[7] == ("state"@, "ONLINE"@)
        }),
{
}

/// A client that has paired is told so, and one that has been forgotten is told
/// that it has not paired.
pub proof fn pair_status_follows_pairing(
    state: PairingModel,
    clients: Seq<(Seq<char>, Seq<char>)>,
    unique_id: Seq<char>,
    secret_query: Map<Seq<char>, Seq<char>>,
    query: Seq<char>,
    config: SunriseConfig,
    local_ip: Seq<char>,
    current_game: u32,
)
    requires
        value_of(query, "uniqueid"@) == Some(unique_id),
    ensures
        ({
            let (after, _, reply) = secret_step(state, clients, unique_id, secret_query);
            reply is Ok ==> serverinfo_fields_for(
                config,
                local_ip,
                client_has_paired(after, query),
                current_game,
            )[5] == ("PairStatus"@, decimal(1))
        }),
        ({
            let after = PairingModel {
                paired: state.paired.remove(unique_id),
                ..state.without_session(unique_id)
            };
            serverinfo_fields_for(
                config,
                local_ip,
                client_has_paired(after, query),
                current_game,
            )[5] == ("PairStatus"@, decimal(0))
        }),
{
}

// ---------------------------------------------------------------------------
// Addresses
// ---------------------------------------------------------------------------
/// The address to listen on.
#[derive(Debug, PartialEq, Eq)]
pub enum BindIp {
    /// All interfaces.
    Unspecified,
    /// The address that the text writes.
    Text(String),
}

/// Why there is no address to listen on.
#[derive(Clone, Copy, Debug, PartialEq, Eq, Structural)]
pub enum BindIpError {
    /// The setting is there but blank.
    Empty,
}

/// The address that a setting asks to listen on: all interfaces where there is
/// none, else what it writes, trimmed.
pub fn parse_bind_ip(value: Option<&str>) -> (bind: Result<BindIp, BindIpError>)
    ensures
        match value {
            None => bind matches Ok(BindIp::Unspecified),
            Some(v) => if trim(v@).len() == 0 {
                bind matches Err(BindIpError::Empty)
            } else {
                bind matches Ok(BindIp::Text(t)) && t@ == trim(v@)
            },
        },
{
    match value {
        None => Ok(BindIp::Unspecified),
        Some(v) => {
            let trimmed = trim_text(v);
            if trimmed.as_str().is_empty() {
                Err(BindIpError::Empty)
            } else {
                Ok(BindIp::Text(trimmed))
            }
        },
    }
}

/// The address that the host tells its clients: the one it listens on, or, where
/// that is all interfaces, the one that was found out, or the loopback address.
pub fn advertised_local_ip(bind_is_unspecified: bool, bind_ip: &str, detected: Option<&str>) -> (ip:
    String)
    ensures
        ip@ == if !bind_is_unspecified {
            bind_ip@
        } else {
            match detected {
                Some(found) => found@,
                None => "127.0.0.1"@,
            }
        },
{
    if !bind_is_unspecified {
        bind_ip.to_owned()
    } else {
        match detected {
            Some(found) => found.to_owned(),
            None => "127.0.0.1".to_owned(),
        }
    }
}

// ---------------------------------------------------------------------------
// What a client sees
// ---------------------------------------------------------------------------
/// A client that asks for `/serverinfo` finds in the answer, under the name of each
/// element, what the host is set to and does: its names, ports and addresses, whether
/// the client has paired, and the application that runs.
pub proof fn serverinfo_answers_describe_the_host(
    request: &HttpRequest,
    config: &SunriseConfig,
    pairing: &PairingState,
    local_ip: &str,
    rtsp_host: &str,
    rtsp_host_is_ipv6: bool,
    current_game: &mut u32,
    answer: HttpsAnswer,
)
    requires
        call_ensures(
            handle_https_request,
            (
                request,
                config,
                pairing,
                local_ip,
                rtsp_host,
                rtsp_host_is_ipv6,
                current_game,
            ),
            answer,
        ),
        request.method@ == "GET"@,
        request.path@ == "/serverinfo"@,
    ensures
        answer.status@ == "200 OK"@,
        *final(current_game) == *old(current_game),
        answer.body matches AnswerBody::Document(text) && {
            let xml = text@;
            &&& element_text(xml, "hostname"@) == Some(config.host_name@)
            &&& element_text(xml, "uniqueid"@) == Some(config.unique_id@)
            &&& element_text(xml, "uuid"@) == Some(config.uuid@)
            &&& element_text(xml, "LocalIP"@) == Some(local_ip@)
            &&& element_text(xml, "ExternalIP"@) == Some(local_ip@)
            &&& element_number(xml, "PairStatus"@) == Some(
                match value_of(request.query@, "uniqueid"@) {
                    Some(id) => if pairing@.paired.contains(id) {
                        1nat
                    } else {
                        0nat
                    },
                    None => 0nat,
                },
            )
            &&& element_number(xml, "currentgame"@) == Some(*old(current_game) as nat)
            &&& element_text(xml, "state"@) == Some(
                if *old(current_game) == 0 {
                    "ONLINE"@
                } else {
                    "SUNSHINE_SERVER_BUSY"@
                },
            )
            &&& element_text(xml, "appversion"@) == Some("7.1.431.-1"@)
            &&& element_text(xml, "GfeVersion"@) == Some("3.23.0.74"@)
            &&& element_number(xml, "serverCodecModeSupport"@) == Some(257nat)
            &&& element_text(xml, "supportedDisplayMode"@) == Some("1920x1080x60"@)
            &&& element_text(xml, "mac"@) == Some(config.mac_address@)
            &&& element_number(xml, "HTTPSPort"@) == Some(config.https_port as nat)
            &&& element_number(xml, "HTTPPort"@) == Some(config.http_port as nat)
            &&& element_number(xml, "RTSPPort"@) == Some(config.rtsp_port as nat)
        },
{
    lemma_paths_differ();
    let paired = client_has_paired(pairing@, request.query@);
    let game = *old(current_game);
    let fields = serverinfo_fields_for(*config, local_ip@, paired, game);
    lemma_serverinfo_lookup(fields);
    let max = u32::MAX as nat;
    parse_unsigned_of_decimal(0, max);
    parse_unsigned_of_decimal(1, max);
    parse_unsigned_of_decimal(257, max);
    parse_unsigned_of_decimal(game as nat, max);
    parse_unsigned_of_decimal(config.https_port as nat, max);
    parse_unsigned_of_decimal(config.http_port as nat, max);
    parse_unsigned_of_decimal(config.rtsp_port as nat, max);
}

proof fn lemma_paths_differ()
    ensures
        "/serverinfo"@ != "/applist"@,
        "/serverinfo"@ != "/launch"@,
        "/serverinfo"@ != "/resume"@,
        "/serverinfo"@ != "/cancel"@,
        "/serverinfo"@ != "/pair"@,
        "/applist"@ != "/launch"@,
        "/applist"@ != "/resume"@,
        "/applist"@ != "/cancel"@,
        "/applist"@ != "/pair"@,
        "/launch"@ != "/cancel"@,
        "/launch"@ != "/pair"@,
        "/resume"@ != "/cancel"@,
        "/resume"@ != "/pair"@,
        "/cancel"@ != "/pair"@,
{
    reveal_strlit("/serverinfo");
    reveal_strlit("/applist");
    reveal_strlit("/launch");
    reveal_strlit("/resume");
    reveal_strlit("/cancel");
    reveal_strlit("/pair");
    assert("/serverinfo"@.len() == 11 && "/applist"@.len() == 8 && "/pair"@.len() == 5);
    assert("/launch"@[1] == 'l' && "/resume"@[1] == 'r' && "/cancel"@[1] == 'c');
}

/// What the other paths of the host do: launching and resuming tell where the RTSP
/// session is and make the named application, or else the first one, the running one;
/// cancelling ends it; the pairing challenge is answered with success; all else, and
/// every request that is no `GET`, is not found and changes nothing.
pub proof fn paths_lead_to_their_answers(
    request: &HttpRequest,
    config: &SunriseConfig,
    pairing: &PairingState,
    local_ip: &str,
    rtsp_host: &str,
    rtsp_host_is_ipv6: bool,
    current_game: &mut u32,
    answer: HttpsAnswer,
)
    requires
        call_ensures(
            handle_https_request,
            (
                request,
                config,
                pairing,
                local_ip,
                rtsp_host,
                rtsp_host_is_ipv6,
                current_game,
            ),
            answer,
        ),
        request.path@ != "/serverinfo"@ || request.method@ != "GET"@,
    ensures
        request.method@ == "GET"@ && (request.path@ == "/launch"@ || request.path@ == "/resume"@)
            ==> {
            &&& answer.status@ == "200 OK"@
            &&& answer.body matches AnswerBody::Launched { rtsp_url } && rtsp_url@ == if rtsp_host_is_ipv6 {
                "rtsp://"@ + "["@ + rtsp_host@ + "]"@ + ":"@ + decimal(config.rtsp_port as nat)
            } else {
                "rtsp://"@ + rtsp_host@ + ":"@ + decimal(config.rtsp_port as nat)
            }
            &&& *final(current_game) == match value_of(request.query@, "appid"@) {
                Some(text) => match parse_unsigned(text, 0xffff_ffff) {
                    Some(n) => n,
                    None => 1,
                },
                None => 1,
            }
        },
        request.method@ == "GET"@ && request.path@ == "/cancel"@ ==> {
            &&& answer.status@ == "200 OK"@
            &&& answer.body is Cancelled
            &&& *final(current_game) == 0
        },
        request.method@ == "GET"@ && request.path@ == "/applist"@ ==> {
            &&& answer.status@ == "200 OK"@
            &&& answer.body is Document
            &&& *final(current_game) == *old(current_game)
        },
        request.method@ == "GET"@ && request.path@ == "/pair"@ && contains(
            request.query@,
            "phrase=pairchallenge"@,
        ) ==> {
            &&& answer.status@ == "200 OK"@
            &&& answer.body matches AnswerBody::Document(text) && element_text(text@, "paired"@)
                == Some("1"@)
            &&& *final(current_game) == *old(current_game)
        },
        ({
            let known = request.path@ == "/launch"@ || request.path@ == "/resume"@ || request.path@
                == "/cancel"@ || request.path@ == "/applist"@ || request.path@ == "/pair"@
                && contains(request.query@, "phrase=pairchallenge"@);
            request.method@ != "GET"@ || !known
        }) ==> {
            &&& answer.status@ == "404 Not Found"@
            &&& answer.body matches AnswerBody::Document(text) && text@
                == "<?xml version=\"1.0\" encoding=\"UTF-8\"?>\n<root status_code=\"404\" />\n"@
            &&& *final(current_game) == *old(current_game)
        },
{
    lemma_paths_differ();
    if rtsp_host_is_ipv6 {
        assert("rtsp://"@ + ("["@ + rtsp_host@ + "]"@) + ":"@ + decimal(config.rtsp_port as nat)
            =~= "rtsp://"@ + "["@ + rtsp_host@ + "]"@ + ":"@ + decimal(config.rtsp_port as nat));
    }
    reveal_strlit("paired");
    readers_find_fields_by_name(seq![("paired"@, "1"@)], 0);
}

/// A host that has been asked to launch an application tells the next client that it is
/// busy with it; after a cancel it tells that it is free again.
pub proof fn launched_applications_are_told(
    launch: &HttpRequest,
    ask: &HttpRequest,
    config: &SunriseConfig,
    pairing: &PairingState,
    local_ip: &str,
    rtsp_host: &str,
    rtsp_host_is_ipv6: bool,
    before: &mut u32,
    after: &mut u32,
    launched: HttpsAnswer,
    told: HttpsAnswer,
)
    requires
        call_ensures(
            handle_https_request,
            (launch, config, pairing, local_ip, rtsp_host, rtsp_host_is_ipv6, before),
            launched,
        ),
        call_ensures(
            handle_https_request,
            (ask, config, pairing, local_ip, rtsp_host, rtsp_host_is_ipv6, after),
            told,
        ),
        *old(after) == *final(before),
        launch.method@ == "GET"@,
        ask.method@ == "GET"@,
        ask.path@ == "/serverinfo"@,
    ensures
        launch.path@ == "/launch"@ && value_of(launch.query@, "appid"@) is None ==> {
            &&& told.body matches AnswerBody::Document(text)
            &&& element_number(text@, "currentgame"@) == Some(1nat)
            &&& element_text(text@, "state"@) == Some("SUNSHINE_SERVER_BUSY"@)
        },
        launch.path@ == "/cancel"@ ==> {
            &&& told.body matches AnswerBody::Document(text)
            &&& element_number(text@, "currentgame"@) == Some(0nat)
            &&& element_text(text@, "state"@) == Some("ONLINE"@)
        },
{
    lemma_paths_differ();
    serverinfo_answers_describe_the_host(
        ask,
        config,
        pairing,
        local_ip,
        rtsp_host,
        rtsp_host_is_ipv6,
        after,
        told,
    );
}

/// A response tells its status in its first line, the length of its body in bytes and
/// that the connection is closed, and then holds the body.
pub proof fn responses_tell_status_and_length(status: &str, body: &str, out: String)
    requires
        call_ensures(http_response, (status, body), out),
    ensures
        out@ == "HTTP/1.1 "@ + status@
            + "\r\nContent-Type: application/xml; charset=utf-8\r\nContent-Length: "@ + decimal(
            encode_utf8(body@).len(),
        ) + "\r\nConnection: close\r\n\r\n"@ + body@,
{
}

/// A request line gives back the method, the path and the query that it was written
/// with.
pub proof fn request_lines_are_read_back(
    method: Seq<char>,
    path: Seq<char>,
    query: Seq<char>,
    version: Seq<char>,
    headers: Seq<char>,
    text: &str,
    request: HttpRequest,
)
    requires
        call_ensures(parse_request_text, (text,), request),
        is_word(method),
        is_word(version),
        is_word(path + seq!['?'] + query),
        !path.contains('?'),
        !method.contains('\n') && !version.contains('\n') && !path.contains('\n')
            && !query.contains('\n'),
        text@ == method + seq![' '] + path + seq!['?'] + query + seq![' '] + version + seq!['\n']
            + headers,
    ensures
        request.method@ == method,
        request.path@ == path,
        request.query@ == query,
{
    reveal_strlit("\n");
    reveal_strlit("?");
    assert("\n"@ =~= seq!['\n']);
    assert("?"@ =~= seq!['?']);
    let target = path + seq!['?'] + query;
    let line = method + (seq![' '] + (target + (seq![' '] + version)));
    assert(text@ =~= line + seq!['\n'] + headers);
    assert(!line.contains('\n')) by {
        if line.contains('\n') {
            let i = choose|i: int| 0 <= i < line.len() && line[i] == '\n';
            let a = method.len() as int;
            let b = path.len() as int;
            let c = query.len() as int;
            if i < a {
                assert(method[i] == '\n');
            } else if a + 1 <= i < a + 1 + b {
                assert(path[i - a - 1] == '\n');
            } else if a + b + 2 <= i < a + b + 2 + c {
                assert(query[i - a - b - 2] == '\n');
            } else if a + b + c + 3 <= i {
                assert(version[i - a - b - c - 3] == '\n');
            }
        }
    }
    lemma_find_char(line, '\n', headers);
    lemma_words_front(method, seq![' '] + (target + (seq![' '] + version)));
    lemma_words_after_space(target + (seq![' '] + version));
    lemma_words_front(target, seq![' '] + version);
    lemma_words_after_space(version);
    assert(words(line) == seq![method] + (seq![target] + words(version)));
    assert(words(line)[0] == method && words(line)[1] == target);
    lemma_find_char(path, '?', query);
}

/// `key=value`.
pub open spec fn pair_text(pair: (Seq<char>, Seq<char>)) -> Seq<char> {
    pair.0 + seq!['='] + pair.1
}

proof fn lemma_value_in(
    pairs: Seq<(Seq<char>, Seq<char>)>,
    texts: Seq<Seq<char>>,
    key: Seq<char>,
    from: int,
    k: int,
)
    requires
        texts.len() == pairs.len(),
        0 <= from <= k < pairs.len(),
        forall|i: int| 0 <= i < pairs.len() ==> #[trigger] texts[i] == pair_text(pairs[i]),
        forall|i: int| 0 <= i < pairs.len() ==> !(#[trigger] pairs[i]).0.contains('='),
        pairs[k].0 == key,
        forall|i: int| 0 <= i < k ==> (#[trigger] pairs[i]).0 != key,
    ensures
        value_in(texts, key, from) == Some(pairs[k].1),
    decreases k - from,
{
    reveal_strlit("=");
    assert("="@ =~= seq!['=']);
    assert(!pairs[from].0.contains('='));
    assert(texts[from] == pair_text(pairs[from]));
    lemma_find_char(pairs[from].0, '=', pairs[from].1);
    if from < k {
        assert(pairs[from].0 != key);
        lemma_value_in(pairs, texts, key, from + 1, k);
    }
}

/// A query gives for a key the value of the first pair that was written with it.
pub proof fn query_values_are_read_back(
    pairs: Seq<(Seq<char>, Seq<char>)>,
    k: int,
    query: &str,
    key: &str,
    value: Option<String>,
)
    requires
        call_ensures(query_value, (query, key), value),
        query@ == join(pairs.map_values(|p: (Seq<char>, Seq<char>)| pair_text(p)), seq!['&']),
        forall|i: int|
            0 <= i < pairs.len() ==> !(#[trigger] pairs[i]).0.contains('=') && !pairs[i].0.contains(
                '&',
            ) && !pairs[i].1.contains('&'),
        0 <= k < pairs.len(),
        pairs[k].0 == key@,
        forall|i: int| 0 <= i < k ==> (#[trigger] pairs[i]).0 != key@,
    ensures
        value matches Some(v) && v@ == pairs[k].1,
{
    reveal_strlit("&");
    assert("&"@ =~= seq!['&']);
    let texts = pairs.map_values(|p: (Seq<char>, Seq<char>)| pair_text(p));
    assert forall|i: int| 0 <= i < texts.len() implies !(#[trigger] texts[i]).contains('&') by {
        let t = texts[i];
        assert(!pairs[i].0.contains('&') && !pairs[i].1.contains('&'));
        if t.contains('&') {
            let j = choose|j: int| 0 <= j < t.len() && t[j] == '&';
            let n = pairs[i].0.len() as int;
            if j < n {
                assert(pairs[i].0[j] == '&');
            } else if j > n {
                assert(pairs[i].1[j - n - 1] == '&');
            }
        }
    }
    splitting_at_a_character_undoes_joining(texts, '&');
    lemma_value_in(pairs, texts, key@, 0, k);
}

/// The host listens on all interfaces unless a setting names an address; a blank setting
/// is refused, and white space around an address does not count.
pub proof fn addresses_to_listen_on(
    value: Option<&str>,
    bind: Result<BindIp, BindIpError>,
    everywhere: bool,
    bound: &str,
    detected: Option<&str>,
    told: String,
)
    requires
        call_ensures(parse_bind_ip, (value,), bind),
        call_ensures(advertised_local_ip, (everywhere, bound, detected), told),
    ensures
        value is None <==> bind matches Ok(BindIp::Unspecified),
        value is Some && trim(value->0@).len() == 0 <==> bind is Err,
        bind matches Ok(BindIp::Text(t)) ==> value is Some && t@ == trim(value->0@),
        !everywhere ==> told@ == bound@,
        everywhere && detected is Some ==> told@ == detected->0@,
        everywhere && detected is None ==> told@ == "127.0.0.1"@,
{
}

/// The bytes of a request are read as the text that they encode.
pub proof fn requests_are_read_as_text(
    bytes: &[u8],
    request: HttpRequest,
    text: &str,
    same: HttpRequest,
)
    requires
        call_ensures(parse_request, (bytes,), request),
        valid_utf8(bytes@),
        text@ == decode_utf8(bytes@),
        call_ensures(parse_request_text, (text,), same),
    ensures
        request.method@ == same.method@,
        request.path@ == same.path@,
        request.query@ == same.query@,
{
}

/// A launch names its application by the number in `appid`; without one, or with one
/// that is no number, it is the first application.
pub proof fn launches_name_an_application(n: u32, query: &str, id: u32)
    requires
        call_ensures(launch_app_id, (query,), id),
    ensures
        value_of(query@, "appid"@) is None ==> id == 1,
        value_of(query@, "appid"@) == Some(decimal(n as nat)) ==> id == n,
{
    parse_unsigned_of_decimal(n as nat, u32::MAX as nat);
}

} // verus!
