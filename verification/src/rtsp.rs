//! RTSP requests and responses.
use vstd::prelude::*;
use vstd::hash_map::*;
use vstd::string::*;
use vstd::utf8::*;
use crate::bytes::append_bytes;
use crate::text::{
    all_digits, contains, contains_text, decimal, decimal_text, find, find_from, is_digit, is_head,
    is_one_line, is_word, join, join_texts, lemma_body_after_head, lemma_decimal_digits,
    lemma_find_char, lemma_find_from, lemma_first_line, lemma_next_line, lemma_words_after_space,
    lemma_words_front, lower, lower_char, lower_text, occurs_at, pair_views,
    parse_number, parse_unsigned, parse_unsigned_of_decimal, same_text, same_text_ignoring_case,
    split_on, split_once, split_text, split_text_once, splitting_undoes_joining, starts_with,
    starts_with_text, text_of_bytes, texts, trim, trim_end, trim_start, trim_text, utf8_text, utf8_text_lossy,
    words, words_of,
};

verus! {

pub const SESSION_ID: &'static str = "DEADBEEFCAFE";

/// A request that has grown beyond this many bytes is given up.
pub const MAX_RTSP_REQUEST_BYTES: usize = 1024 * 1024;

pub const VIDEO_PORT: u16 = 47998;

pub const AUDIO_PORT: u16 = 48000;

pub const CONTROL_PORT: u16 = 47999;

/// Why a request cannot be taken.
#[derive(Clone, Copy, Debug, PartialEq, Eq, Structural)]
pub enum RtspError {
    /// The blank line after the headers is missing.
    HeadersIncomplete,
    /// The headers are not UTF-8.
    HeadersNotUtf8,
    /// The first `Content-Length` header holds no number.
    InvalidContentLength,
    /// The declared length of the request does not fit a `usize`.
    LengthOverflow,
    /// There are fewer bytes than `Content-Length` declares.
    PayloadTooShort,
    MissingMethod,
    MissingTarget,
    MissingProtocol,
    UnsupportedProtocol,
    /// More bytes have come than a request may have.
    RequestTooLarge,
    /// The peer closed the connection in the middle of a request.
    ClosedWithIncompleteRequest,
}

// ---------------------------------------------------------------------------
// Requests
// ---------------------------------------------------------------------------
/// A blank line, as bytes.
pub open spec fn blank_line() -> Seq<u8> {
    seq![13u8, 10u8, 13u8, 10u8]
}

/// Where the headers end: the first blank line.
pub open spec fn header_end(raw: Seq<u8>) -> Option<int> {
    find(raw, blank_line())
}

/// Where the headers end.
pub fn find_header_end(buffer: &[u8]) -> (end: Option<usize>)
    ensures
        match end {
            Some(i) => header_end(buffer@) == Some(i as int),
            None => header_end(buffer@) is None,
        },
{
    let total: usize = buffer.len();
    let mut i: usize = 0;
    while total >= 4 && i <= total - 4
        invariant
            total == buffer@.len(),
            i <= total,
            header_end(buffer@) == find_from(buffer@, blank_line(), i as int),
        decreases total - i,
    {
        let found = buffer[i] == 13 && buffer[i + 1] == 10 && buffer[i + 2] == 13 && buffer[i + 3]
            == 10;
        proof {
            let here = buffer@.subrange(i as int, i + 4);
            if found {
                assert(here =~= blank_line());
            } else {
                assert(here[0] == buffer@[i as int] && here[1] == buffer@[i + 1] && here[2]
                    == buffer@[i + 2] && here[3] == buffer@[i + 3]);
                assert(here != blank_line());
            }
        }
        if found {
            return Some(i);
        }
        i += 1;
    }
    None
}

/// The line is a `Content-Length` header.
pub open spec fn is_length_line(line: Seq<char>) -> bool {
    match split_once(line, ":"@) {
        Some((name, _)) => lower(trim(name)) == lower("Content-Length"@),
        None => false,
    }
}

/// What stands after the first colon of the line, trimmed.
pub open spec fn line_value(line: Seq<char>) -> Seq<char> {
    match split_once(line, ":"@) {
        Some((_, value)) => trim(value),
        None => Seq::empty(),
    }
}

/// The number that the first `Content-Length` header at or after line `from`
/// declares: zero where there is no such header, none where it holds no number.
pub open spec fn declared_length(lines: Seq<Seq<char>>, from: int) -> Option<nat>
    decreases lines.len() - from,
{
    if from < 0 || from >= lines.len() {
        Some(0)
    } else if is_length_line(lines[from]) {
        parse_unsigned(line_value(lines[from]), usize::MAX as nat)
    } else {
        declared_length(lines, from + 1)
    }
}

/// The lines of the headers.
pub open spec fn lines_of(headers: Seq<char>) -> Seq<Seq<char>> {
    split_on(headers, "\r\n"@)
}

/// The lines of the headers.
fn split_lines(headers: &str) -> (lines: Vec<String>)
    ensures
        texts(lines@) == lines_of(headers@),
{
    proof {
        reveal_strlit("\r\n");
    }
    split_text(headers, "\r\n")
}

/// The length of the payload that the headers declare.
pub fn content_length(headers: &str) -> (length: Result<usize, RtspError>)
    ensures
        match length {
            Ok(n) => declared_length(lines_of(headers@), 1) == Some(n as nat),
            Err(e) => e is InvalidContentLength && declared_length(lines_of(headers@), 1) is None,
        },
{
    let lines = split_lines(headers);
    let ghost all = lines_of(headers@);
    assert(all.len() == lines@.len());
    let mut i: usize = 1;
    while i < lines.len()
        invariant
            1 <= i,
            all == lines_of(headers@),
            texts(lines@) == all,
            i <= lines@.len() || i == 1,
            declared_length(all, 1) == declared_length(all, i as int),
        decreases lines@.len() - i,
    {
        assert(lines@[i as int]@ == all[i as int]);
        match split_text_once(lines[i].as_str(), ":") {
            Some((name, value)) => {
                let trimmed = trim_text(name.as_str());
                if same_text_ignoring_case(trimmed.as_str(), "Content-Length") {
                    let number = trim_text(value.as_str());
                    assert(is_length_line(all[i as int]));
                    assert(number@ == line_value(all[i as int]));
                    let most: u64 = usize::MAX as u64;
                    assert(most as nat == usize::MAX as nat);
                    return match parse_number(number.as_str(), most) {
                        Some(n) => Ok(n as usize),
                        None => Err(RtspError::InvalidContentLength),
                    };
                }
            },
            None => {},
        }
        i += 1;
    }
    Ok(0)
}

/// The number of bytes of the request that `buffer` begins with, as its headers
/// declare it; none while the headers are not complete.
pub open spec fn declared_request_len(buffer: Seq<u8>) -> Result<Option<nat>, RtspError> {
    match header_end(buffer) {
        None => Ok(None),
        Some(end) => if !valid_utf8(buffer.take(end)) {
            Err(RtspError::HeadersNotUtf8)
        } else {
            match declared_length(lines_of(decode_utf8(buffer.take(end))), 1) {
                None => Err(RtspError::InvalidContentLength),
                Some(n) => Ok(Some((end + 4 + n) as nat)),
            }
        },
    }
}

/// The declared length of the request fits a `usize`.
pub open spec fn length_fits(buffer: Seq<u8>) -> bool {
    declared_request_len(buffer) matches Ok(Some(n)) ==> n <= usize::MAX
}

/// The length of the first request of `buffer` once it is there in full.
pub open spec fn request_len(buffer: Seq<u8>) -> Result<Option<nat>, RtspError> {
    match declared_request_len(buffer) {
        Ok(Some(n)) if n > buffer.len() => Ok(None),
        other => other,
    }
}

/// The declared end of the headers and length of the payload.
fn declared_parts(buffer: &[u8]) -> (parts: Result<Option<(usize, usize)>, RtspError>)
    ensures
        match parts {
            Ok(Some((end, n))) => {
                &&& header_end(buffer@) == Some(end as int)
                &&& end + 4 <= buffer@.len()
                &&& valid_utf8(buffer@.take(end as int))
                &&& declared_length(lines_of(decode_utf8(buffer@.take(end as int))), 1) == Some(
                    n as nat,
                )
                &&& declared_request_len(buffer@) matches Ok(Some(m)) && m == end + 4 + n
            },
            Ok(None) => header_end(buffer@) is None && declared_request_len(buffer@) matches Ok(
                None,
            ),
            Err(e) => declared_request_len(buffer@) == Err::<Option<nat>, _>(e),
        },
{
    proof {
        lemma_find_from(buffer@, blank_line(), 0);
    }
    match find_header_end(buffer) {
        None => Ok(None),
        Some(end) => {
            let head = &buffer[0..end];
            assert(head@ =~= buffer@.take(end as int));
            match utf8_text(head) {
                None => Err(RtspError::HeadersNotUtf8),
                Some(headers) => match content_length(headers.as_str()) {
                    Ok(n) => Ok(Some((end, n))),
                    Err(e) => Err(e),
                },
            }
        },
    }
}

/// The length of the first request of `buffer`, or none while it is not there in
/// full.
pub fn complete_request_len(buffer: &[u8]) -> (length: Result<Option<usize>, RtspError>)
    requires
        length_fits(buffer@),
    ensures
        match length {
            Ok(Some(n)) => request_len(buffer@) matches Ok(Some(m)) && m == n,
            Ok(None) => request_len(buffer@) matches Ok(None),
            Err(e) => request_len(buffer@) == Err::<Option<nat>, _>(e),
        },
{
    match declared_parts(buffer) {
        Ok(Some((end, n))) => {
            let len: usize = end + 4 + n;
            if buffer.len() >= len {
                Ok(Some(len))
            } else {
                Ok(None)
            }
        },
        Ok(None) => Ok(None),
        Err(e) => Err(e),
    }
}

/// An RTSP request.
pub struct RtspRequest {
    pub method: String,
    pub target: String,
    /// The headers, by their names in lower case.
    pub headers: StringHashMap<String>,
    pub payload: String,
}

/// What a request says.
pub struct RequestModel {
    pub method: Seq<char>,
    pub target: Seq<char>,
    pub headers: Map<Seq<char>, Seq<char>>,
    pub payload: Seq<char>,
}

impl View for RtspRequest {
    type V = RequestModel;

    open spec fn view(&self) -> RequestModel {
        RequestModel {
            method: self.method@,
            target: self.target@,
            headers: self.headers@.map_values(|s: String| s@),
            payload: self.payload@,
        }
    }
}

impl RequestModel {
    /// The sequence number of the request, `1` where it has none.
    pub open spec fn cseq(self) -> Seq<char> {
        if self.headers.contains_key("cseq"@) {
            self.headers["cseq"@]
        } else {
            "1"@
        }
    }

    /// The peer asks for the connection to stay open.
    pub open spec fn keep_alive(self) -> bool {
        self.headers.contains_key("connection"@) && lower(self.headers["connection"@]) == lower(
            "keep-alive"@,
        )
    }
}

impl RtspRequest {
    /// The sequence number of the request, `1` where it has none.
    pub fn cseq(&self) -> (text: &str)
        ensures
            text@ == self@.cseq(),
    {
        match self.headers.get("cseq") {
            Some(value) => value.as_str(),
            None => "1",
        }
    }

    /// Whether the peer asks for the connection to stay open.
    pub fn requested_keep_alive(&self) -> (keep: bool)
        ensures
            keep == self@.keep_alive(),
    {
        match self.headers.get("connection") {
            Some(value) => same_text_ignoring_case(value.as_str(), "keep-alive"),
            None => false,
        }
    }
}

/// The headers that the lines from the second on hold: names in lower case,
/// names and values trimmed, a later header in place of an earlier one with the
/// same name, lines without a colon left out.
pub open spec fn header_map(lines: Seq<Seq<char>>) -> Map<Seq<char>, Seq<char>>
    decreases lines.len(),
{
    if lines.len() <= 1 {
        Map::empty()
    } else {
        let before = header_map(lines.drop_last());
        match split_once(lines.last(), ":"@) {
            Some((name, value)) => before.insert(lower(trim(name)), trim(value)),
            None => before,
        }
    }
}

/// The request that the header lines and the payload make.
pub open spec fn request_of(lines: Seq<Seq<char>>, payload: Seq<char>) -> Result<
    RequestModel,
    RtspError,
> {
    let parts = words(lines[0]);
    if parts.len() < 1 {
        Err(RtspError::MissingMethod)
    } else if parts.len() < 2 {
        Err(RtspError::MissingTarget)
    } else if parts.len() < 3 {
        Err(RtspError::MissingProtocol)
    } else if parts[2] != "RTSP/1.0"@ {
        Err(RtspError::UnsupportedProtocol)
    } else {
        Ok(
            RequestModel {
                method: parts[0],
                target: parts[1],
                headers: header_map(lines),
                payload,
            },
        )
    }
}

/// The request that `raw` begins with.
pub open spec fn parsed_request(raw: Seq<u8>) -> Result<RequestModel, RtspError> {
    match declared_request_len(raw) {
        Err(e) => Err(e),
        Ok(None) => Err(RtspError::HeadersIncomplete),
        Ok(Some(n)) => if raw.len() < n {
            Err(RtspError::PayloadTooShort)
        } else {
            let end = header_end(raw)->0;
            request_of(
                lines_of(decode_utf8(raw.take(end))),
                text_of_bytes(raw.subrange(end + 4, n as int)),
            )
        },
    }
}

proof fn lemma_split_on_nonempty(s: Seq<char>, separator: Seq<char>)
    ensures
        split_on(s, separator).len() > 0,
{
}

/// Reads the headers out of the lines from the second on.
fn read_headers(lines: &Vec<String>) -> (headers: StringHashMap<String>)
    requires
        lines@.len() > 0,
    ensures
        headers@.map_values(|s: String| s@) == header_map(texts(lines@)),
{
    let mut headers: StringHashMap<String> = StringHashMap::new();
    let ghost all = texts(lines@);
    let mut i: usize = 1;
    assert(headers@.map_values(|s: String| s@) =~= header_map(all.take(1)));
    while i < lines.len()
        invariant
            all == texts(lines@),
            1 <= i <= lines@.len(),
            headers@.map_values(|s: String| s@) == header_map(all.take(i as int)),
        decreases lines@.len() - i,
    {
        assert(lines@[i as int]@ == all[i as int]);
        assert(all.take(i + 1).drop_last() =~= all.take(i as int));
        let ghost before = headers@;
        match split_text_once(lines[i].as_str(), ":") {
            Some((name, value)) => {
                let name = trim_text(name.as_str());
                let name = lower_text(name.as_str());
                let value = trim_text(value.as_str());
                headers.insert(name, value);
                assert(headers@.map_values(|s: String| s@) =~= before.map_values(
                    |s: String| s@,
                ).insert(name@, value@));
            },
            None => {},
        }
        i += 1;
    }
    assert(all.take(i as int) =~= all);
    headers
}

/// Builds the request out of its header lines and payload.
pub fn build_request(lines: &Vec<String>, payload: String) -> (request: Result<RtspRequest, RtspError>)
    requires
        lines@.len() > 0,
    ensures
        match request {
            Ok(r) => request_of(texts(lines@), payload@) == Ok::<_, RtspError>(r@),
            Err(e) => request_of(texts(lines@), payload@) == Err::<RequestModel, _>(e),
        },
{
    assert(lines@[0]@ == texts(lines@)[0]);
    let parts = words_of(lines[0].as_str());
    assert(texts(parts@).len() == parts@.len());
    if parts.len() < 1 {
        return Err(RtspError::MissingMethod);
    }
    if parts.len() < 2 {
        return Err(RtspError::MissingTarget);
    }
    if parts.len() < 3 {
        return Err(RtspError::MissingProtocol);
    }
    if !same_text(parts[2].as_str(), "RTSP/1.0") {
        return Err(RtspError::UnsupportedProtocol);
    }
    let headers = read_headers(lines);
    Ok(
        RtspRequest {
            method: parts[0].as_str().to_owned(),
            target: parts[1].as_str().to_owned(),
            headers,
            payload,
        },
    )
}

/// Reads the request that `raw` begins with.
pub fn parse_rtsp_request(raw: &[u8]) -> (request: Result<RtspRequest, RtspError>)
    requires
        length_fits(raw@),
    ensures
        match request {
            Ok(r) => parsed_request(raw@) == Ok::<_, RtspError>(r@),
            Err(e) => parsed_request(raw@) == Err::<RequestModel, _>(e),
        },
{
    match declared_parts(raw) {
        Err(e) => Err(e),
        Ok(None) => Err(RtspError::HeadersIncomplete),
        Ok(Some((end, n))) => {
            let payload_end: usize = end + 4 + n;
            if raw.len() < payload_end {
                return Err(RtspError::PayloadTooShort);
            }
            let head = &raw[0..end];
            assert(head@ =~= raw@.take(end as int));
            match utf8_text(head) {
                None => Err(RtspError::HeadersNotUtf8),
                Some(headers) => {
                    let lines = split_lines(headers.as_str());
                    proof {
                        lemma_split_on_nonempty(headers@, "\r\n"@);
                        assert(texts(lines@).len() == lines@.len());
                    }
                    let body = &raw[end + 4..payload_end];
                    assert(body@ =~= raw@.subrange(end + 4, payload_end as int));
                    let payload = utf8_text_lossy(body);
                    build_request(&lines, payload)
                },
            }
        },
    }
}

// ---------------------------------------------------------------------------
// Reading from a connection
// ---------------------------------------------------------------------------
/// Takes the first request out of `buffer` once it is there in full, and leaves
/// what follows it.
pub fn take_request(buffer: &mut Vec<u8>) -> (request: Result<Option<RtspRequest>, RtspError>)
    ensures
        length_fits(old(buffer)@) ==> match request_len(old(buffer)@) {
            Err(e) => {
                &&& request matches Err(r) && r == e
                &&& final(buffer)@ == old(buffer)@
            },
            Ok(None) => {
                &&& request matches Ok(None)
                &&& final(buffer)@ == old(buffer)@
            },
            Ok(Some(n)) => {
                &&& final(buffer)@ == old(buffer)@.skip(n as int)
                &&& match request {
                    Ok(Some(r)) => parsed_request(old(buffer)@.take(n as int)) == Ok::<
                        _,
                        RtspError,
                    >(r@),
                    Ok(None) => false,
                    Err(e) => parsed_request(old(buffer)@.take(n as int)) == Err::<
                        RequestModel,
                        _,
                    >(e),
                }
            },
        },
        !length_fits(old(buffer)@) ==> {
            &&& request matches Err(e) && e is LengthOverflow
            &&& final(buffer)@ == old(buffer)@
        },
{
    match declared_parts(buffer) {
        Err(e) => Err(e),
        Ok(None) => Ok(None),
        Ok(Some((end, n))) => {
            let total: usize = buffer.len();
            if n > usize::MAX - 4 - end {
                return Err(RtspError::LengthOverflow);
            }
            let len: usize = end + 4 + n;
            if total < len {
                return Ok(None);
            }
            let ghost before = buffer@;
            let rest = buffer.split_off(len);
            proof {
                assert(buffer@ =~= before.take(len as int));
                assert(rest@ =~= before.skip(len as int));
                lemma_prefix_keeps_length(before, len as int);
            }
            let parsed = parse_rtsp_request(buffer.as_slice());
            *buffer = rest;
            match parsed {
                Ok(request) => Ok(Some(request)),
                Err(e) => Err(e),
            }
        },
    }
}

/// Adds what was read to `buffer`; a request that has grown too large is given up.
pub fn accept_bytes(buffer: &mut Vec<u8>, chunk: &[u8]) -> (accepted: Result<(), RtspError>)
    ensures
        final(buffer)@ == old(buffer)@ + chunk@,
        match accepted {
            Ok(()) => old(buffer)@.len() + chunk@.len() <= MAX_RTSP_REQUEST_BYTES,
            Err(e) => e is RequestTooLarge && old(buffer)@.len() + chunk@.len()
                > MAX_RTSP_REQUEST_BYTES,
        },
{
    append_bytes(buffer, chunk);
    if buffer.len() > MAX_RTSP_REQUEST_BYTES {
        Err(RtspError::RequestTooLarge)
    } else {
        Ok(())
    }
}

/// What the end of the connection means: it is in order between two requests.
pub fn connection_closed(buffer: &Vec<u8>) -> (outcome: Result<(), RtspError>)
    ensures
        match outcome {
            Ok(()) => buffer@.len() == 0,
            Err(e) => e is ClosedWithIncompleteRequest && buffer@.len() > 0,
        },
{
    if buffer.len() == 0 {
        Ok(())
    } else {
        Err(RtspError::ClosedWithIncompleteRequest)
    }
}

proof fn lemma_find_in_extension<A>(s: Seq<A>, more: Seq<A>, pattern: Seq<A>, from: int)
    requires
        0 <= from,
        find_from(s, pattern, from) is Some,
    ensures
        find_from(s + more, pattern, from) == find_from(s, pattern, from),
    decreases s.len() + 1 - from,
{
    assert((s + more).subrange(from, from + pattern.len()) =~= s.subrange(
        from,
        from + pattern.len(),
    ));
    if !occurs_at(s, pattern, from) {
        lemma_find_in_extension(s, more, pattern, from + 1);
    }
}

proof fn lemma_find_in_prefix<A>(s: Seq<A>, n: int, pattern: Seq<A>, from: int)
    requires
        0 <= from,
        n <= s.len(),
        find_from(s, pattern, from) matches Some(i) && i + pattern.len() <= n,
    ensures
        find_from(s.take(n), pattern, from) == find_from(s, pattern, from),
    decreases s.len() + 1 - from,
{
    lemma_find_from(s, pattern, from);
    let i = find_from(s, pattern, from)->0;
    assert(from <= i);
    assert(s.take(n).subrange(from, from + pattern.len()) =~= s.subrange(
        from,
        from + pattern.len(),
    ));
    if !occurs_at(s, pattern, from) {
        lemma_find_in_prefix(s, n, pattern, from + 1);
    }
}

proof fn lemma_prefix_keeps_length(buffer: Seq<u8>, n: int)
    requires
        declared_request_len(buffer) matches Ok(Some(m)) && m <= n,
        n <= buffer.len(),
    ensures
        header_end(buffer.take(n)) == header_end(buffer),
        declared_request_len(buffer.take(n)) == declared_request_len(buffer),
{
    let end = header_end(buffer)->0;
    lemma_find_from(buffer, blank_line(), 0);
    lemma_find_in_prefix(buffer, n, blank_line(), 0);
    assert(buffer.take(n).take(end) =~= buffer.take(end));
}

/// A request that is there in full stays what it is, whatever follows it: its
/// length and its contents depend on its own bytes alone.
pub proof fn requests_do_not_depend_on_what_follows(buffer: Seq<u8>, more: Seq<u8>)
    requires
        request_len(buffer) matches Ok(Some(n)),
    ensures
        request_len(buffer + more) == request_len(buffer),
        request_len(buffer.take(request_len(buffer)->Ok_0->0 as int)) == request_len(buffer),
        parsed_request(buffer + more) == parsed_request(buffer),
        parsed_request(buffer.take(request_len(buffer)->Ok_0->0 as int)) == parsed_request(buffer),
{
    let n = request_len(buffer)->Ok_0->0 as int;
    let end = header_end(buffer)->0;
    lemma_find_from(buffer, blank_line(), 0);
    lemma_prefix_keeps_length(buffer, n);
    lemma_find_in_extension(buffer, more, blank_line(), 0);
    assert((buffer + more).take(end) =~= buffer.take(end));
    assert((buffer + more).subrange(end + 4, n) =~= buffer.subrange(end + 4, n));
    assert(buffer.take(n).take(end) =~= buffer.take(end));
    assert(buffer.take(n).subrange(end + 4, n) =~= buffer.subrange(end + 4, n));
}

/// A request whose length is known is at least a blank line long, so taking
/// requests out of a buffer comes to an end.
pub proof fn requests_are_not_empty(buffer: Seq<u8>)
    requires
        request_len(buffer) matches Ok(Some(n)),
    ensures
        4 <= request_len(buffer)->Ok_0->0 <= buffer.len(),
{
    lemma_find_from(buffer, blank_line(), 0);
}

// ---------------------------------------------------------------------------
// Responses
// ---------------------------------------------------------------------------
/// The header lines of a response.
pub open spec fn header_text(headers: Seq<(Seq<char>, Seq<char>)>) -> Seq<char>
    decreases headers.len(),
{
    if headers.len() == 0 {
        Seq::empty()
    } else {
        header_text(headers.drop_last()) + headers.last().0 + ": "@ + headers.last().1 + "\r\n"@
    }
}

/// A response that reports success. The length of a payload, in bytes, is
/// declared where there is one.
pub open spec fn response_text(
    cseq: Seq<char>,
    headers: Seq<(Seq<char>, Seq<char>)>,
    payload: Seq<char>,
    close: bool,
) -> Seq<char> {
    "RTSP/1.0 200 OK\r\nCSeq: "@ + cseq + "\r\n"@ + header_text(headers) + (if payload.len() > 0 {
        "Content-Length: "@ + decimal(encode_utf8(payload).len()) + "\r\n"@
    } else {
        Seq::empty()
    }) + (if close {
        "Connection: close\r\n\r\n"@
    } else {
        "Connection: keep-alive\r\n\r\n"@
    }) + payload
}

/// A response that reports success.
pub fn response(
    cseq: &str,
    headers: &[(&str, &str)],
    payload: &str,
    close_connection: bool,
) -> (out: String)
    ensures
        out@ == response_text(cseq@, pair_views(headers@), payload@, close_connection),
{
    let mut out = "RTSP/1.0 200 OK\r\nCSeq: ".to_owned();
    out.append(cseq);
    out.append("\r\n");
    let ghost start = out@;
    let ghost all = pair_views(headers@);
    let mut i: usize = 0;
    assert(out@ =~= start + header_text(all.take(0)));
    while i < headers.len()
        invariant
            i <= headers@.len(),
            all == pair_views(headers@),
            out@ == start + header_text(all.take(i as int)),
        decreases headers@.len() - i,
    {
        assert(all.take(i + 1).drop_last() =~= all.take(i as int));
        out.append(headers[i].0);
        out.append(": ");
        out.append(headers[i].1);
        out.append("\r\n");
        assert(out@ =~= start + header_text(all.take(i + 1)));
        i += 1;
    }
    assert(all.take(i as int) =~= all);
    if !payload.is_empty() {
        let size: usize = payload.as_bytes().len();
        let number = decimal_text(size as u64);
        out.append("Content-Length: ");
        out.append(number.as_str());
        out.append("\r\n");
    }
    out.append(
        if close_connection {
            "Connection: close\r\n\r\n"
        } else {
            "Connection: keep-alive\r\n\r\n"
        },
    );
    out.append(payload);
    assert(out@ =~= response_text(cseq@, pair_views(headers@), payload@, close_connection));
    out
}

/// The lines of the session description.
pub open spec fn sdp_lines(source_ip: Seq<char>) -> Seq<Seq<char>> {
    seq![
        "v=0"@,
        "o=sunrise 0 0 IN IP4 "@ + source_ip,
        "s=Sunrise Desktop"@,
        "c=IN IP4 "@ + source_ip,
        "t=0 0"@,
        "a=control:*"@,
        "m=video 47998 RTP/AVP 96"@,
        "a=rtpmap:96 H264/90000"@,
        "a=fmtp:96 packetization-mode=1"@,
        "a=control:streamid=video"@,
        "m=audio 48000 RTP/AVP 97"@,
        "a=rtpmap:97 opus/48000/2"@,
        "a=fmtp:97 minptime=10;useinbandfec=1"@,
        "a=control:streamid=audio"@,
        ""@,
    ]
}

/// The session description that offers one video and one audio stream.
pub open spec fn sdp(source_ip: Seq<char>) -> Seq<char> {
    join(sdp_lines(source_ip), "\r\n"@)
}

/// `prefix` followed by `rest`.
fn prefixed(prefix: &str, rest: &str) -> (out: String)
    ensures
        out@ == prefix@ + rest@,
{
    let mut out = prefix.to_owned();
    out.append(rest);
    out
}

/// The session description that offers one video and one audio stream.
pub fn describe_sdp(source_ip: &str) -> (out: String)
    ensures
        out@ == sdp(source_ip@),
{
    let lines: Vec<String> = vec![
        "v=0".to_owned(),
        prefixed("o=sunrise 0 0 IN IP4 ", source_ip),
        "s=Sunrise Desktop".to_owned(),
        prefixed("c=IN IP4 ", source_ip),
        "t=0 0".to_owned(),
        "a=control:*".to_owned(),
        "m=video 47998 RTP/AVP 96".to_owned(),
        "a=rtpmap:96 H264/90000".to_owned(),
        "a=fmtp:96 packetization-mode=1".to_owned(),
        "a=control:streamid=video".to_owned(),
        "m=audio 48000 RTP/AVP 97".to_owned(),
        "a=rtpmap:97 opus/48000/2".to_owned(),
        "a=fmtp:97 minptime=10;useinbandfec=1".to_owned(),
        "a=control:streamid=audio".to_owned(),
        "".to_owned(),
    ];
    assert(texts(lines@) =~= sdp_lines(source_ip@));
    join_texts(&lines, "\r\n")
}

/// The streams of a session.
#[derive(Clone, Copy, Debug, PartialEq, Eq, Structural)]
pub enum MediaKind {
    Video,
    Audio,
    Control,
}

/// The stream that a target names.
pub open spec fn media_of(target: Seq<char>) -> Option<MediaKind> {
    let t = lower(target);
    if contains(t, "audio"@) {
        Some(MediaKind::Audio)
    } else if contains(t, "control"@) {
        Some(MediaKind::Control)
    } else if contains(t, "video"@) || contains(t, "streamid"@) || starts_with(t, "rtsp://"@) {
        Some(MediaKind::Video)
    } else {
        None
    }
}

/// The stream that a target names.
pub fn media_kind_for_target(target: &str) -> (media: Option<MediaKind>)
    ensures
        media == media_of(target@),
{
    let target = lower_text(target);
    let t = target.as_str();
    if contains_text(t, "audio") {
        Some(MediaKind::Audio)
    } else if contains_text(t, "control") {
        Some(MediaKind::Control)
    } else if contains_text(t, "video") || contains_text(t, "streamid") || starts_with_text(
        t,
        "rtsp://",
    ) {
        Some(MediaKind::Video)
    } else {
        None
    }
}

/// The port on which a stream is served.
pub open spec fn media_port(media: MediaKind) -> u16 {
    match media {
        MediaKind::Video => VIDEO_PORT,
        MediaKind::Audio => AUDIO_PORT,
        MediaKind::Control => CONTROL_PORT,
    }
}

/// The port that a `SETUP` for `target` is answered with: that of the stream it
/// names, or the video port.
pub open spec fn setup_port(target: Seq<char>) -> u16 {
    match media_of(target) {
        Some(media) => media_port(media),
        None => VIDEO_PORT,
    }
}

/// The port that a `SETUP` for `target` is answered with.
pub fn setup_port_for_target(target: &str) -> (port: u16)
    ensures
        port == setup_port(target@),
        port < u16::MAX,
{
    match media_kind_for_target(target) {
        Some(MediaKind::Audio) => AUDIO_PORT,
        Some(MediaKind::Control) => CONTROL_PORT,
        _ => VIDEO_PORT,
    }
}

/// The methods that are answered with the session alone.
pub open spec fn is_plain_method(method: Seq<char>) -> bool {
    ||| method == "ANNOUNCE"@
    ||| method == "PLAY"@
    ||| method == "GET_PARAMETER"@
    ||| method == "TEARDOWN"@
}

/// The `Transport` header of the answer to a `SETUP` for `target`.
pub open spec fn transport_text(target: Seq<char>, source_ip: Seq<char>) -> Seq<char> {
    "unicast;server_port="@ + decimal(setup_port(target) as nat) + "-"@ + decimal(
        (setup_port(target) + 1) as nat,
    ) + ";source="@ + source_ip
}

/// The answer to a request.
pub open spec fn answer(request: RequestModel, source_ip: Seq<char>, close: bool) -> Seq<char> {
    let session = ("Session"@, SESSION_ID@);
    let session_with_timeout = ("Session"@, SESSION_ID@ + ";timeout=90"@);
    if request.method == "OPTIONS"@ {
        response_text(
            request.cseq(),
            seq![
                (
                    "Public"@,
                    "OPTIONS, DESCRIBE, SETUP, ANNOUNCE, PLAY, GET_PARAMETER, TEARDOWN"@,
                ),
                session,
            ],
            ""@,
            close,
        )
    } else if request.method == "DESCRIBE"@ {
        response_text(
            request.cseq(),
            seq![("Content-Type"@, "application/sdp"@), session],
            sdp(source_ip),
            close,
        )
    } else if request.method == "SETUP"@ {
        response_text(
            request.cseq(),
            seq![session_with_timeout, ("Transport"@, transport_text(request.target, source_ip))],
            ""@,
            close,
        )
    } else if is_plain_method(request.method) {
        response_text(request.cseq(), seq![session_with_timeout], ""@, close)
    } else {
        "RTSP/1.0 405 Method Not Allowed\r\nCSeq: "@ + request.cseq() + "\r\n\r\n"@
    }
}

/// The `Transport` header of the answer to a `SETUP` for `target`.
fn transport_for(target: &str, source_ip: &str) -> (out: String)
    ensures
        out@ == transport_text(target@, source_ip@),
{
    let port: u16 = setup_port_for_target(target);
    let low = decimal_text(port as u64);
    let high = decimal_text((port + 1) as u64);
    let mut out = prefixed("unicast;server_port=", low.as_str());
    out.append("-");
    out.append(high.as_str());
    out.append(";source=");
    out.append(source_ip);
    out
}

/// The answer to a request.
pub fn rtsp_response(request: &RtspRequest, source_ip: &str, close_connection: bool) -> (out: String)
    ensures
        out@ == answer(request@, source_ip@, close_connection),
{
    let method = request.method.as_str();
    if same_text(method, "OPTIONS") {
        let headers: [(&str, &str); 2] = [
            ("Public", "OPTIONS, DESCRIBE, SETUP, ANNOUNCE, PLAY, GET_PARAMETER, TEARDOWN"),
            ("Session", SESSION_ID),
        ];
        assert(pair_views(headers@) =~= seq![
            (
                "Public"@,
                "OPTIONS, DESCRIBE, SETUP, ANNOUNCE, PLAY, GET_PARAMETER, TEARDOWN"@,
            ),
            ("Session"@, SESSION_ID@),
        ]);
        return response(request.cseq(), &headers, "", close_connection);
    }
    if same_text(method, "DESCRIBE") {
        let payload = describe_sdp(source_ip);
        let headers: [(&str, &str); 2] = [
            ("Content-Type", "application/sdp"),
            ("Session", SESSION_ID),
        ];
        assert(pair_views(headers@) =~= seq![
            ("Content-Type"@, "application/sdp"@),
            ("Session"@, SESSION_ID@),
        ]);
        return response(request.cseq(), &headers, payload.as_str(), close_connection);
    }
    let session = prefixed(SESSION_ID, ";timeout=90");
    if same_text(method, "SETUP") {
        let transport = transport_for(request.target.as_str(), source_ip);
        let headers: [(&str, &str); 2] = [
            ("Session", session.as_str()),
            ("Transport", transport.as_str()),
        ];
        assert(pair_views(headers@) =~= seq![("Session"@, session@), ("Transport"@, transport@)]);
        return response(request.cseq(), &headers, "", close_connection);
    }
    if same_text(method, "ANNOUNCE") || same_text(method, "PLAY") || same_text(
        method,
        "GET_PARAMETER",
    ) || same_text(method, "TEARDOWN") {
        let headers: [(&str, &str); 1] = [("Session", session.as_str())];
        assert(pair_views(headers@) =~= seq![("Session"@, session@)]);
        return response(request.cseq(), &headers, "", close_connection);
    }
    let mut out = prefixed("RTSP/1.0 405 Method Not Allowed\r\nCSeq: ", request.cseq());
    out.append("\r\n\r\n");
    out
}

/// The header lines of a response, one by one.
pub open spec fn header_line_list(headers: Seq<(Seq<char>, Seq<char>)>) -> Seq<Seq<char>> {
    headers.map_values(|h: (Seq<char>, Seq<char>)| h.0 + ": "@ + h.1)
}

/// The lines of a successful response before its payload.
pub open spec fn response_lines(
    cseq: Seq<char>,
    headers: Seq<(Seq<char>, Seq<char>)>,
    payload: Seq<char>,
    close: bool,
) -> Seq<Seq<char>> {
    seq!["RTSP/1.0 200 OK"@, "CSeq: "@ + cseq] + header_line_list(headers) + (if payload.len() > 0 {
        seq!["Content-Length: "@ + decimal(encode_utf8(payload).len())]
    } else {
        Seq::empty()
    }) + seq![
        if close {
            "Connection: close"@
        } else {
            "Connection: keep-alive"@
        },
    ]
}

/// The texts that go into a response hold no line feeds.
pub open spec fn are_plain(cseq: Seq<char>, headers: Seq<(Seq<char>, Seq<char>)>) -> bool {
    &&& is_one_line(cseq)
    &&& forall|i: int|
        0 <= i < headers.len() ==> is_one_line((#[trigger] headers[i]).0) && is_one_line(
            headers[i].1,
        )
}

proof fn lemma_join_line(lines: Seq<Seq<char>>, line: Seq<char>)
    requires
        lines.len() > 0,
    ensures
        join(lines.push(line), "\r\n"@) == join(lines, "\r\n"@) + "\r\n"@ + line,
{
    assert(lines.push(line).drop_last() =~= lines);
}

proof fn lemma_header_lines(lines: Seq<Seq<char>>, headers: Seq<(Seq<char>, Seq<char>)>)
    requires
        lines.len() > 0,
    ensures
        join(lines, "\r\n"@) + "\r\n"@ + header_text(headers) == join(
            lines + header_line_list(headers),
            "\r\n"@,
        ) + "\r\n"@,
    decreases headers.len(),
{
    let all = lines + header_line_list(headers);
    let start = join(lines, "\r\n"@) + "\r\n"@;
    if headers.len() == 0 {
        assert(all =~= lines);
        assert(start + header_text(headers) =~= start);
    } else {
        let shorter = headers.drop_last();
        lemma_header_lines(lines, shorter);
        let last = headers.last();
        let line = last.0 + ": "@ + last.1;
        let before = lines + header_line_list(shorter);
        assert(all =~= before.push(line));
        lemma_join_line(before, line);
        assert(start + header_text(headers) =~= start + header_text(shorter) + line + "\r\n"@);
    }
}

proof fn lemma_response_is_joined_lines(
    cseq: Seq<char>,
    headers: Seq<(Seq<char>, Seq<char>)>,
    payload: Seq<char>,
    close: bool,
)
    ensures
        response_text(cseq, headers, payload, close) == join(
            response_lines(cseq, headers, payload, close),
            "\r\n"@,
        ) + "\r\n"@ + "\r\n"@ + payload,
{
    reveal_strlit("RTSP/1.0 200 OK\r\nCSeq: ");
    reveal_strlit("RTSP/1.0 200 OK");
    reveal_strlit("CSeq: ");
    reveal_strlit("\r\n");
    reveal_strlit("Connection: close\r\n\r\n");
    reveal_strlit("Connection: close");
    reveal_strlit("Connection: keep-alive\r\n\r\n");
    reveal_strlit("Connection: keep-alive");
    let crlf = "\r\n"@;
    let one = seq!["RTSP/1.0 200 OK"@];
    let two = seq!["RTSP/1.0 200 OK"@, "CSeq: "@ + cseq];
    assert(two =~= one.push("CSeq: "@ + cseq));
    lemma_join_line(one, "CSeq: "@ + cseq);
    assert(join(one, crlf) == "RTSP/1.0 200 OK"@);
    assert("RTSP/1.0 200 OK\r\nCSeq: "@ + cseq + crlf =~= join(two, crlf) + crlf);
    lemma_header_lines(two, headers);
    let three = two + header_line_list(headers);
    let four = three + (if payload.len() > 0 {
        seq!["Content-Length: "@ + decimal(encode_utf8(payload).len())]
    } else {
        Seq::empty()
    });
    if payload.len() > 0 {
        let line = "Content-Length: "@ + decimal(encode_utf8(payload).len());
        assert(four =~= three.push(line));
        lemma_join_line(three, line);
    } else {
        assert(four =~= three);
    }
    let last = if close {
        "Connection: close"@
    } else {
        "Connection: keep-alive"@
    };
    let closing = if close {
        "Connection: close\r\n\r\n"@
    } else {
        "Connection: keep-alive\r\n\r\n"@
    };
    assert(closing =~= last + crlf + crlf);
    let five = response_lines(cseq, headers, payload, close);
    assert(five =~= four.push(last));
    lemma_join_line(four, last);
    let declared = if payload.len() > 0 {
        "Content-Length: "@ + decimal(encode_utf8(payload).len()) + crlf
    } else {
        Seq::empty()
    };
    assert(join(three, crlf) + crlf + declared =~= join(four, crlf) + crlf);
    assert(response_text(cseq, headers, payload, close) =~= join(five, crlf) + crlf + crlf
        + payload);
}

proof fn lemma_response_lines_are_plain(
    cseq: Seq<char>,
    headers: Seq<(Seq<char>, Seq<char>)>,
    payload: Seq<char>,
    close: bool,
)
    requires
        are_plain(cseq, headers),
    ensures
        forall|i: int|
            0 <= i < response_lines(cseq, headers, payload, close).len() ==> {
                let line = #[trigger] response_lines(cseq, headers, payload, close)[i];
                is_one_line(line) && line.len() > 0
            },
{
    reveal_strlit("RTSP/1.0 200 OK");
    reveal_strlit("CSeq: ");
    reveal_strlit(": ");
    reveal_strlit("Content-Length: ");
    reveal_strlit("Connection: close");
    reveal_strlit("Connection: keep-alive");
    let lines = response_lines(cseq, headers, payload, close);
    let n = headers.len() as int;
    assert forall|i: int| 0 <= i < lines.len() implies {
        let line = #[trigger] lines[i];
        is_one_line(line) && line.len() > 0
    } by {
        let line = lines[i];
        if i == 1 {
            assert(line == "CSeq: "@ + cseq);
            assert forall|k: int| 0 <= k < line.len() implies #[trigger] line[k] != '\n' by {
                if k >= 6 {
                    assert(line[k] == cseq[k - 6]);
                }
            }
        } else if 2 <= i < 2 + n {
            let h = headers[i - 2];
            assert(line == h.0 + ": "@ + h.1);
            assert forall|k: int| 0 <= k < line.len() implies #[trigger] line[k] != '\n' by {
                if k < h.0.len() {
                    assert(line[k] == h.0[k]);
                } else if k >= h.0.len() + 2 {
                    assert(line[k] == h.1[k - h.0.len() - 2]);
                }
            }
        } else if i == 2 + n && payload.len() > 0 {
            let digits = decimal(encode_utf8(payload).len());
            lemma_decimal_digits(encode_utf8(payload).len());
            assert(line == "Content-Length: "@ + digits);
            assert forall|k: int| 0 <= k < line.len() implies #[trigger] line[k] != '\n' by {
                if k >= 16 {
                    assert(line[k] == digits[k - 16]);
                    assert(is_digit(digits[k - 16]));
                }
            }
        }
    }
}

proof fn lemma_lines_make_a_head(lines: Seq<Seq<char>>)
    requires
        lines.len() > 0,
        forall|i: int|
            0 <= i < lines.len() ==> is_one_line(#[trigger] lines[i]) && lines[i].len() > 0,
    ensures
        is_head(join(lines, "\r\n"@) + "\r\n"@),
    decreases lines.len(),
{
    if lines.len() == 1 {
        assert(is_one_line(lines[0]));
        lemma_first_line(lines[0]);
    } else {
        let shorter = lines.drop_last();
        let last = lines[lines.len() - 1];
        assert forall|i: int| 0 <= i < shorter.len() implies is_one_line(#[trigger] shorter[i])
            && shorter[i].len() > 0 by {
            assert(shorter[i] == lines[i]);
        }
        lemma_lines_make_a_head(shorter);
        assert(is_one_line(last) && last.len() > 0);
        lemma_next_line(join(shorter, "\r\n"@) + "\r\n"@, last);
    }
}

/// A client that reads a response up to the first blank line finds the payload,
/// all of it and nothing else, after it, and the lines of the response before it.
pub proof fn responses_are_framed(
    cseq: Seq<char>,
    headers: Seq<(Seq<char>, Seq<char>)>,
    payload: Seq<char>,
    close: bool,
)
    requires
        are_plain(cseq, headers),
    ensures
        split_once(response_text(cseq, headers, payload, close), "\r\n\r\n"@) matches Some(
            (head, body),
        ) && body == payload && lines_of(head) == response_lines(cseq, headers, payload, close),
{
    let lines = response_lines(cseq, headers, payload, close);
    lemma_response_is_joined_lines(cseq, headers, payload, close);
    lemma_response_lines_are_plain(cseq, headers, payload, close);
    lemma_lines_make_a_head(lines);
    let joined = join(lines, "\r\n"@);
    lemma_body_after_head(joined + "\r\n"@, payload);
    reveal_strlit("\r\n");
    assert((joined + "\r\n"@).take(joined.len() as int) =~= joined);
    splitting_undoes_joining(lines);
}

proof fn lemma_find_colon(name: Seq<char>, rest: Seq<char>)
    requires
        forall|i: int| 0 <= i < name.len() ==> #[trigger] name[i] != ':',
    ensures
        split_once(name + ":"@ + rest, ":"@) == Some((name, rest)),
{
    reveal_strlit(":");
    let s = name + ":"@ + rest;
    let n = name.len() as int;
    assert(s.subrange(n, n + 1) =~= ":"@);
    assert(occurs_at(s, ":"@, n));
    assert forall|i: int| 0 <= i < n implies !#[trigger] occurs_at(s, ":"@, i) by {
        if occurs_at(s, ":"@, i) {
            assert(s.subrange(i, i + 1)[0] == ':');
            assert(name[i] == s[i]);
        }
    }
    lemma_find_from(s, ":"@, 0);
    assert(s.take(n) =~= name);
    assert(s.skip(n + 1) =~= rest);
}

proof fn lemma_trim_digits(digits: Seq<char>)
    requires
        digits.len() > 0,
        all_digits(digits),
    ensures
        trim(seq![' '] + digits) == digits,
{
    let s = seq![' '] + digits;
    assert(s.skip(1) =~= digits);
    assert(is_digit(digits[0]));
    assert(is_digit(digits[digits.len() - 1]));
    assert(trim_start(digits) == digits);
    assert(trim_start(s) == digits);
    assert(trim_end(digits) == digits);
}

proof fn lemma_declared_at(lines: Seq<Seq<char>>, from: int, at: int)
    requires
        0 <= from <= at < lines.len(),
        forall|i: int| from <= i < at ==> !is_length_line(#[trigger] lines[i]),
        is_length_line(lines[at]),
    ensures
        declared_length(lines, from) == parse_unsigned(
            line_value(lines[at]),
            usize::MAX as nat,
        ),
    decreases at - from,
{
    if from < at {
        assert(!is_length_line(lines[from]));
        lemma_declared_at(lines, from + 1, at);
    }
}

/// The length that a response declares, read in the way that requests are read, is
/// that of its payload in bytes, unless one of the given headers is itself a
/// `Content-Length`.
pub proof fn responses_declare_their_payload(
    cseq: Seq<char>,
    headers: Seq<(Seq<char>, Seq<char>)>,
    payload: Seq<char>,
    close: bool,
)
    requires
        are_plain(cseq, headers),
        payload.len() > 0,
        encode_utf8(payload).len() <= usize::MAX,
        forall|i: int|
            0 <= i < headers.len() ==> !is_length_line(
                #[trigger] headers[i].0 + ": "@ + headers[i].1,
            ),
    ensures
        declared_length(response_lines(cseq, headers, payload, close), 1) == Some(
            encode_utf8(payload).len(),
        ),
{
    let lines = response_lines(cseq, headers, payload, close);
    let count = encode_utf8(payload).len();
    let digits = decimal(count);
    let n = headers.len() as int;
    reveal_strlit(":");
    reveal_strlit(": ");
    reveal_strlit("CSeq: ");
    reveal_strlit("Content-Length: ");
    reveal_strlit("Content-Length");
    lemma_decimal_digits(count);
    parse_unsigned_of_decimal(count, usize::MAX as nat);
    let name = "Content-Length"@;
    let line = lines[2 + n];
    assert(line == "Content-Length: "@ + digits);
    assert(line =~= name + ":"@ + (seq![' '] + digits));
    lemma_find_colon(name, seq![' '] + digits);
    assert(trim_start(name) == name);
    assert(trim_end(name) == name);
    lemma_trim_digits(digits);
    assert(is_length_line(line));
    let cseq_name = "CSeq: "@.take(4);
    let first = lines[1];
    assert(first == "CSeq: "@ + cseq);
    assert(first =~= cseq_name + ":"@ + (seq![' '] + cseq));
    lemma_find_colon(cseq_name, seq![' '] + cseq);
    assert(trim_start(cseq_name) == cseq_name);
    assert(trim_end(cseq_name) == cseq_name);
    assert(lower(cseq_name).len() == 4);
    assert(lower(name).len() == 14);
    assert(!is_length_line(first));
    assert forall|i: int| 1 <= i < 2 + n implies !is_length_line(#[trigger] lines[i]) by {
        if i >= 2 {
            assert(lines[i] == headers[i - 2].0 + ": "@ + headers[i - 2].1);
        }
    }
    lemma_declared_at(lines, 1, 2 + n);
}

proof fn lemma_lower_twice(s: Seq<char>)
    ensures
        lower(lower(s)) == lower(s),
{
    assert forall|i: int| 0 <= i < s.len() implies lower(lower(s))[i] == lower(s)[i] by {
        let c = s[i];
        assert(lower_char(lower_char(c)) == lower_char(c));
    }
    assert(lower(lower(s)) =~= lower(s));
}

/// Headers are found whatever the case in which the client wrote their names: all
/// names are kept in lower case.
pub proof fn header_names_are_kept_in_lower_case(lines: Seq<Seq<char>>, name: Seq<char>)
    requires
        header_map(lines).contains_key(name),
    ensures
        lower(name) == name,
    decreases lines.len(),
{
    match split_once(lines.last(), ":"@) {
        Some((written, _)) => {
            if name == lower(trim(written)) {
                lemma_lower_twice(trim(written));
            } else {
                header_names_are_kept_in_lower_case(lines.drop_last(), name);
            }
        },
        None => {
            header_names_are_kept_in_lower_case(lines.drop_last(), name);
        },
    }
}

// ---------------------------------------------------------------------------
// What a client reads
// ---------------------------------------------------------------------------
/// The stream that a target names: the one whose name stands in it in any letter case,
/// audio before control before video; a target with a stream number, or the address of
/// the session, is the video; anything else names none.
pub proof fn targets_name_streams(target: &str, media: Option<MediaKind>)
    requires
        call_ensures(media_kind_for_target, (target,), media),
    ensures
        ({
            let t = lower(target@);
            let video = contains(t, "video"@) || contains(t, "streamid"@) || starts_with(
                t,
                "rtsp://"@,
            );
            &&& media == Some(MediaKind::Audio) <==> contains(t, "audio"@)
            &&& media == Some(MediaKind::Control) <==> contains(t, "control"@) && !contains(
                t,
                "audio"@,
            )
            &&& media == Some(MediaKind::Video) <==> video && !contains(t, "control"@) && !contains(
                t,
                "audio"@,
            )
        }),
{
}

/// The sequence number of a request is the value of its `CSeq` header, and `1` where it
/// has none.
pub proof fn sequence_numbers_come_from_the_header(request: &RtspRequest, cseq: &str)
    requires
        call_ensures(RtspRequest::cseq, (request,), cseq),
    ensures
        request@.headers.contains_key("cseq"@) ==> cseq@ == request@.headers["cseq"@],
        !request@.headers.contains_key("cseq"@) ==> cseq@ == "1"@,
{
}

/// The connection stays open where the `Connection` header says `keep-alive`, in any
/// letter case, and only there.
pub proof fn connections_are_kept_on_request(request: &RtspRequest, keep: bool)
    requires
        call_ensures(RtspRequest::requested_keep_alive, (request,), keep),
    ensures
        keep <==> request@.headers.contains_key("connection"@) && lower(
            request@.headers["connection"@],
        ) == lower("keep-alive"@),
{
}

/// The last line of a response that reports success, with the blank line after it.
pub open spec fn closing_lines(close: bool) -> Seq<char> {
    if close {
        "Connection: close\r\n\r\n"@
    } else {
        "Connection: keep-alive\r\n\r\n"@
    }
}

proof fn lemma_two_headers(a: (Seq<char>, Seq<char>), b: (Seq<char>, Seq<char>))
    ensures
        header_text(seq![a]) == a.0 + ": "@ + a.1 + "\r\n"@,
        header_text(seq![a, b]) == a.0 + ": "@ + a.1 + "\r\n"@ + b.0 + ": "@ + b.1 + "\r\n"@,
{
    let none = Seq::<(Seq<char>, Seq<char>)>::empty();
    assert(seq![a].drop_last() =~= none);
    assert(header_text(none) =~= Seq::<char>::empty());
    assert(seq![a, b].drop_last() =~= seq![a]);
    assert(header_text(seq![a]) =~= a.0 + ": "@ + a.1 + "\r\n"@);
    assert(header_text(seq![a, b]) =~= a.0 + ": "@ + a.1 + "\r\n"@ + b.0 + ": "@ + b.1 + "\r\n"@);
}

proof fn lemma_methods_differ()
    ensures
        "OPTIONS"@ != "DESCRIBE"@,
        "OPTIONS"@ != "SETUP"@,
        "OPTIONS"@ != "ANNOUNCE"@,
        "OPTIONS"@ != "PLAY"@,
        "OPTIONS"@ != "GET_PARAMETER"@,
        "OPTIONS"@ != "TEARDOWN"@,
        "DESCRIBE"@ != "SETUP"@,
        "DESCRIBE"@ != "ANNOUNCE"@,
        "DESCRIBE"@ != "PLAY"@,
        "DESCRIBE"@ != "GET_PARAMETER"@,
        "DESCRIBE"@ != "TEARDOWN"@,
        "SETUP"@ != "ANNOUNCE"@,
        "SETUP"@ != "PLAY"@,
        "SETUP"@ != "GET_PARAMETER"@,
        "SETUP"@ != "TEARDOWN"@,
        "PLAY"@ != "TEARDOWN"@,
{
    reveal_strlit("OPTIONS");
    reveal_strlit("DESCRIBE");
    reveal_strlit("SETUP");
    reveal_strlit("ANNOUNCE");
    reveal_strlit("PLAY");
    reveal_strlit("GET_PARAMETER");
    reveal_strlit("TEARDOWN");
    assert("OPTIONS"@.len() == 7 && "SETUP"@.len() == 5 && "PLAY"@.len() == 4);
    assert("GET_PARAMETER"@.len() == 13);
    assert("DESCRIBE"@[0] == 'D' && "ANNOUNCE"@[0] == 'A' && "TEARDOWN"@[0] == 'T');
}

/// What each method is answered: `OPTIONS` with the methods that there are, `SETUP` with
/// the port of the named stream, the next port and the address of this host,
/// `ANNOUNCE`, `PLAY`, `GET_PARAMETER` and `TEARDOWN` with the session alone, and any
/// other method but `DESCRIBE` with a refusal. Every answer carries the sequence number
/// of the request.
pub proof fn methods_lead_to_their_answers(
    request: &RtspRequest,
    source_ip: &str,
    close: bool,
    cseq: &str,
    target: &str,
    port: u16,
    out: String,
)
    requires
        call_ensures(rtsp_response, (request, source_ip, close), out),
        call_ensures(RtspRequest::cseq, (request,), cseq),
        call_ensures(setup_port_for_target, (target,), port),
        target@ == request@.target,
    ensures
        request@.method == "OPTIONS"@ ==> out@ == "RTSP/1.0 200 OK\r\nCSeq: "@ + cseq@
            + "\r\nPublic: OPTIONS, DESCRIBE, SETUP, ANNOUNCE, PLAY, GET_PARAMETER, TEARDOWN\r\nSession: DEADBEEFCAFE\r\n"@
            + closing_lines(close),
        request@.method == "SETUP"@ ==> out@ == "RTSP/1.0 200 OK\r\nCSeq: "@ + cseq@
            + "\r\nSession: DEADBEEFCAFE;timeout=90\r\nTransport: unicast;server_port="@ + decimal(
            port as nat,
        ) + "-"@ + decimal((port + 1) as nat) + ";source="@ + source_ip@ + "\r\n"@ + closing_lines(
            close,
        ),
        request@.method == "ANNOUNCE"@ || request@.method == "PLAY"@ || request@.method
            == "GET_PARAMETER"@ || request@.method == "TEARDOWN"@ ==> out@
            == "RTSP/1.0 200 OK\r\nCSeq: "@ + cseq@
            + "\r\nSession: DEADBEEFCAFE;timeout=90\r\n"@ + closing_lines(close),
        request@.method != "OPTIONS"@ && request@.method != "DESCRIBE"@ && request@.method
            != "SETUP"@ && request@.method != "ANNOUNCE"@ && request@.method != "PLAY"@
            && request@.method != "GET_PARAMETER"@ && request@.method != "TEARDOWN"@ ==> out@
            == "RTSP/1.0 405 Method Not Allowed\r\nCSeq: "@ + cseq@ + "\r\n\r\n"@,
{
    lemma_methods_differ();
    let method = request@.method;
    if method == "OPTIONS"@ {
        lemma_options_answer(cseq@, close);
    } else if method == "SETUP"@ {
        lemma_setup_answer(cseq@, request@.target, source_ip@, close);
    } else if is_plain_method(method) {
        lemma_plain_answer(cseq@, close);
    }
}

proof fn lemma_success(cseq: Seq<char>, headers: Seq<(Seq<char>, Seq<char>)>, close: bool)
    ensures
        response_text(cseq, headers, ""@, close) == "RTSP/1.0 200 OK\r\nCSeq: "@ + cseq + ("\r\n"@
            + header_text(headers)) + closing_lines(close),
{
    reveal_strlit("");
    assert(response_text(cseq, headers, ""@, close) =~= "RTSP/1.0 200 OK\r\nCSeq: "@ + cseq + (
    "\r\n"@ + header_text(headers)) + closing_lines(close));
}

proof fn lemma_options_answer(cseq: Seq<char>, close: bool)
    ensures
        response_text(
            cseq,
            seq![
                (
                    "Public"@,
                    "OPTIONS, DESCRIBE, SETUP, ANNOUNCE, PLAY, GET_PARAMETER, TEARDOWN"@,
                ),
                ("Session"@, SESSION_ID@),
            ],
            ""@,
            close,
        ) == "RTSP/1.0 200 OK\r\nCSeq: "@ + cseq
            + "\r\nPublic: OPTIONS, DESCRIBE, SETUP, ANNOUNCE, PLAY, GET_PARAMETER, TEARDOWN\r\nSession: DEADBEEFCAFE\r\n"@
            + closing_lines(close),
{
    let public = (
        "Public"@,
        "OPTIONS, DESCRIBE, SETUP, ANNOUNCE, PLAY, GET_PARAMETER, TEARDOWN"@,
    );
    let session = ("Session"@, SESSION_ID@);
    lemma_two_headers(public, session);
    lemma_options_headers();
    lemma_success(cseq, seq![public, session], close);
}

proof fn lemma_plain_answer(cseq: Seq<char>, close: bool)
    ensures
        response_text(cseq, seq![("Session"@, SESSION_ID@ + ";timeout=90"@)], ""@, close)
            == "RTSP/1.0 200 OK\r\nCSeq: "@ + cseq
            + "\r\nSession: DEADBEEFCAFE;timeout=90\r\n"@ + closing_lines(close),
{
    let timed = ("Session"@, SESSION_ID@ + ";timeout=90"@);
    lemma_two_headers(timed, timed);
    lemma_session_header();
    lemma_success(cseq, seq![timed], close);
}

/// Parts that are put together in another order of brackets.
proof fn lemma_regroup(
    start: Seq<char>,
    first: Seq<char>,
    name: Seq<char>,
    kind: Seq<char>,
    low: Seq<char>,
    dash: Seq<char>,
    high: Seq<char>,
    source: Seq<char>,
    ip: Seq<char>,
    end: Seq<char>,
    closing: Seq<char>,
)
    ensures
        start + (first + (name + (kind + low + dash + high + source + ip) + end)) + closing == start
            + (first + (name + kind)) + low + dash + high + source + ip + end + closing,
{
    assert(start + (first + (name + (kind + low + dash + high + source + ip) + end)) + closing
        =~= start + (first + (name + kind)) + low + dash + high + source + ip + end + closing);
}

proof fn lemma_setup_answer(
    cseq: Seq<char>,
    target: Seq<char>,
    source_ip: Seq<char>,
    close: bool,
)
    ensures
        response_text(
            cseq,
            seq![
                ("Session"@, SESSION_ID@ + ";timeout=90"@),
                ("Transport"@, transport_text(target, source_ip)),
            ],
            ""@,
            close,
        ) == "RTSP/1.0 200 OK\r\nCSeq: "@ + cseq
            + "\r\nSession: DEADBEEFCAFE;timeout=90\r\nTransport: unicast;server_port="@ + decimal(
            setup_port(target) as nat,
        ) + "-"@ + decimal((setup_port(target) + 1) as nat) + ";source="@ + source_ip + "\r\n"@
            + closing_lines(close),
{
    let timed = ("Session"@, SESSION_ID@ + ";timeout=90"@);
    let text = transport_text(target, source_ip);
    let transport = ("Transport"@, text);
    lemma_two_headers(timed, transport);
    lemma_session_header();
    lemma_transport_header();
    lemma_success(cseq, seq![timed, transport], close);
    let crlf = "\r\n"@;
    let session = "\r\nSession: DEADBEEFCAFE;timeout=90\r\n"@;
    let name = "Transport"@ + ": "@;
    assert(crlf + header_text(seq![timed, transport]) =~= (crlf + (timed.0 + ": "@ + timed.1 + crlf))
        + (name + text + crlf));
    lemma_regroup(
        "RTSP/1.0 200 OK\r\nCSeq: "@ + cseq,
        session,
        name,
        "unicast;server_port="@,
        decimal(setup_port(target) as nat),
        "-"@,
        decimal((setup_port(target) + 1) as nat),
        ";source="@,
        source_ip,
        crlf,
        closing_lines(close),
    );
}

proof fn lemma_options_headers()
    ensures
        "\r\n"@ + ("Public"@ + ": "@
            + "OPTIONS, DESCRIBE, SETUP, ANNOUNCE, PLAY, GET_PARAMETER, TEARDOWN"@ + "\r\n"@
            + "Session"@ + ": "@ + SESSION_ID@ + "\r\n"@)
            == "\r\nPublic: OPTIONS, DESCRIBE, SETUP, ANNOUNCE, PLAY, GET_PARAMETER, TEARDOWN\r\nSession: DEADBEEFCAFE\r\n"@,
{
    reveal_strlit("\r\n");
    reveal_strlit("Public");
    reveal_strlit(": ");
    reveal_strlit("OPTIONS, DESCRIBE, SETUP, ANNOUNCE, PLAY, GET_PARAMETER, TEARDOWN");
    reveal_strlit("Session");
    reveal_strlit("DEADBEEFCAFE");
    reveal_strlit(
        "\r\nPublic: OPTIONS, DESCRIBE, SETUP, ANNOUNCE, PLAY, GET_PARAMETER, TEARDOWN\r\nSession: DEADBEEFCAFE\r\n",
    );
    assert("\r\n"@ + ("Public"@ + ": "@
        + "OPTIONS, DESCRIBE, SETUP, ANNOUNCE, PLAY, GET_PARAMETER, TEARDOWN"@ + "\r\n"@
        + "Session"@ + ": "@ + SESSION_ID@ + "\r\n"@)
        =~= "\r\nPublic: OPTIONS, DESCRIBE, SETUP, ANNOUNCE, PLAY, GET_PARAMETER, TEARDOWN\r\nSession: DEADBEEFCAFE\r\n"@);
}

proof fn lemma_session_header()
    ensures
        "\r\n"@ + ("Session"@ + ": "@ + (SESSION_ID@ + ";timeout=90"@) + "\r\n"@)
            == "\r\nSession: DEADBEEFCAFE;timeout=90\r\n"@,
{
    reveal_strlit("\r\n");
    reveal_strlit(": ");
    reveal_strlit("Session");
    reveal_strlit("DEADBEEFCAFE");
    reveal_strlit(";timeout=90");
    reveal_strlit("\r\nSession: DEADBEEFCAFE;timeout=90\r\n");
    assert("\r\n"@ + ("Session"@ + ": "@ + (SESSION_ID@ + ";timeout=90"@) + "\r\n"@)
        =~= "\r\nSession: DEADBEEFCAFE;timeout=90\r\n"@);
}

proof fn lemma_transport_header()
    ensures
        "Transport"@ + ": "@ + "unicast;server_port="@ == "Transport: unicast;server_port="@,
        "\r\nSession: DEADBEEFCAFE;timeout=90\r\n"@ + "Transport: unicast;server_port="@
            == "\r\nSession: DEADBEEFCAFE;timeout=90\r\nTransport: unicast;server_port="@,
{
    reveal_strlit(": ");
    reveal_strlit("Transport");
    reveal_strlit("unicast;server_port=");
    reveal_strlit("Transport: unicast;server_port=");
    reveal_strlit("\r\nSession: DEADBEEFCAFE;timeout=90\r\n");
    reveal_strlit("\r\nSession: DEADBEEFCAFE;timeout=90\r\nTransport: unicast;server_port=");
    assert("Transport"@ + ": "@ + "unicast;server_port="@ =~= "Transport: unicast;server_port="@);
    assert("\r\nSession: DEADBEEFCAFE;timeout=90\r\n"@ + "Transport: unicast;server_port="@
        =~= "\r\nSession: DEADBEEFCAFE;timeout=90\r\nTransport: unicast;server_port="@);
}

/// The session description, line by line: one video stream on port 47998 with payload
/// type 96 and a clock of 90000, one audio stream on port 48000 with payload type 97 and
/// stereo Opus, both at the address of the host.
pub proof fn descriptions_offer_video_and_audio(source_ip: &str, out: String)
    requires
        call_ensures(describe_sdp, (source_ip,), out),
        is_one_line(source_ip@),
    ensures
        split_on(out@, "\r\n"@) == seq![
            "v=0"@,
            "o=sunrise 0 0 IN IP4 "@ + source_ip@,
            "s=Sunrise Desktop"@,
            "c=IN IP4 "@ + source_ip@,
            "t=0 0"@,
            "a=control:*"@,
            "m=video 47998 RTP/AVP 96"@,
            "a=rtpmap:96 H264/90000"@,
            "a=fmtp:96 packetization-mode=1"@,
            "a=control:streamid=video"@,
            "m=audio 48000 RTP/AVP 97"@,
            "a=rtpmap:97 opus/48000/2"@,
            "a=fmtp:97 minptime=10;useinbandfec=1"@,
            "a=control:streamid=audio"@,
            ""@,
        ],
{
    lemma_sdp_lines_are_plain(source_ip@);
    splitting_undoes_joining(sdp_lines(source_ip@));
}

proof fn lemma_sdp_lines_are_plain(source_ip: Seq<char>)
    requires
        is_one_line(source_ip),
    ensures
        forall|i: int|
            0 <= i < sdp_lines(source_ip).len() ==> is_one_line(#[trigger] sdp_lines(source_ip)[i]),
{
    reveal_strlit("v=0");
    reveal_strlit("o=sunrise 0 0 IN IP4 ");
    reveal_strlit("s=Sunrise Desktop");
    reveal_strlit("c=IN IP4 ");
    reveal_strlit("t=0 0");
    reveal_strlit("a=control:*");
    reveal_strlit("m=video 47998 RTP/AVP 96");
    reveal_strlit("a=rtpmap:96 H264/90000");
    reveal_strlit("a=fmtp:96 packetization-mode=1");
    reveal_strlit("a=control:streamid=video");
    reveal_strlit("m=audio 48000 RTP/AVP 97");
    reveal_strlit("a=rtpmap:97 opus/48000/2");
    reveal_strlit("a=fmtp:97 minptime=10;useinbandfec=1");
    reveal_strlit("a=control:streamid=audio");
    reveal_strlit("");
    let owner = "o=sunrise 0 0 IN IP4 "@;
    let address = "c=IN IP4 "@;
    assert(is_one_line(owner + source_ip)) by {
        let line = owner + source_ip;
        assert forall|i: int| 0 <= i < line.len() implies #[trigger] line[i] != '\n' by {
            if i >= owner.len() {
                assert(line[i] == source_ip[i - owner.len()]);
            }
        }
    }
    assert(is_one_line(address + source_ip)) by {
        let line = address + source_ip;
        assert forall|i: int| 0 <= i < line.len() implies #[trigger] line[i] != '\n' by {
            if i >= address.len() {
                assert(line[i] == source_ip[i - address.len()]);
            }
        }
    }
    assert(is_one_line("v=0"@) && is_one_line("s=Sunrise Desktop"@) && is_one_line("t=0 0"@));
    assert(is_one_line("a=control:*"@) && is_one_line("m=video 47998 RTP/AVP 96"@));
    assert(is_one_line("a=rtpmap:96 H264/90000"@) && is_one_line("a=control:streamid=video"@));
    assert(is_one_line("a=fmtp:96 packetization-mode=1"@));
    assert(is_one_line("m=audio 48000 RTP/AVP 97"@) && is_one_line("a=rtpmap:97 opus/48000/2"@));
    assert(is_one_line("a=fmtp:97 minptime=10;useinbandfec=1"@));
    assert(is_one_line("a=control:streamid=audio"@) && is_one_line(""@));
}

/// A `DESCRIBE` is answered with the session description: a client finds it after the
/// first blank line, and before it the status, the sequence number of its request, the
/// kind and the length in bytes of the description, and the session.
pub proof fn descriptions_are_sent_with_their_length(
    request: &RtspRequest,
    source_ip: &str,
    close: bool,
    cseq: &str,
    description: String,
    out: String,
)
    requires
        call_ensures(rtsp_response, (request, source_ip, close), out),
        call_ensures(RtspRequest::cseq, (request,), cseq),
        call_ensures(describe_sdp, (source_ip,), description),
        request@.method == "DESCRIBE"@,
        is_one_line(cseq@),
    ensures
        split_once(out@, "\r\n\r\n"@) matches Some((head, body)) && body == description@ && split_on(
            head,
            "\r\n"@,
        ) == seq![
            "RTSP/1.0 200 OK"@,
            "CSeq: "@ + cseq@,
            "Content-Type: application/sdp"@,
            "Session: DEADBEEFCAFE"@,
            "Content-Length: "@ + decimal(encode_utf8(description@).len()),
            if close {
                "Connection: close"@
            } else {
                "Connection: keep-alive"@
            },
        ],
{
    lemma_methods_differ();
    reveal_strlit("Content-Type");
    reveal_strlit("application/sdp");
    reveal_strlit("Session");
    reveal_strlit("DEADBEEFCAFE");
    reveal_strlit(": ");
    reveal_strlit("Content-Type: application/sdp");
    reveal_strlit("Session: DEADBEEFCAFE");
    let headers = seq![("Content-Type"@, "application/sdp"@), ("Session"@, SESSION_ID@)];
    assert(are_plain(cseq@, headers));
    lemma_description_is_not_empty(source_ip@);
    responses_are_framed(cseq@, headers, description@, close);
    assert("Content-Type"@ + ": "@ + "application/sdp"@ =~= "Content-Type: application/sdp"@);
    assert("Session"@ + ": "@ + SESSION_ID@ =~= "Session: DEADBEEFCAFE"@);
    let lines = response_lines(cseq@, headers, description@, close);
    assert(header_line_list(headers) =~= seq![
        "Content-Type: application/sdp"@,
        "Session: DEADBEEFCAFE"@,
    ]);
    assert(lines =~= seq![
        "RTSP/1.0 200 OK"@,
        "CSeq: "@ + cseq@,
        "Content-Type: application/sdp"@,
        "Session: DEADBEEFCAFE"@,
        "Content-Length: "@ + decimal(encode_utf8(description@).len()),
        if close {
            "Connection: close"@
        } else {
            "Connection: keep-alive"@
        },
    ]);
}

proof fn lemma_description_is_not_empty(source_ip: Seq<char>)
    ensures
        sdp(source_ip).len() > 0,
{
    reveal_strlit("\r\n");
    let lines = sdp_lines(source_ip);
    assert(join(lines, "\r\n"@) == join(lines.drop_last(), "\r\n"@) + "\r\n"@ + lines.last());
}

// ---------------------------------------------------------------------------
// How requests are read
// ---------------------------------------------------------------------------
/// A request line gives back the method and the target that it was written with, and the
/// payload is kept; a header is found under its name in lower case, without white space
/// around name and value, unless a later one has the same name.
pub proof fn requests_are_read_back(
    lines: &Vec<String>,
    payload: String,
    request: Result<RtspRequest, RtspError>,
    method: Seq<char>,
    target: Seq<char>,
    k: int,
    name: Seq<char>,
    value: Seq<char>,
)
    requires
        lines@.len() > 0,
        call_ensures(build_request, (lines, payload), request),
        is_word(method),
        is_word(target),
        lines@[0]@ == method + seq![' '] + target + seq![' '] + "RTSP/1.0"@,
    ensures
        request matches Ok(r) && r@.method == method && r@.target == target && r@.payload
            == payload@,
        1 <= k < lines@.len() && !name.contains(':') && lines@[k]@ == name + seq![':'] + value && (
        forall|j: int|
            k < j < lines@.len() ==> {
                match split_once((#[trigger] lines@[j])@, ":"@) {
                    Some((other, _)) => lower(trim(other)) != lower(trim(name)),
                    None => true,
                }
            }) ==> {
            let headers = request->Ok_0@.headers;
            headers.contains_key(lower(trim(name))) && headers[lower(trim(name))] == trim(value)
        },
{
    reveal_strlit("RTSP/1.0");
    let version = "RTSP/1.0"@;
    let all = texts(lines@);
    assert(all.len() == lines@.len() && all[0] == lines@[0]@);
    let line = method + (seq![' '] + (target + (seq![' '] + version)));
    assert(lines@[0]@ =~= line);
    lemma_words_front(method, seq![' '] + (target + (seq![' '] + version)));
    lemma_words_after_space(target + (seq![' '] + version));
    lemma_words_front(target, seq![' '] + version);
    lemma_words_after_space(version);
    assert(version + Seq::empty() =~= version);
    assert(is_word(version));
    lemma_words_front(version, Seq::empty());
    assert(words(Seq::<char>::empty()) =~= Seq::<Seq<char>>::empty());
    assert(words(line) =~= seq![method, target, version]);
    if 1 <= k < lines@.len() && !name.contains(':') && lines@[k]@ == name + seq![':'] + value && (
    forall|j: int|
        k < j < lines@.len() ==> {
            match split_once((#[trigger] lines@[j])@, ":"@) {
                Some((other, _)) => lower(trim(other)) != lower(trim(name)),
                None => true,
            }
        }) {
        assert forall|j: int| k < j < all.len() implies {
            match split_once(#[trigger] all[j], ":"@) {
                Some((other, _)) => lower(trim(other)) != lower(trim(name)),
                None => true,
            }
        } by {
            assert(all[j] == lines@[j]@);
        }
        assert(all[k] == lines@[k]@);
        lemma_header_found(all, k, name, value);
    }
}

proof fn lemma_header_found(lines: Seq<Seq<char>>, k: int, name: Seq<char>, value: Seq<char>)
    requires
        1 <= k < lines.len(),
        !name.contains(':'),
        lines[k] == name + seq![':'] + value,
        forall|j: int|
            k < j < lines.len() ==> {
                match split_once(#[trigger] lines[j], ":"@) {
                    Some((other, _)) => lower(trim(other)) != lower(trim(name)),
                    None => true,
                }
            },
    ensures
        header_map(lines).contains_key(lower(trim(name))),
        header_map(lines)[lower(trim(name))] == trim(value),
    decreases lines.len(),
{
    reveal_strlit(":");
    assert(":"@ =~= seq![':']);
    if k == lines.len() - 1 {
        lemma_find_char(name, ':', value);
    } else {
        let shorter = lines.drop_last();
        assert forall|j: int| k < j < shorter.len() implies {
            match split_once(#[trigger] shorter[j], ":"@) {
                Some((other, _)) => lower(trim(other)) != lower(trim(name)),
                None => true,
            }
        } by {
            assert(shorter[j] == lines[j]);
        }
        lemma_header_found(shorter, k, name, value);
        let last = lines[lines.len() - 1];
        assert(match split_once(last, ":"@) {
            Some((other, _)) => lower(trim(other)) != lower(trim(name)),
            None => true,
        });
    }
}

/// The headers of a request end at the first blank line, the bytes 13 10 13 10.
pub proof fn headers_end_at_the_first_blank_line(buffer: &[u8], end: Option<usize>)
    requires
        call_ensures(find_header_end, (buffer,), end),
    ensures
        match end {
            Some(e) => {
                &&& e + 4 <= buffer@.len()
                &&& buffer@[e as int] == 13 && buffer@[e + 1] == 10 && buffer@[e + 2] == 13
                    && buffer@[e + 3] == 10
                &&& forall|i: int|
                    0 <= i < e ==> !(buffer@[i] == 13 && buffer@[i + 1] == 10 && buffer@[i + 2] == 13
                        && #[trigger] buffer@[i + 3] == 10)
            },
            None => forall|i: int|
                0 <= i && i + 3 < buffer@.len() ==> !(buffer@[i] == 13 && buffer@[i + 1] == 10
                    && buffer@[i + 2] == 13 && #[trigger] buffer@[i + 3] == 10),
        },
{
    let b = buffer@;
    lemma_find_from(b, blank_line(), 0);
    match end {
        Some(e) => {
            let here = b.subrange(e as int, e + 4);
            assert(here == blank_line());
            assert(here[0] == b[e as int] && here[1] == b[e + 1] && here[2] == b[e + 2] && here[3]
                == b[e + 3]);
        },
        None => {},
    }
    assert forall|i: int|
        0 <= i && i + 3 < b.len() && (end matches Some(e) ==> i < e) implies !(b[i] == 13 && b[i + 1]
        == 10 && b[i + 2] == 13 && #[trigger] b[i + 3] == 10) by {
        if b[i] == 13 && b[i + 1] == 10 && b[i + 2] == 13 && b[i + 3] == 10 {
            assert(b.subrange(i, i + 4) =~= blank_line());
            assert(occurs_at(b, blank_line(), i));
        }
    }
}

/// A request is there in full once as many bytes as its headers declare have come after
/// the blank line; it is then taken out, those bytes are its payload, and what follows
/// stays.
pub proof fn requests_are_as_long_as_they_declare(
    bytes: &[u8],
    end: Option<usize>,
    head: &str,
    length: Result<usize, RtspError>,
    buffer: &mut Vec<u8>,
    taken: Result<Option<RtspRequest>, RtspError>,
)
    requires
        call_ensures(find_header_end, (bytes,), end),
        end is Some,
        valid_utf8(bytes@.take(end->0 as int)),
        head@ == decode_utf8(bytes@.take(end->0 as int)),
        call_ensures(content_length, (head,), length),
        length is Ok,
        end->0 + 4 + length->Ok_0 <= usize::MAX,
        call_ensures(take_request, (buffer,), taken),
        old(buffer)@ == bytes@,
    ensures
        ({
            let n = end->0 + 4 + length->Ok_0;
            &&& bytes@.len() < n ==> (taken matches Ok(None)) && final(buffer)@ == bytes@
            &&& bytes@.len() >= n ==> {
                &&& final(buffer)@ == bytes@.skip(n as int)
                &&& taken matches Ok(found) ==> found is Some && found->0@.payload == text_of_bytes(
                    bytes@.subrange(end->0 + 4, n as int),
                )
            }
        }),
{
    let n = (end->0 + 4 + length->Ok_0) as nat;
    assert(declared_request_len(bytes@) == Ok::<_, RtspError>(Some(n)));
    if bytes@.len() >= n {
        lemma_find_from(bytes@, blank_line(), 0);
        lemma_prefix_keeps_length(bytes@, n as int);
        let raw = bytes@.take(n as int);
        lemma_find_in_prefix(bytes@, n as int, blank_line(), 0);
        assert(raw.subrange(end->0 + 4, n as int) =~= bytes@.subrange(end->0 + 4, n as int));
    }
}

/// The first header of a request that declares a length declares it in decimal digits;
/// without such a header there is no payload.
pub proof fn lengths_are_declared_in_digits(
    first: Seq<char>,
    n: nat,
    headers: &str,
    length: Result<usize, RtspError>,
    alone: &str,
    none: Result<usize, RtspError>,
)
    requires
        call_ensures(content_length, (headers,), length),
        is_one_line(first),
        n <= usize::MAX,
        headers@ == first + "\r\n"@ + "Content-Length: "@ + decimal(n),
        call_ensures(content_length, (alone,), none),
        alone@ == first,
    ensures
        length == Ok::<_, RtspError>(n as usize),
        none == Ok::<_, RtspError>(0usize),
{
    let digits = decimal(n);
    let line = "Content-Length: "@ + digits;
    reveal_strlit(":");
    reveal_strlit("Content-Length: ");
    reveal_strlit("Content-Length");
    lemma_decimal_digits(n);
    parse_unsigned_of_decimal(n, usize::MAX as nat);
    let name = "Content-Length"@;
    assert(line =~= name + ":"@ + (seq![' '] + digits));
    lemma_find_colon(name, seq![' '] + digits);
    assert(trim_start(name) == name);
    assert(trim_end(name) == name);
    lemma_trim_digits(digits);
    assert(is_length_line(line));
    assert forall|k: int| 0 <= k < line.len() implies #[trigger] line[k] != '\n' by {
        if k >= 16 {
            assert(line[k] == digits[k - 16]);
            assert(is_digit(digits[k - 16]));
        }
    }
    let lines = seq![first, line];
    assert(lines.drop_last() =~= seq![first]);
    assert(join(seq![first], "\r\n"@) == first);
    assert(headers@ =~= join(lines, "\r\n"@));
    splitting_undoes_joining(lines);
    reveal_with_fuel(declared_length, 2);
    splitting_undoes_joining(seq![first]);
}

/// A connection may end between two requests but not within one, and a request may not
/// grow beyond a million bytes or so.
pub proof fn requests_have_a_limit(
    buffer: &mut Vec<u8>,
    chunk: &[u8],
    accepted: Result<(), RtspError>,
    left: &Vec<u8>,
    closed: Result<(), RtspError>,
)
    requires
        call_ensures(accept_bytes, (buffer, chunk), accepted),
        call_ensures(connection_closed, (left,), closed),
    ensures
        final(buffer)@ == old(buffer)@ + chunk@,
        accepted is Err <==> old(buffer)@.len() + chunk@.len() > 1_048_576,
        closed is Ok <==> left@.len() == 0,
{
}

/// A request that is there in full is read from its lines and from the bytes after the
/// blank line; one of which less is there than its headers declare is refused.
pub proof fn whole_requests_are_read(
    raw: &[u8],
    end: Option<usize>,
    head: &str,
    length: Result<usize, RtspError>,
    lines: &Vec<String>,
    payload: String,
    built: Result<RtspRequest, RtspError>,
    request: Result<RtspRequest, RtspError>,
    complete: Result<Option<usize>, RtspError>,
)
    requires
        call_ensures(parse_rtsp_request, (raw,), request),
        call_ensures(complete_request_len, (raw,), complete),
        call_ensures(find_header_end, (raw,), end),
        end is Some,
        valid_utf8(raw@.take(end->0 as int)),
        head@ == decode_utf8(raw@.take(end->0 as int)),
        call_ensures(content_length, (head,), length),
        length is Ok,
        end->0 + 4 + length->Ok_0 <= usize::MAX,
        texts(lines@) == split_on(head@, "\r\n"@),
        raw@.len() >= end->0 + 4 + length->Ok_0 ==> payload@ == text_of_bytes(
            raw@.subrange(end->0 + 4, end->0 + 4 + length->Ok_0),
        ),
        call_ensures(build_request, (lines, payload), built),
    ensures
        ({
            let n = end->0 + 4 + length->Ok_0;
            &&& raw@.len() < n ==> request == Err::<RtspRequest, _>(RtspError::PayloadTooShort)
                && complete == Ok::<_, RtspError>(None::<usize>)
            &&& raw@.len() >= n ==> {
                &&& complete == Ok::<_, RtspError>(Some(n as usize))
                &&& built is Ok ==> request is Ok && request->Ok_0@ == built->Ok_0@
                &&& built is Err ==> request is Err && request->Err_0 == built->Err_0
            }
        }),
{
    let n = (end->0 + 4 + length->Ok_0) as nat;
    assert(declared_request_len(raw@) == Ok::<_, RtspError>(Some(n)));
}

/// Bytes without a blank line are no request yet.
pub proof fn requests_need_a_blank_line(
    raw: &[u8],
    end: Option<usize>,
    request: Result<RtspRequest, RtspError>,
    complete: Result<Option<usize>, RtspError>,
)
    requires
        call_ensures(parse_rtsp_request, (raw,), request),
        call_ensures(complete_request_len, (raw,), complete),
        call_ensures(find_header_end, (raw,), end),
    ensures
        end is None ==> request == Err::<RtspRequest, _>(RtspError::HeadersIncomplete) && complete
            == Ok::<_, RtspError>(None::<usize>),
{
}

/// A request line without a method, a target or a protocol, or with another protocol than
/// `RTSP/1.0`, is refused, and the first thing that lacks is told.
pub proof fn incomplete_request_lines_are_refused(
    lines: &Vec<String>,
    payload: String,
    request: Result<RtspRequest, RtspError>,
    first: Seq<char>,
    second: Seq<char>,
    third: Seq<char>,
)
    requires
        lines@.len() > 0,
        call_ensures(build_request, (lines, payload), request),
        is_word(first),
        is_word(second),
        is_word(third),
        third != "RTSP/1.0"@,
    ensures
        lines@[0]@ == first ==> request == Err::<RtspRequest, _>(RtspError::MissingTarget),
        lines@[0]@ == first + seq![' '] + second ==> request == Err::<RtspRequest, _>(
            RtspError::MissingProtocol,
        ),
        lines@[0]@ == first + seq![' '] + second + seq![' '] + third ==> request == Err::<
            RtspRequest,
            _,
        >(RtspError::UnsupportedProtocol),
        lines@[0]@.len() == 0 ==> request == Err::<RtspRequest, _>(RtspError::MissingMethod),
{
    let all = texts(lines@);
    assert(all.len() == lines@.len() && all[0] == lines@[0]@);
    let none = Seq::<char>::empty();
    assert(words(none) =~= Seq::<Seq<char>>::empty());
    assert(first + none =~= first && second + none =~= second && third + none =~= third);
    lemma_words_front(first, none);
    lemma_words_front(second, none);
    lemma_words_front(third, none);
    lemma_words_front(first, seq![' '] + second);
    lemma_words_after_space(second);
    assert(first + seq![' '] + second =~= first + (seq![' '] + second));
    lemma_words_front(first, seq![' '] + (second + (seq![' '] + third)));
    lemma_words_after_space(second + (seq![' '] + third));
    lemma_words_front(second, seq![' '] + third);
    lemma_words_after_space(third);
    assert(first + seq![' '] + second + seq![' '] + third =~= first + (seq![' '] + (second + (seq![
        ' ',
    ] + third))));
    if all[0].len() == 0 {
        assert(all[0] =~= none);
    }
}

/// Headers that are not UTF-8, or that declare a length which is no number, make a request
/// fail with just that.
pub proof fn unreadable_headers_are_refused(
    raw: &[u8],
    end: Option<usize>,
    head: &str,
    length: Result<usize, RtspError>,
    request: Result<RtspRequest, RtspError>,
)
    requires
        call_ensures(parse_rtsp_request, (raw,), request),
        call_ensures(find_header_end, (raw,), end),
        end is Some,
        valid_utf8(raw@.take(end->0 as int)) ==> head@ == decode_utf8(raw@.take(end->0 as int)),
        call_ensures(content_length, (head,), length),
    ensures
        !valid_utf8(raw@.take(end->0 as int)) ==> request == Err::<RtspRequest, _>(
            RtspError::HeadersNotUtf8,
        ),
        valid_utf8(raw@.take(end->0 as int)) && length is Err ==> request == Err::<RtspRequest, _>(
            RtspError::InvalidContentLength,
        ),
{
}

} // verus!
