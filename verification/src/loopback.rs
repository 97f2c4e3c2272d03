use vstd::prelude::*;
use vstd::utf8::{decode_utf8, valid_utf8};

use vstd::utf8::encode_utf8;

use crate::config_sources::{parse_url, parsed_url};
use crate::text::{
    decimal, has_prefix, has_suffix, push_decimal, push_text, text_ends_with, text_eq, text_starts_with,
};

verus! {

/// The longest request line the activation callback accepts, in bytes.
pub const MAX_LOOPBACK_REQUEST_LINE_BYTES: usize = 4096;

/// Why a request line could not be read.
#[derive(Debug)]
pub enum RequestLineError {
    /// The stream failed; its message.
    Read(String),
    /// The stream ended before a line was complete.
    UnexpectedEof,
    /// More than the longest line was received without it being complete.
    TooLong,
    /// The line is not UTF-8.
    NotUtf8,
}

impl RequestLineError {
    /// What went wrong, in words.
    pub fn message(&self) -> (text: String)
        ensures
            text@ == match self {
                RequestLineError::Read(message) => message@,
                RequestLineError::UnexpectedEof => "HTTP request ended before its request line"@,
                RequestLineError::TooLong => "HTTP request line is too long"@,
                RequestLineError::NotUtf8 => "HTTP request line is not UTF-8"@,
            },
    {
        match self {
            RequestLineError::Read(message) => message.clone(),
            RequestLineError::UnexpectedEof => "HTTP request ended before its request line".to_owned(),
            RequestLineError::TooLong => "HTTP request line is too long".to_owned(),
            RequestLineError::NotUtf8 => "HTTP request line is not UTF-8".to_owned(),
        }
    }
}

/// Whether a carriage return and line feed start at `i`.
pub open spec fn crlf_at(bytes: Seq<u8>, i: int) -> bool {
    0 <= i && i + 1 < bytes.len() && bytes[i] == 13 && bytes[i + 1] == 10
}

/// The first position at or after `from` where a line ends, if any.
pub open spec fn first_crlf_from(bytes: Seq<u8>, from: int) -> Option<int>
    decreases bytes.len() - from,
{
    if from < 0 || from + 1 >= bytes.len() {
        None
    } else if crlf_at(bytes, from) {
        Some(from)
    } else {
        first_crlf_from(bytes, from + 1)
    }
}

pub proof fn lemma_first_crlf_from(bytes: Seq<u8>, from: int)
    requires
        0 <= from,
    ensures
        match first_crlf_from(bytes, from) {
            Some(i) => from <= i && crlf_at(bytes, i) && forall|j: int|
                from <= j < i ==> !crlf_at(bytes, j),
            None => forall|j: int| from <= j ==> !crlf_at(bytes, j),
        },
    decreases bytes.len() - from,
{
    if from + 1 < bytes.len() && !crlf_at(bytes, from) {
        lemma_first_crlf_from(bytes, from + 1);
    }
}

/// The first position where a line ends, if any.
pub open spec fn first_crlf(bytes: Seq<u8>) -> Option<int> {
    first_crlf_from(bytes, 0)
}

/// What the bytes received so far come to.
#[derive(Debug)]
pub enum LineProgress {
    /// The line is not complete yet.
    Incomplete,
    /// More than the longest line was received.
    TooLong,
    /// The line is complete; its text, without the line end.
    Complete(String),
    /// The line is complete but is not UTF-8.
    NotUtf8,
}

/// The request line in `received`: too long once more than the limit was received, otherwise
/// the text before the first line end, once there is one and it is UTF-8.
pub open spec fn line_progress_of(received: Seq<u8>, progress: LineProgress) -> bool {
    if received.len() > MAX_LOOPBACK_REQUEST_LINE_BYTES {
        progress is TooLong
    } else {
        match first_crlf(received) {
            None => progress is Incomplete,
            Some(end) => {
                let line = received.subrange(0, end);
                if valid_utf8(line) {
                    progress matches LineProgress::Complete(text) && text@ == decode_utf8(line)
                } else {
                    progress is NotUtf8
                }
            },
        }
    }
}

/// The first position where a line ends.
fn find_crlf(bytes: &Vec<u8>) -> (found: Option<usize>)
    ensures
        match found {
            Some(i) => first_crlf(bytes@) == Some(i as int),
            None => first_crlf(bytes@) is None,
        },
{
    if bytes.len() < 2 {
        return None;
    }
    let last = bytes.len() - 1;
    let mut i: usize = 0;
    while i < last
        invariant
            last + 1 == bytes@.len(),
            i <= last,
            first_crlf_from(bytes@, 0) == first_crlf_from(bytes@, i as int),
        decreases last - i,
    {
        if bytes[i] == 13 && bytes[i + 1] == 10 {
            return Some(i);
        }
        i = i + 1;
    }
    None
}

/// The text that `bytes` encode, when they are valid UTF-8 (`String::from_utf8`).
#[verifier::external_body]
fn string_from_utf8(bytes: Vec<u8>) -> (text: Option<String>)
    ensures
        match text {
            Some(t) => valid_utf8(bytes@) && t@ == decode_utf8(bytes@),
            None => !valid_utf8(bytes@),
        },
{
    match String::from_utf8(bytes) {
        Ok(text) => Some(text),
        Err(_) => None,
    }
}

/// What the bytes received so far come to.
pub fn request_line_progress(received: &Vec<u8>) -> (progress: LineProgress)
    ensures
        line_progress_of(received@, progress),
{
    if received.len() > MAX_LOOPBACK_REQUEST_LINE_BYTES {
        return LineProgress::TooLong;
    }
    match find_crlf(received) {
        None => LineProgress::Incomplete,
        Some(end) => {
            proof {
                lemma_first_crlf_from(received@, 0);
            }
            let mut line: Vec<u8> = Vec::new();
            let mut i: usize = 0;
            while i < end
                invariant
                    end < received@.len(),
                    i <= end,
                    line@ == received@.subrange(0, i as int),
                decreases end - i,
            {
                line.push(received[i]);
                i = i + 1;
                assert(line@ =~= received@.subrange(0, i as int));
            }
            match string_from_utf8(line) {
                Some(text) => LineProgress::Complete(text),
                None => LineProgress::NotUtf8,
            }
        },
    }
}

/// Reads some bytes from `reader` into `chunk` (`std::io::Read::read`); a failure comes back
/// as its message. What is read, and how much, depends on the stream alone; the count is at
/// most the chunk's length, as `Read` requires of every reader.
#[verifier::external_body]
fn read_chunk<R: std::io::Read>(reader: &mut R, chunk: &mut [u8; 512]) -> (read: Result<usize, String>)
    ensures
        read matches Ok(n) ==> n <= 512,
{
    match reader.read(chunk) {
        Ok(count) => Ok(count),
        Err(error) => Err(error.to_string()),
    }
}

/// What reading a request line comes to once `received` has arrived: nothing yet while no
/// line end arrived within the limit; too long once more than the limit arrived; otherwise the
/// text before the first line end, when it is UTF-8.
pub open spec fn line_outcome_of(received: Seq<u8>, outcome: Option<Result<String, RequestLineError>>) -> bool {
    if received.len() > MAX_LOOPBACK_REQUEST_LINE_BYTES {
        outcome == Some(Err::<String, RequestLineError>(RequestLineError::TooLong))
    } else {
        match first_crlf(received) {
            None => outcome is None,
            Some(end) => {
                let line = received.subrange(0, end);
                if valid_utf8(line) {
                    outcome matches Some(Ok(text)) && text@ == decode_utf8(line)
                } else {
                    outcome == Some(Err::<String, RequestLineError>(RequestLineError::NotUtf8))
                }
            },
        }
    }
}

/// Takes in the result of one read of the request: a failed read ends the reading with its
/// message, a read of nothing ends it as a stream that ended too early, and the bytes of any
/// other read are added to `received`, whose request line then decides whether reading goes on
/// (`None`) or what it comes to.
pub fn absorb_read(received: &mut Vec<u8>, read: Result<usize, String>, chunk: &[u8]) -> (outcome: Option<
    Result<String, RequestLineError>,
>)
    requires
        old(received)@.len() <= MAX_LOOPBACK_REQUEST_LINE_BYTES,
        read matches Ok(n) ==> n <= chunk@.len(),
    ensures
        match read {
            Err(message) => outcome == Some(Err::<String, RequestLineError>(RequestLineError::Read(message)))
                && final(received)@ == old(received)@,
            Ok(n) => if n == 0 {
                outcome == Some(Err::<String, RequestLineError>(RequestLineError::UnexpectedEof)) && final(received)@
                    == old(received)@
            } else {
                final(received)@ == old(received)@ + chunk@.subrange(0, n as int) && line_outcome_of(
                    final(received)@,
                    outcome,
                )
            },
        },
{
    let count = match read {
        Ok(count) => count,
        Err(message) => {
            return Some(Err(RequestLineError::Read(message)));
        },
    };
    if count == 0 {
        return Some(Err(RequestLineError::UnexpectedEof));
    }
    let ghost before = received@;
    let mut i: usize = 0;
    while i < count
        invariant
            count <= chunk@.len(),
            i <= count,
            received@ == before + chunk@.subrange(0, i as int),
        decreases count - i,
    {
        received.push(chunk[i]);
        i = i + 1;
        assert(received@ =~= before + chunk@.subrange(0, i as int));
    }
    match request_line_progress(received) {
        LineProgress::Incomplete => None,
        LineProgress::TooLong => Some(Err(RequestLineError::TooLong)),
        LineProgress::Complete(text) => Some(Ok(text)),
        LineProgress::NotUtf8 => Some(Err(RequestLineError::NotUtf8)),
    }
}

/// Whether `line` is what a stream that delivered `received` gives as its request line.
pub open spec fn completes_request_line(received: Seq<u8>, line: Seq<char>) -> bool {
    received.len() <= MAX_LOOPBACK_REQUEST_LINE_BYTES && match first_crlf(received) {
        Some(end) => valid_utf8(received.subrange(0, end)) && line == decode_utf8(
            received.subrange(0, end),
        ),
        None => false,
    }
}

/// Whether reading a request line may end with `line` once `received` arrived: a failed read
/// or the end of the stream while those bytes hold no complete line yet, or else what those
/// bytes come to.
pub open spec fn reading_ends_with(received: Seq<u8>, line: Result<String, RequestLineError>) -> bool {
    match line {
        Err(RequestLineError::UnexpectedEof) | Err(RequestLineError::Read(_)) => line_outcome_of(received, None),
        _ => line_outcome_of(received, Some(line)),
    }
}

/// Reads the request line of an HTTP request: the bytes up to the first line end, read in
/// chunks of any size, refused once more than the longest line arrived without one. Whatever
/// the stream delivers, the result is what the bytes that arrived come to: the line before the
/// first line end, or the refusal of a line that is too long or not UTF-8; a read that fails,
/// or a stream that ends, ends the reading while the bytes so far hold no complete line.
pub fn read_loopback_request_line<R: std::io::Read>(reader: &mut R) -> (line: Result<String, RequestLineError>)
    ensures
        exists|received: Seq<u8>| #[trigger] reading_ends_with(received, line),
        line matches Ok(text) ==> exists|received: Seq<u8>| completes_request_line(received, text@),
{
    let mut received: Vec<u8> = Vec::new();
    let mut chunk: [u8; 512] = [0u8; 512];
    loop
        invariant
            received@.len() <= MAX_LOOPBACK_REQUEST_LINE_BYTES,
            line_outcome_of(received@, None),
        decreases MAX_LOOPBACK_REQUEST_LINE_BYTES + 1 - received@.len(),
    {
        let ghost before = received@;
        let read = read_chunk(reader, &mut chunk);
        match absorb_read(&mut received, read, &chunk) {
            None => {},
            Some(outcome) => {
                let ghost o = outcome;
                proof {
                    match o {
                        Err(RequestLineError::UnexpectedEof) | Err(RequestLineError::Read(_)) => {
                            assert(line_outcome_of(before, None));
                        },
                        Ok(text) => {
                            assert(line_outcome_of(received@, Some(o)));
                            assert(completes_request_line(received@, text@));
                        },
                        _ => {
                            assert(line_outcome_of(received@, Some(o)));
                        },
                    }
                    let r = received@;
                    assert(reading_ends_with(r, o));
                }
                return outcome;
            },
        }
    }
}


/// Whether a text holds no space./// Whether a text holds no space.
pub open spec fn space_free(t: Seq<char>) -> bool {
    forall|i: int| 0 <= i < t.len() ==> t[i] != ' '
}

/// Whether `line` is a request for `target` that the activation callback serves: exactly a
/// `GET` of an absolute path, over HTTP/1.0 or HTTP/1.1, with single spaces between the parts.
pub open spec fn requests_target(line: Seq<char>, target: Seq<char>) -> bool {
    &&& space_free(target)
    &&& target.len() > 0
    &&& target[0] == '/'
    &&& (line == "GET "@ + target + " HTTP/1.0"@ || line == "GET "@ + target + " HTTP/1.1"@)
}

proof fn lemma_requests_target_parts(line: Seq<char>, target: Seq<char>)
    requires
        requests_target(line, target),
    ensures
        line.len() == target.len() + 13,
        has_prefix(line, "GET "@),
        has_suffix(line, " HTTP/1.0"@) || has_suffix(line, " HTTP/1.1"@),
        line.subrange(4, line.len() - 9) == target,
{
    reveal_strlit("GET ");
    reveal_strlit(" HTTP/1.0");
    reveal_strlit(" HTTP/1.1");
    let n = line.len() as int;
    if line == "GET "@ + target + " HTTP/1.0"@ {
        assert(line.subrange(0, 4) =~= "GET "@);
        assert(line.subrange(n - 9, n) =~= " HTTP/1.0"@);
    } else {
        assert(line.subrange(0, 4) =~= "GET "@);
        assert(line.subrange(n - 9, n) =~= " HTTP/1.1"@);
    }
    assert(line.subrange(4, n - 9) =~= target);
}

/// The target of a request line, when the activation callback serves the request.
pub fn loopback_request_target(request_line: &str) -> (target: Option<&str>)
    ensures
        match target {
            Some(t) => requests_target(request_line@, t@),
            None => forall|t: Seq<char>| !requests_target(request_line@, t),
        },
{
    let n = request_line.unicode_len();
    proof {
        reveal_strlit("GET ");
        reveal_strlit(" HTTP/1.0");
        reveal_strlit(" HTTP/1.1");
    }
    if n < 14 || !text_starts_with(request_line, "GET ") || !(text_ends_with(
        request_line,
        " HTTP/1.0",
    ) || text_ends_with(request_line, " HTTP/1.1")) {
        proof {
            assert forall|t: Seq<char>| !requests_target(request_line@, t) by {
                if requests_target(request_line@, t) {
                    lemma_requests_target_parts(request_line@, t);
                }
            }
        }
        return None;
    }
    let target = request_line.substring_char(4, n - 9);
    let m = target.unicode_len();
    let mut i: usize = 0;
    let mut spaces = false;
    while i < m
        invariant
            m == target@.len(),
            i <= m,
            spaces == !(forall|j: int| 0 <= j < i ==> target@[j] != ' '),
        decreases m - i,
    {
        if target.get_char(i) == ' ' {
            spaces = true;
        }
        i = i + 1;
    }
    if spaces || target.get_char(0) != '/' {
        proof {
            assert forall|t: Seq<char>| !requests_target(request_line@, t) by {
                if requests_target(request_line@, t) {
                    lemma_requests_target_parts(request_line@, t);
                }
            }
        }
        return None;
    }
    proof {
        let l = request_line@;
        let t = target@;
        if has_suffix(l, " HTTP/1.0"@) {
            assert(l =~= "GET "@ + t + " HTTP/1.0"@) by {
                assert(l.subrange(0, 4) == "GET "@);
                assert(l.subrange(n - 9, n as int) == " HTTP/1.0"@);
            }
        } else {
            assert(l =~= "GET "@ + t + " HTTP/1.1"@) by {
                assert(l.subrange(0, 4) == "GET "@);
                assert(l.subrange(n - 9, n as int) == " HTTP/1.1"@);
            }
        }
    }
    Some(target)
}


/// How the activation callback answers a request.
#[derive(Clone, Copy, Debug, PartialEq, Eq, Structural)]
pub enum ResponseStatus {
    Success,
    BadRequest,
    NotFound,
    ServerError,
}

/// The status line of an answer.
pub open spec fn status_line(status: ResponseStatus) -> Seq<char> {
    match status {
        ResponseStatus::Success => "HTTP/1.1 200 OK"@,
        ResponseStatus::BadRequest => "HTTP/1.1 400 Bad Request"@,
        ResponseStatus::NotFound => "HTTP/1.1 404 Not Found"@,
        ResponseStatus::ServerError => "HTTP/1.1 500 Internal Server Error"@,
    }
}

/// The title of the page an answer shows.
pub open spec fn status_title(status: ResponseStatus) -> Seq<char> {
    match status {
        ResponseStatus::Success => "Activation complete"@,
        ResponseStatus::BadRequest => "Activation could not continue"@,
        ResponseStatus::NotFound => "Not found"@,
        ResponseStatus::ServerError => "Activation could not continue"@,
    }
}

/// The message of the page an answer shows.
pub open spec fn status_message(status: ResponseStatus) -> Seq<char> {
    match status {
        ResponseStatus::Success => "Camellia Nexus is completing device activation. You can return to the desktop app."@,
        ResponseStatus::BadRequest => "Return to Camellia Nexus and start device activation again."@,
        ResponseStatus::NotFound => "This local endpoint only handles Camellia Nexus device activation."@,
        ResponseStatus::ServerError => "Return to Camellia Nexus and start device activation again."@,
    }
}

/// The page an answer shows: an HTML document with the title and the message.
pub open spec fn page_body(title: Seq<char>, message: Seq<char>) -> Seq<char> {
    PAGE_OPEN@ + title + PAGE_STYLE@ + title + PAGE_PARAGRAPH@ + message + PAGE_CLOSE@
}

/// The whole answer: the status line, the headers with the page's length in bytes, and the page.
pub open spec fn response_text(status: ResponseStatus) -> Seq<char> {
    let body = page_body(status_title(status), status_message(status));
    status_line(status) + RESPONSE_HEADERS@ + decimal(encode_utf8(body).len()) + RESPONSE_TRAILER@ + body
}

/// The start of the page, up to its title.
pub const PAGE_OPEN: &'static str = "<!doctype html><html><head><meta charset=\"utf-8\"><meta name=\"viewport\" content=\"width=device-width,initial-scale=1\"><title>";

/// The page's style sheet, between its title and its heading.
pub const PAGE_STYLE: &'static str = "</title><style>body{margin:0;min-height:100vh;display:grid;place-items:center;background:#f5f5f7;color:#16181d;font-family:\"Segoe UI\",system-ui,sans-serif}main{max-width:460px;padding:32px;border:1px solid rgba(0,0,0,.12);border-radius:18px;background:white;box-shadow:0 18px 60px rgba(0,0,0,.16)}h1{margin:0 0 10px;font-size:22px}p{margin:0;color:#596170;line-height:1.5}@media (prefers-color-scheme:dark){body{background:#121418;color:#f4f6f8}main{background:#1c2027;border-color:rgba(255,255,255,.14)}p{color:#aab2bf}}</style></head><body><main><h1>";

/// Between the page's heading and its message.
pub const PAGE_PARAGRAPH: &'static str = "</h1><p>";

/// The end of the page.
pub const PAGE_CLOSE: &'static str = "</p></main></body></html>";

/// The headers up to the page's length.
pub const RESPONSE_HEADERS: &'static str = "\r\nContent-Type: text/html; charset=utf-8\r\nContent-Length: ";

/// The headers after the page's length, and the blank line.
pub const RESPONSE_TRAILER: &'static str = "\r\nCache-Control: no-store\r\nPragma: no-cache\r\nReferrer-Policy: no-referrer\r\nX-Content-Type-Options: nosniff\r\nContent-Security-Policy: default-src 'none'; style-src 'unsafe-inline'; base-uri 'none'; form-action 'none'\r\nConnection: close\r\n\r\n";

fn status_texts(status: ResponseStatus) -> (texts: (&'static str, &'static str, &'static str))
    ensures
        texts.0@ == status_line(status),
        texts.1@ == status_title(status),
        texts.2@ == status_message(status),
{
    match status {
        ResponseStatus::Success => (
            "HTTP/1.1 200 OK",
            "Activation complete",
            "Camellia Nexus is completing device activation. You can return to the desktop app.",
        ),
        ResponseStatus::BadRequest => (
            "HTTP/1.1 400 Bad Request",
            "Activation could not continue",
            "Return to Camellia Nexus and start device activation again.",
        ),
        ResponseStatus::NotFound => (
            "HTTP/1.1 404 Not Found",
            "Not found",
            "This local endpoint only handles Camellia Nexus device activation.",
        ),
        ResponseStatus::ServerError => (
            "HTTP/1.1 500 Internal Server Error",
            "Activation could not continue",
            "Return to Camellia Nexus and start device activation again.",
        ),
    }
}

/// The answer the activation callback writes back to the browser.
pub fn loopback_response(status: ResponseStatus) -> (text: String)
    ensures
        text@ == response_text(status),
{
    let (line, title, message) = status_texts(status);
    let mut body = String::new();
    push_text(&mut body, PAGE_OPEN);
    push_text(&mut body, title);
    push_text(&mut body, PAGE_STYLE);
    push_text(&mut body, title);
    push_text(&mut body, PAGE_PARAGRAPH);
    push_text(&mut body, message);
    push_text(&mut body, PAGE_CLOSE);
    let length = body.as_str().as_bytes().len();
    let mut response = String::new();
    push_text(&mut response, line);
    push_text(&mut response, RESPONSE_HEADERS);
    push_decimal(&mut response, length as u64);
    push_text(&mut response, RESPONSE_TRAILER);
    push_text(&mut response, body.as_str());
    proof {
        assert(body@ =~= page_body(title@, message@));
        assert(length == encode_utf8(body@).len());
        assert(response@ =~= status_line(status) + RESPONSE_HEADERS@ + decimal(encode_utf8(body@).len())
            + RESPONSE_TRAILER@ + body@);
    }
    response
}

/// Where a callback request points: the text `http://127.0.0.1` followed by the target, as a URL.
pub open spec fn callback_request_url(target: Seq<char>) -> Seq<char> {
    "http://127.0.0.1"@ + target
}

/// What a request target is to the activation callback.
#[derive(Clone, Copy, Debug, PartialEq, Eq, Structural)]
pub enum TargetKind {
    /// It makes no URL.
    Unparsable,
    /// It names another path.
    OtherPath,
    /// It names the activation callback's path.
    Callback,
}

/// What a request target is, by the path of the URL it makes on the loopback host.
pub fn classify_callback_target(target: &str) -> (kind: TargetKind)
    ensures
        kind == match parsed_url(callback_request_url(target@)) {
            None => TargetKind::Unparsable,
            Some(parts) => if parts.4 == "/auth/callback"@ {
                TargetKind::Callback
            } else {
                TargetKind::OtherPath
            },
        },
{
    let mut text = String::new();
    push_text(&mut text, "http://127.0.0.1");
    push_text(&mut text, target);
    match parse_url(text.as_str()) {
        None => TargetKind::Unparsable,
        Some(parts) => if text_eq(parts.path.as_str(), "/auth/callback") {
            TargetKind::Callback
        } else {
            TargetKind::OtherPath
        },
    }
}

/// How far handling a callback connection got.
#[derive(Clone, Copy, Debug, PartialEq, Eq, Structural)]
pub enum CallbackCheck {
    /// The request line could not be read.
    Unreadable,
    /// The request line names no target the callback serves.
    NoTarget,
    /// The target makes no URL.
    UnparsableTarget,
    /// The target names another path.
    OtherPath,
    /// The configured redirect URI is no URL.
    InvalidRedirect,
    /// The callback does not answer the authorization that waits for it.
    InvalidCallback,
    /// The authorization is no longer active, so the callback was not kept.
    InactiveSession,
    /// The callback was kept for the authorization.
    Stored,
}

/// What handling a callback connection does at the end.
#[derive(Clone, Copy, Debug, PartialEq, Eq, Structural)]
pub struct CallbackReply {
    /// The answer to the browser.
    pub status: ResponseStatus,
    /// Whether the callback for the awaited authorization was dealt with, so that listening ends.
    pub handled: bool,
    /// Whether the awaited authorization is cancelled.
    pub cancel_authorization: bool,
    /// Whether the user interface is told that the authorization failed.
    pub report_failure: bool,
    /// Whether the user interface is told that the callback arrived.
    pub announce_callback: bool,
}

/// How far a callback connection gets: the request line must be read, name a target the
/// callback serves whose URL on the loopback host has the callback path; then the configured
/// redirect URI must be a URL, the callback must answer the awaited authorization, and that
/// authorization must still be pending for the callback to be kept (`kept`).
pub open spec fn callback_check_of(
    line: Result<String, RequestLineError>,
    redirect_uri: Seq<char>,
    callback_valid: bool,
    kept: bool,
) -> CallbackCheck {
    match line {
        Err(_) => CallbackCheck::Unreadable,
        Ok(l) => {
            let target = l@.subrange(4, l@.len() - 9);
            if !requests_target(l@, target) {
                CallbackCheck::NoTarget
            } else {
                match parsed_url(callback_request_url(target)) {
                    None => CallbackCheck::UnparsableTarget,
                    Some(parts) => if parts.4 != "/auth/callback"@ {
                        CallbackCheck::OtherPath
                    } else if parsed_url(redirect_uri) is None {
                        CallbackCheck::InvalidRedirect
                    } else if !callback_valid {
                        CallbackCheck::InvalidCallback
                    } else if kept {
                        CallbackCheck::Stored
                    } else {
                        CallbackCheck::InactiveSession
                    },
                }
            }
        },
    }
}

/// How far a callback connection got, from the request line it read, the configured redirect
/// URI, whether the callback answers the awaited authorization, and whether it was kept.
pub fn callback_check(
    line: &Result<String, RequestLineError>,
    redirect_uri: &str,
    callback_valid: bool,
    kept: bool,
) -> (check: CallbackCheck)
    ensures
        check == callback_check_of(*line, redirect_uri@, callback_valid, kept),
{
    let l = match line {
        Err(_) => {
            return CallbackCheck::Unreadable;
        },
        Ok(l) => l,
    };
    let target = match loopback_request_target(l.as_str()) {
        None => {
            return CallbackCheck::NoTarget;
        },
        Some(t) => t,
    };
    proof {
        lemma_requests_target_parts(l@, target@);
    }
    match classify_callback_target(target) {
        TargetKind::Unparsable => CallbackCheck::UnparsableTarget,
        TargetKind::OtherPath => CallbackCheck::OtherPath,
        TargetKind::Callback => if parse_url(redirect_uri).is_none() {
            CallbackCheck::InvalidRedirect
        } else if !callback_valid {
            CallbackCheck::InvalidCallback
        } else if kept {
            CallbackCheck::Stored
        } else {
            CallbackCheck::InactiveSession
        },
    }
}

/// What the `url` crate writes for the redirect URI `redirect` with its query replaced by that
/// of the URL `incoming`, and its fragment removed. It says something only where both texts
/// parse as URLs.
pub uninterp spec fn redirected_callback(redirect: Seq<char>, incoming: Seq<char>) -> Seq<char>;

/// Parses `redirect` and `incoming` with `url::Url::parse`, sets the query of the first to
/// that of the second (`set_query`), removes its fragment (`set_fragment(None)`) and writes it
/// out (`to_string`). The contract claims that a URL comes back exactly when both texts parse,
/// as [`parsed_url`] says, and that it is the named value [`redirected_callback`] of the two
/// texts; how the URL is written is left to the `url` crate. `url` panics on a URL of 4 GiB or
/// more, which the bound on the texts keeps far away.
#[verifier::external_body]
fn callback_url_text(redirect: &str, incoming: &str) -> (url: Option<String>)
    requires
        redirect@.len() + incoming@.len() <= 0x0100_0000,
    ensures
        url is Some <==> (parsed_url(redirect@) is Some && parsed_url(incoming@) is Some),
        match url {
            Some(u) => u@ == redirected_callback(redirect@, incoming@),
            None => true,
        },
{
    let mut callback = match url::Url::parse(redirect) {
        Ok(callback) => callback,
        Err(_) => return None,
    };
    let incoming = match url::Url::parse(incoming) {
        Ok(incoming) => incoming,
        Err(_) => return None,
    };
    callback.set_query(incoming.query());
    callback.set_fragment(None);
    Some(callback.to_string())
}

/// Whether a request line and a redirect URI are short enough to build a callback URL from.
pub open spec fn callback_texts_fit(line: Result<String, RequestLineError>, redirect_uri: Seq<char>) -> bool {
    match line {
        Ok(l) => l@.len() + redirect_uri.len() <= 0x00ff_0000,
        Err(_) => true,
    }
}

/// The callback URL that a request line brings back for a redirect URI: the redirect URI with
/// the query of the request's target, on the loopback host, and no fragment.
pub open spec fn callback_url_of(line: Seq<char>, redirect_uri: Seq<char>) -> Seq<char> {
    redirected_callback(redirect_uri, callback_request_url(line.subrange(4, line.len() - 9)))
}

/// The callback URL to check and keep, when the request line names the callback path and the
/// redirect URI is a URL; else how far the connection got.
pub fn callback_url_for(line: &Result<String, RequestLineError>, redirect_uri: &str) -> (url: Result<
    String,
    CallbackCheck,
>)
    requires
        callback_texts_fit(*line, redirect_uri@),
    ensures
        match callback_check_of(*line, redirect_uri@, true, true) {
            CallbackCheck::Stored => match (url, *line) {
                (Ok(u), Ok(l)) => u@ == callback_url_of(l@, redirect_uri@),
                _ => false,
            },
            c => url == Err::<String, CallbackCheck>(c),
        },
{
    let check = callback_check(line, redirect_uri, true, true);
    if check != CallbackCheck::Stored {
        return Err(check);
    }
    let l = match line {
        Ok(l) => l,
        Err(_) => {
            return Err(check);
        },
    };
    let target = match loopback_request_target(l.as_str()) {
        Some(t) => t,
        None => {
            return Err(check);
        },
    };
    proof {
        lemma_requests_target_parts(l@, target@);
    }
    let mut incoming = String::new();
    push_text(&mut incoming, "http://127.0.0.1");
    push_text(&mut incoming, target);
    proof {
        reveal_strlit("http://127.0.0.1");
        assert(incoming@ =~= callback_request_url(target@));
    }
    match callback_url_text(redirect_uri, incoming.as_str()) {
        Some(u) => Ok(u),
        None => Err(check),
    }
}

/// What a callback connection that got as far as `check` answers and does.
pub fn callback_reply(check: CallbackCheck) -> (reply: CallbackReply)
    ensures
        reply.status == match check {
            CallbackCheck::OtherPath => ResponseStatus::NotFound,
            CallbackCheck::InvalidRedirect => ResponseStatus::ServerError,
            CallbackCheck::Stored => ResponseStatus::Success,
            _ => ResponseStatus::BadRequest,
        },
        reply.handled == (check is InvalidRedirect || check is InactiveSession || check is Stored),
        reply.cancel_authorization == check is InvalidRedirect,
        reply.report_failure == check is InvalidRedirect,
        reply.announce_callback == check is Stored,
{
    let status = match check {
        CallbackCheck::OtherPath => ResponseStatus::NotFound,
        CallbackCheck::InvalidRedirect => ResponseStatus::ServerError,
        CallbackCheck::Stored => ResponseStatus::Success,
        _ => ResponseStatus::BadRequest,
    };
    let handled = match check {
        CallbackCheck::InvalidRedirect | CallbackCheck::InactiveSession | CallbackCheck::Stored => true,
        _ => false,
    };
    let invalid_redirect = matches!(check, CallbackCheck::InvalidRedirect);
    CallbackReply {
        status,
        handled,
        cancel_authorization: invalid_redirect,
        report_failure: invalid_redirect,
        announce_callback: matches!(check, CallbackCheck::Stored),
    }
}

/// Bounds how many activation callbacks are served at once.
pub struct CallbackThreadLimiter {
    active: usize,
    capacity: usize,
}

/// The right to serve one activation callback, handed back to the limiter when done.
pub struct CallbackThreadPermit {
    _private: (),
}

impl CallbackThreadLimiter {
    /// How many callbacks are being served.
    pub closed spec fn active_count(&self) -> nat {
        self.active as nat
    }

    /// How many callbacks may be served at once.
    pub closed spec fn capacity_limit(&self) -> nat {
        self.capacity as nat
    }

    /// Never more callbacks are served than the capacity allows.
    pub closed spec fn within_capacity(&self) -> bool {
        self.active <= self.capacity
    }

    /// A limiter for `capacity` callbacks at once, none served yet.
    pub fn new(capacity: usize) -> (limiter: Self)
        ensures
            limiter.active_count() == 0,
            limiter.capacity_limit() == capacity,
            limiter.within_capacity(),
    {
        CallbackThreadLimiter { active: 0, capacity }
    }

    /// How many callbacks are being served.
    pub fn active(&self) -> (count: usize)
        ensures
            count == self.active_count(),
    {
        self.active
    }

    /// A permit when fewer callbacks than the capacity are being served.
    pub fn try_acquire(&mut self) -> (permit: Option<CallbackThreadPermit>)
        requires
            old(self).within_capacity(),
        ensures
            final(self).within_capacity(),
            final(self).capacity_limit() == old(self).capacity_limit(),
            permit is Some <==> old(self).active_count() < old(self).capacity_limit(),
            permit is Some ==> final(self).active_count() == old(self).active_count() + 1,
            permit is None ==> final(self).active_count() == old(self).active_count(),
    {
        if self.active < self.capacity {
            self.active = self.active + 1;
            Some(CallbackThreadPermit { _private: () })
        } else {
            None
        }
    }

    /// Hands a permit back: one callback fewer is being served.
    pub fn release(&mut self, permit: CallbackThreadPermit)
        requires
            old(self).within_capacity(),
            old(self).active_count() > 0,
        ensures
            final(self).within_capacity(),
            final(self).capacity_limit() == old(self).capacity_limit(),
            final(self).active_count() + 1 == old(self).active_count(),
    {
        self.active = self.active - 1;
    }
}


} // verus!
