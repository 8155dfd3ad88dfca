//! The decisions of the local notify endpoint (`POST /notify` on
//! 127.0.0.1:8756).
//!
//! The endpoint is reachable by any program on the machine, so it defends
//! against two kinds of abuse: cross-site requests from a browser and DNS
//! rebinding (the `Host` header must name the loopback interface), and
//! resource exhaustion (header, body, time and connection limits).
//!
//! A connection is driven by the caller, which owns the socket: it reports
//! each read as a [`ConnEvent`] and [`NotifyConn::on_event`] answers what to
//! do next. Once the request is complete, [`NotifyConn::finish`] decides the
//! response.

use vstd::prelude::*;

use crate::json::{
    json_as_object, json_map_get_str, json_map_get_u64, json_object, json_parse, json_parses,
    json_string_members, json_u64_members, json_value, member_text,
};
use crate::pet::store::opt_text;
use crate::notify::request::{
    content_length, content_length_of, find_subslice, first_match, first_match_from,
    header_of, header_value, host_allowed, is_allowed_host, occurs_at,
};
use crate::strings::{lossy_text, utf8_lossy};
use crate::text::{chars_of, decimal_string, decimal_text, find_char, index_of, range_eq};

verus! {

/// Port of the endpoint.
pub const PORT: u16 = 8756;

/// Most characters a notification may hold (a CJK character counts one).
pub const MAX_LEN: usize = 120;

/// Most bytes of a request header; longer headers are refused.
pub const MAX_HEADER_BYTES: usize = 8192;

/// Most bytes of a request body; the endpoint only takes a short JSON document.
pub const MAX_BODY_BYTES: usize = 8192;

/// Most connections served at once; further ones are closed at once.
pub const MAX_CONNECTIONS: usize = 32;

/// Whether a new connection is served, given how many were being served when
/// it arrived.
pub fn admits_connection(active_before: usize) -> (b: bool)
    ensures
        b == (active_before < MAX_CONNECTIONS),
{
    active_before < MAX_CONNECTIONS
}

/// The message for an empty notification.
pub open spec fn empty_text_message() -> Seq<char> {
    "通知文本不能为空"@
}

/// The message for a notification of `count` characters, over the limit.
pub open spec fn too_long_message(count: nat) -> Seq<char> {
    "通知文本超限：最多 "@ + decimal_text(MAX_LEN as nat) + " 字，当前 "@ + decimal_text(count)
        + " 字"@
}

/// Why a notification text is refused: empty, or longer than `MAX_LEN`
/// characters.
pub open spec fn text_refusal(text: Seq<char>) -> Option<Seq<char>> {
    if text.len() == 0 {
        Some(empty_text_message())
    } else if text.len() > MAX_LEN {
        Some(too_long_message(text.len()))
    } else {
        None
    }
}

fn too_long_text(count: usize) -> (m: String)
    ensures
        m@ == too_long_message(count as nat),
{
    let mut m = String::from_str("通知文本超限：最多 ");
    let max = decimal_string(MAX_LEN);
    m.append(max.as_str());
    m.append(" 字，当前 ");
    let cur = decimal_string(count);
    m.append(cur.as_str());
    m.append(" 字");
    m
}

/// Checks a notification text: it must be non-empty and at most `MAX_LEN`
/// characters; otherwise the error message says why.
pub fn check_notify_text(text: &str) -> (r: Result<(), String>)
    ensures
        match text_refusal(text@) {
            None => r is Ok,
            Some(m) => r is Err && r->Err_0@ == m,
        },
{
    let count = text.unicode_len();
    if count == 0 {
        return Err(String::from_str("通知文本不能为空"));
    }
    if count > MAX_LEN {
        return Err(too_long_text(count));
    }
    Ok(())
}

/// A response status of the endpoint.
#[derive(Clone, Copy, Debug, PartialEq, Eq, Structural)]
pub enum HttpStatus {
    BadRequest,
    Forbidden,
    NotFound,
    RequestTimeout,
    PayloadTooLarge,
    HeaderFieldsTooLarge,
}

/// The status line text of a status.
pub open spec fn status_text(s: HttpStatus) -> Seq<char> {
    match s {
        HttpStatus::BadRequest => "400 Bad Request"@,
        HttpStatus::Forbidden => "403 Forbidden"@,
        HttpStatus::NotFound => "404 Not Found"@,
        HttpStatus::RequestTimeout => "408 Request Timeout"@,
        HttpStatus::PayloadTooLarge => "413 Payload Too Large"@,
        HttpStatus::HeaderFieldsTooLarge => "431 Request Header Fields Too Large"@,
    }
}

impl HttpStatus {
    /// Code and reason phrase, as written after `HTTP/1.1 `.
    pub fn status_line(self) -> (s: &'static str)
        ensures
            s@ == status_text(self),
    {
        match self {
            HttpStatus::BadRequest => "400 Bad Request",
            HttpStatus::Forbidden => "403 Forbidden",
            HttpStatus::NotFound => "404 Not Found",
            HttpStatus::RequestTimeout => "408 Request Timeout",
            HttpStatus::PayloadTooLarge => "413 Payload Too Large",
            HttpStatus::HeaderFieldsTooLarge => "431 Request Header Fields Too Large",
        }
    }
}

/// The response to a refused request: status line, no body.
pub open spec fn status_response_text(s: HttpStatus) -> Seq<char> {
    "HTTP/1.1 "@ + status_text(s) + "\r\nContent-Length: 0\r\nConnection: close\r\n\r\n"@
}

/// The response carrying a JSON body; its length is counted in UTF-8 bytes.
pub open spec fn json_response_text(s: HttpStatus, body: Seq<char>) -> Seq<char> {
    "HTTP/1.1 "@ + status_text(s) + "\r\nContent-Type: application/json\r\nContent-Length: "@
        + decimal_text(vstd::utf8::encode_utf8(body).len()) + "\r\nConnection: close\r\n\r\n"@
        + body
}

/// The response to an accepted notification.
pub open spec fn accepted_response_text() -> Seq<char> {
    "HTTP/1.1 200 OK\r\nContent-Length: 2\r\nConnection: close\r\n\r\nok"@
}

/// The full response (head, no body) for a refusal.
pub fn status_response(status: HttpStatus) -> (r: String)
    ensures
        r@ == status_response_text(status),
{
    let mut r = String::from_str("HTTP/1.1 ");
    r.append(status.status_line());
    r.append("\r\nContent-Length: 0\r\nConnection: close\r\n\r\n");
    r
}

/// The full response for a JSON `body`.
pub fn json_response(status: HttpStatus, body: &str) -> (r: String)
    ensures
        r@ == json_response_text(status, body@),
{
    let mut r = String::from_str("HTTP/1.1 ");
    r.append(status.status_line());
    r.append("\r\nContent-Type: application/json\r\nContent-Length: ");
    let bytes = body.as_bytes();
    let n = decimal_string(bytes.len());
    r.append(n.as_str());
    r.append("\r\nConnection: close\r\n\r\n");
    r.append(body);
    r
}

/// The full response to an accepted notification.
pub fn accepted_response() -> (r: &'static str)
    ensures
        r@ == accepted_response_text(),
{
    "HTTP/1.1 200 OK\r\nContent-Length: 2\r\nConnection: close\r\n\r\nok"
}

/// What a read on the connection gave.
pub enum ConnEvent<'a> {
    /// Bytes arrived.
    Data(&'a [u8]),
    /// The peer closed its side.
    Eof,
    /// A read timed out, or the connection's total time ran out.
    TimedOut,
}

/// What the caller does next.
#[derive(Clone, Copy, Debug, PartialEq, Eq, Structural)]
pub enum ConnStep {
    /// Read again.
    ReadMore,
    /// Answer with this status (no body) and close.
    Respond(HttpStatus),
    /// Close without an answer.
    Close,
    /// The request is complete: decide with `finish`.
    Complete,
}

/// The blank line that ends a header.
pub open spec fn header_end_marker() -> Seq<u8> {
    seq![13u8, 10u8, 13u8, 10u8]
}

/// Most bytes a connection may accumulate (header and body together).
pub open spec fn max_request_bytes() -> int {
    MAX_HEADER_BYTES + MAX_BODY_BYTES
}

/// The step after header bytes `data` have accumulated, with the end of the
/// body when the header is complete and accepted. Once the header's end is
/// seen: a header longer than `MAX_HEADER_BYTES` is refused (431); a `Host`
/// that is not loopback is refused (403); a declared body longer than
/// `MAX_BODY_BYTES` is refused (413); otherwise the body is awaited.
pub open spec fn header_step(data: Seq<u8>) -> (ConnStep, Option<usize>) {
    match first_match(data, header_end_marker()) {
        None => (ConnStep::ReadMore, None),
        Some(i) => if i > MAX_HEADER_BYTES {
            (ConnStep::Respond(HttpStatus::HeaderFieldsTooLarge), None)
        } else {
            let text = utf8_lossy(data.subrange(0, i));
            if !host_allowed(header_of(text, "host"@)) {
                (ConnStep::Respond(HttpStatus::Forbidden), None)
            } else {
                let len: usize = match content_length_of(text) {
                    Some(n) => n,
                    None => 0,
                };
                if len > MAX_BODY_BYTES {
                    (ConnStep::Respond(HttpStatus::PayloadTooLarge), None)
                } else {
                    let end = (i + 4 + len) as usize;
                    (
                        if data.len() >= end {
                            ConnStep::Complete
                        } else {
                            ConnStep::ReadMore
                        },
                        Some(end),
                    )
                }
            }
        },
    }
}

/// The header of `data` is complete and was accepted: it ends within
/// `MAX_HEADER_BYTES`, names a loopback `Host`, and declares a body of at
/// most `MAX_BODY_BYTES`.
pub open spec fn header_accepted(data: Seq<u8>) -> bool {
    match first_match(data, header_end_marker()) {
        None => false,
        Some(i) => {
            let text = utf8_lossy(data.subrange(0, i));
            &&& i <= MAX_HEADER_BYTES
            &&& host_allowed(header_of(text, "host"@))
            &&& match content_length_of(text) {
                Some(n) => n <= MAX_BODY_BYTES,
                None => true,
            }
        },
    }
}

/// Bytes appended after the header's end do not move it.
proof fn lemma_first_match_extends(data: Seq<u8>, more: Seq<u8>)
    requires
        first_match(data, header_end_marker()) is Some,
    ensures
        first_match(data + more, header_end_marker()) == first_match(data, header_end_marker()),
        (data + more).subrange(0, first_match(data, header_end_marker())->0) == data.subrange(
            0,
            first_match(data, header_end_marker())->0,
        ),
{
    let m = header_end_marker();
    assert(m.len() == 4);
    let i = first_match(data, m)->0;
    crate::notify::request::lemma_first_match_from(data, m, 0);
    let all = data + more;
    assert(all.subrange(i, i + 4) =~= data.subrange(i, i + 4));
    assert(first_match(data, m) == first_match_from(data, m, 0));
    assert(occurs_at(data, m, i));
    assert forall|j: int| 0 <= j < i implies !occurs_at(all, m, j) by {
        assert(!occurs_at(data, m, j));
        assert(j + 4 <= data.len());
        assert(all.subrange(j, j + 4) =~= data.subrange(j, j + 4));
    }
    lemma_first_match_least(all, m, 0, i);
    assert(all.subrange(0, i) =~= data.subrange(0, i));
}

/// A search from `k` finds `i` when `i` is the first occurrence at or after `k`.
proof fn lemma_first_match_least(h: Seq<u8>, n: Seq<u8>, k: int, i: int)
    requires
        0 <= k <= i,
        occurs_at(h, n, i),
        forall|j: int| k <= j < i ==> !occurs_at(h, n, j),
    ensures
        first_match_from(h, n, k) == Some(i),
    decreases i - k,
{
    if k < i {
        lemma_first_match_least(h, n, k + 1, i);
    }
}

/// A connection's request as read so far.
pub struct NotifyConn {
    data: Vec<u8>,
    /// Where the body ends, once the header has been accepted.
    body_end: Option<usize>,
}

impl NotifyConn {
    /// The bytes read so far.
    pub closed spec fn bytes(&self) -> Seq<u8> {
        self.data@
    }

    /// Where the body ends, once the header has been accepted.
    pub closed spec fn body_end_at(&self) -> Option<usize> {
        self.body_end
    }

    #[verifier::type_invariant]
    closed spec fn inv(&self) -> bool {
        &&& self.data@.len() <= max_request_bytes()
        &&& self.body_end is Some ==> header_accepted(self.data@)
        &&& self.body_end matches Some(e) ==> e >= first_match(self.data@, header_end_marker())->0
            + 4
    }

    /// Whether the header has been read and accepted (the request can then
    /// be decided with `finish`).
    pub fn header_read(&self) -> (b: bool)
        ensures
            b == self.body_end_at() is Some,
    {
        self.body_end.is_some()
    }

    /// A connection on which nothing has been read.
    pub fn new() -> (c: NotifyConn)
        ensures
            c.bytes() == Seq::<u8>::empty(),
            c.body_end_at() is None,
    {
        NotifyConn { data: Vec::new(), body_end: None }
    }

    /// The step after a read. Bytes that would take the request past
    /// `MAX_HEADER_BYTES + MAX_BODY_BYTES` are refused (413) and not kept;
    /// otherwise they are appended, and while the header is incomplete the
    /// header rules apply (`header_step`), after it the body is awaited. A
    /// peer that closes before the header ends gets no answer; one that
    /// closes during the body has its request decided as it stands. A
    /// timeout is answered 408.
    pub fn on_event(&mut self, ev: ConnEvent) -> (step: ConnStep)
        ensures
            match ev {
                ConnEvent::Data(chunk) => if old(self).bytes().len() + chunk@.len()
                    > max_request_bytes() {
                    &&& step == ConnStep::Respond(HttpStatus::PayloadTooLarge)
                    &&& final(self).bytes() == old(self).bytes()
                    &&& final(self).body_end_at() == old(self).body_end_at()
                } else {
                    let data = old(self).bytes() + chunk@;
                    &&& final(self).bytes() == data
                    &&& match old(self).body_end_at() {
                        None => (step, final(self).body_end_at()) == header_step(data),
                        Some(end) => {
                            &&& final(self).body_end_at() == Some(end)
                            &&& step == (if data.len() >= end {
                                ConnStep::Complete
                            } else {
                                ConnStep::ReadMore
                            })
                        },
                    }
                },
                ConnEvent::Eof => {
                    &&& final(self).bytes() == old(self).bytes()
                    &&& final(self).body_end_at() == old(self).body_end_at()
                    &&& step == (if old(self).body_end_at() is None {
                        ConnStep::Close
                    } else {
                        ConnStep::Complete
                    })
                },
                ConnEvent::TimedOut => {
                    &&& final(self).bytes() == old(self).bytes()
                    &&& final(self).body_end_at() == old(self).body_end_at()
                    &&& step == ConnStep::Respond(HttpStatus::RequestTimeout)
                },
            },
            step == ConnStep::Complete ==> final(self).body_end_at() is Some,
            final(self).body_end_at() is Some ==> header_accepted(final(self).bytes()),
    {
        proof {
            use_type_invariant(&*self);
        }
        match ev {
            ConnEvent::Data(chunk) => {
                if chunk.len() > MAX_HEADER_BYTES + MAX_BODY_BYTES - self.data.len() {
                    return ConnStep::Respond(HttpStatus::PayloadTooLarge);
                }
                let mut data = slice_prefix(&self.data, self.data.len());
                proof {
                    assert(self.data@.subrange(0, self.data@.len() as int) =~= self.data@);
                }
                let ghost before = data@;
                let mut i: usize = 0;
                while i < chunk.len()
                    invariant
                        i <= chunk@.len(),
                        data@ == before + chunk@.subrange(0, i as int),
                    decreases chunk.len() - i,
                {
                    data.push(chunk[i]);
                    proof {
                        assert(chunk@.subrange(0, i + 1) =~= chunk@.subrange(0, i as int).push(
                            chunk@[i as int],
                        ));
                    }
                    i = i + 1;
                }
                proof {
                    assert(chunk@.subrange(0, chunk@.len() as int) =~= chunk@);
                }
                let (step, end) = match self.body_end {
                    Some(end) => {
                        proof {
                            lemma_first_match_extends(before, chunk@);
                        }
                        if data.len() >= end {
                            (ConnStep::Complete, Some(end))
                        } else {
                            (ConnStep::ReadMore, Some(end))
                        }
                    },
                    None => Self::header_progress(&data),
                };
                *self = NotifyConn { data, body_end: end };
                step
            },
            ConnEvent::Eof => {
                proof {
                    use_type_invariant(&*self);
                }
                if self.body_end.is_none() {
                    ConnStep::Close
                } else {
                    ConnStep::Complete
                }
            },
            ConnEvent::TimedOut => {
                proof {
                    use_type_invariant(&*self);
                }
                ConnStep::Respond(HttpStatus::RequestTimeout)
            },
        }
    }

    fn header_progress(data: &Vec<u8>) -> (r: (ConnStep, Option<usize>))
        ensures
            r == header_step(data@),
            r.1 is Some ==> header_accepted(data@),
    {
        let marker: [u8; 4] = [13u8, 10u8, 13u8, 10u8];
        proof {
            assert(marker@ =~= header_end_marker());
        }
        let i = match find_subslice(data.as_slice(), &marker) {
            None => return (ConnStep::ReadMore, None),
            Some(i) => i,
        };
        if i > MAX_HEADER_BYTES {
            return (ConnStep::Respond(HttpStatus::HeaderFieldsTooLarge), None);
        }
        let head = slice_prefix(data, i);
        let text = lossy_text(head.as_slice());
        if !is_allowed_host(header_value(text.as_str(), "host")) {
            return (ConnStep::Respond(HttpStatus::Forbidden), None);
        }
        let len = match content_length(text.as_str()) {
            Some(n) => n,
            None => 0,
        };
        if len > MAX_BODY_BYTES {
            return (ConnStep::Respond(HttpStatus::PayloadTooLarge), None);
        }
        let end = i + 4 + len;
        if data.len() >= end {
            (ConnStep::Complete, Some(end))
        } else {
            (ConnStep::ReadMore, Some(end))
        }
    }
}

/// The first `n` bytes of `data`.
fn slice_range(data: &Vec<u8>, lo: usize, hi: usize) -> (r: Vec<u8>)
    requires
        lo <= hi <= data@.len(),
    ensures
        r@ == data@.subrange(lo as int, hi as int),
{
    let mut r: Vec<u8> = Vec::new();
    let mut i: usize = lo;
    while i < hi
        invariant
            lo <= i <= hi <= data@.len(),
            r@ == data@.subrange(lo as int, i as int),
        decreases hi - i,
    {
        r.push(data[i]);
        proof {
            assert(data@.subrange(lo as int, i + 1) =~= data@.subrange(lo as int, i as int).push(
                data@[i as int],
            ));
        }
        i = i + 1;
    }
    r
}

fn slice_prefix(data: &Vec<u8>, n: usize) -> (r: Vec<u8>)
    requires
        n <= data@.len(),
    ensures
        r@ == data@.subrange(0, n as int),
{
    let mut r: Vec<u8> = Vec::new();
    let mut i: usize = 0;
    while i < n
        invariant
            i <= n <= data@.len(),
            r@ == data@.subrange(0, i as int),
        decreases n - i,
    {
        r.push(data[i]);
        proof {
            assert(data@.subrange(0, i + 1) =~= data@.subrange(0, i as int).push(data@[i as int]));
        }
        i = i + 1;
    }
    r
}


/// A notification accepted for display.
pub struct NotifyPayload {
    pub text: String,
    /// Pet action to play first (`wave`, `jump`, ...).
    pub action: Option<String>,
    /// How long the bubble shows, in milliseconds.
    pub duration: Option<u64>,
}

/// The decision on a complete request.
pub enum NotifyOutcome {
    /// Answer with this status and no body.
    Refuse(HttpStatus),
    /// Answer `400 Bad Request` with the JSON body
    /// `{"ok": false, "error": message}`.
    TooLong { message: String },
    /// Broadcast the notification; answer `200 OK` with body `ok`.
    Accept(NotifyPayload),
}

/// The outcome for the fields read from a request body: the text must be a
/// non-empty string of at most `MAX_LEN` characters.
pub fn decide_notify(text: Option<String>, action: Option<String>, duration: Option<u64>) -> (o:
    NotifyOutcome)
    ensures
        ({
            let t = match text {
                Some(s) => s@,
                None => Seq::<char>::empty(),
            };
            &&& t.len() == 0 ==> (o matches NotifyOutcome::Refuse(st) && st
                == HttpStatus::BadRequest)
            &&& t.len() > MAX_LEN ==> (o matches NotifyOutcome::TooLong { message } && message@
                == too_long_message(t.len()))
            &&& 0 < t.len() <= MAX_LEN ==> (o matches NotifyOutcome::Accept(p) && p.text@ == t
                && p.action == action && p.duration == duration)
        }),
{
    let text = match text {
        Some(s) => s,
        None => String::new(),
    };
    let count = text.as_str().unicode_len();
    if count == 0 {
        return NotifyOutcome::Refuse(HttpStatus::BadRequest);
    }
    if count > MAX_LEN {
        return NotifyOutcome::TooLong { message: too_long_text(count) };
    }
    NotifyOutcome::Accept(NotifyPayload { text, action, duration })
}

/// The request line: the text before the first line feed, without a
/// carriage return that ends it.
pub open spec fn request_line(req: Seq<char>) -> Seq<char> {
    match index_of(req, '\n') {
        None => req,
        Some(k) => {
            let l = req.subrange(0, k);
            if l.len() > 0 && l.last() == '\r' {
                l.drop_last()
            } else {
                l
            }
        },
    }
}

/// The first space-separated field of a line.
pub open spec fn first_field(line: Seq<char>) -> Seq<char> {
    match index_of(line, ' ') {
        Some(k) => line.subrange(0, k),
        None => line,
    }
}

/// The second space-separated field of a line (empty when there is none).
pub open spec fn second_field(line: Seq<char>) -> Seq<char> {
    match index_of(line, ' ') {
        Some(k) => first_field(line.subrange(k + 1, line.len() as int)),
        None => Seq::<char>::empty(),
    }
}

/// The request is `POST /notify`.
pub open spec fn targets_notify(req: Seq<char>) -> bool {
    first_field(request_line(req)) == "POST"@ && second_field(request_line(req)) == "/notify"@
}

/// The body bytes of a request whose body ends at `end`: the bytes after
/// the header's blank line, cut to the declared length (bytes past it are
/// ignored; a body cut short by the peer is taken as it came).
pub open spec fn declared_body(data: Seq<u8>, end: int) -> Seq<u8> {
    match first_match(data, header_end_marker()) {
        None => Seq::<u8>::empty(),
        Some(i) => {
            let lo = if i + 4 <= data.len() {
                i + 4
            } else {
                data.len() as int
            };
            let hi = if end < lo {
                lo
            } else if end > data.len() {
                data.len() as int
            } else {
                end
            };
            data.subrange(lo, hi)
        },
    }
}

/// The outcome `decide_notify` gives for a text, action and duration: no or
/// empty text is 400, a text over `MAX_LEN` characters is refused with the
/// too-long message, any other is accepted with the three fields.
pub open spec fn notify_decision(
    o: NotifyOutcome,
    text: Option<Seq<char>>,
    action: Option<Seq<char>>,
    duration: Option<u64>,
) -> bool {
    let t = match text {
        Some(s) => s,
        None => Seq::<char>::empty(),
    };
    &&& t.len() == 0 ==> (o matches NotifyOutcome::Refuse(st) && st == HttpStatus::BadRequest)
    &&& t.len() > MAX_LEN ==> (o matches NotifyOutcome::TooLong { message } && message@
        == too_long_message(t.len()))
    &&& 0 < t.len() <= MAX_LEN ==> (o matches NotifyOutcome::Accept(p) && p.text@ == t
        && opt_text(p.action) == action && p.duration == duration)
}

/// A notification text is taken exactly when it has from 1 to 120
/// characters: an absent or empty text is a bad request, a longer one is
/// refused as too long, and an accepted one carries its text, action and
/// duration unchanged.
pub proof fn lemma_notify_text_bounds(
    o: NotifyOutcome,
    text: Option<Seq<char>>,
    action: Option<Seq<char>>,
    duration: Option<u64>,
)
    requires
        notify_decision(o, text, action, duration),
    ensures
        text_refusal(text.unwrap_or(Seq::<char>::empty())) is None <==> (text matches Some(t) && 1
            <= t.len() <= 120),
        text is Some && 1 <= text->0.len() <= 120 ==> (o matches NotifyOutcome::Accept(p)
            && p.text@ == text->0 && opt_text(p.action) == action && p.duration == duration),
        text matches Some(t) && t.len() > 120 ==> o is TooLong,
        (text is None || text == Some(Seq::<char>::empty())) ==> o == NotifyOutcome::Refuse(
            HttpStatus::BadRequest,
        ),
{
}

/// The string member `key` of a request body's JSON object (`None` when the
/// body's root is not an object, or the member is missing or no string).
pub open spec fn body_str(body: Seq<char>, key: Seq<char>) -> Option<Seq<char>> {
    match json_object(json_value(body)) {
        Some(m) => member_text(json_string_members(m), key),
        None => None,
    }
}

/// The `u64` member `key` of a request body's JSON object.
pub open spec fn body_u64(body: Seq<char>, key: Seq<char>) -> Option<u64> {
    match json_object(json_value(body)) {
        Some(m) => if json_u64_members(m).contains_key(key) {
            Some(json_u64_members(m)[key])
        } else {
            None
        },
        None => None,
    }
}

/// Where the request line of `cs` ends.
fn request_line_end(cs: &Vec<char>) -> (e: usize)
    ensures
        e <= cs@.len(),
        request_line(cs@) == cs@.subrange(0, e as int),
{
    let n = cs.len();
    let ghost r = cs@;
    proof {
        assert(r.subrange(0, n as int) =~= r);
    }
    match find_char(cs, 0, n, '\n') {
        None => n,
        Some(k) => {
            if k > 0 && cs[k - 1] == '\r' {
                proof {
                    assert(r.subrange(0, k as int).drop_last() =~= r.subrange(0, k - 1));
                }
                k - 1
            } else {
                k
            }
        },
    }
}

/// Whether the line `cs[0..line_end]` reads `POST /notify ...`.
fn is_notify_line(cs: &Vec<char>, line_end: usize) -> (b: bool)
    requires
        line_end <= cs@.len(),
    ensures
        b == (first_field(cs@.subrange(0, line_end as int)) == "POST"@ && second_field(
            cs@.subrange(0, line_end as int),
        ) == "/notify"@),
{
    let ghost line = cs@.subrange(0, line_end as int);
    let post = chars_of("POST");
    let target = chars_of("/notify");
    match find_char(cs, 0, line_end, ' ') {
        None => {
            proof {
                reveal_strlit("/notify");
                assert(second_field(line).len() == 0);
            }
            false
        },
        Some(sp) => {
            let second_end = match find_char(cs, sp + 1, line_end, ' ') {
                None => line_end,
                Some(k) => k,
            };
            proof {
                assert(line.subrange(0, sp as int) =~= cs@.subrange(0, sp as int));
                let rest = line.subrange(sp + 1, line.len() as int);
                assert(rest =~= cs@.subrange(sp + 1, line_end as int));
                assert(rest.subrange(0, second_end - sp - 1) =~= cs@.subrange(
                    sp + 1,
                    second_end as int,
                ));
            }
            range_eq(cs, 0, sp, &post) && range_eq(cs, sp + 1, second_end, &target)
        },
    }
}


/// The text of the string member `key` of a JSON object; `None` when the
/// object has no such member or it is not a string.
fn string_member(doc: &serde_json::Map<String, serde_json::Value>, key: &str) -> (r: Option<String>)
    ensures
        match r {
            Some(t) => member_text(json_string_members(*doc), key@) == Some(t@),
            None => member_text(json_string_members(*doc), key@) is None,
        },
{
    json_map_get_str(doc, key)
}

impl NotifyConn {
    /// The response to the complete request: anything but `POST /notify` is
    /// 404; a body that is not JSON is 400; otherwise the body's `text`
    /// (a string), `action` (a string) and `duration` (an unsigned integer)
    /// members are judged by `decide_notify`. The body is what follows the
    /// header, cut to its declared `Content-Length`.
    pub fn finish(&self) -> (o: NotifyOutcome)
        requires
            self.body_end_at() is Some,
        ensures
            o is Accept ==> header_accepted(self.bytes()),
            ({
                let req = utf8_lossy(self.bytes());
                let body = utf8_lossy(declared_body(self.bytes(), self.body_end_at()->0 as int));
                &&& !targets_notify(req) ==> (o matches NotifyOutcome::Refuse(st) && st
                    == HttpStatus::NotFound)
                &&& targets_notify(req) && !json_parses(body) ==> (
                o matches NotifyOutcome::Refuse(st) && st == HttpStatus::BadRequest)
                &&& targets_notify(req) && json_parses(body) ==> notify_decision(
                    o,
                    body_str(body, "text"@),
                    body_str(body, "action"@),
                    body_u64(body, "duration"@),
                )
            }),
    {
        proof {
            use_type_invariant(self);
        }
        let req = lossy_text(self.data.as_slice());
        let cs = chars_of(req.as_str());
        let line_end = request_line_end(&cs);
        if !is_notify_line(&cs, line_end) {
            return NotifyOutcome::Refuse(HttpStatus::NotFound);
        }
        let marker: [u8; 4] = [13u8, 10u8, 13u8, 10u8];
        proof {
            assert(marker@ =~= header_end_marker());
        }
        let end = match self.body_end {
            Some(e) => e,
            None => 0,
        };
        let i = match find_subslice(self.data.as_slice(), &marker) {
            Some(i) => i,
            None => return NotifyOutcome::Refuse(HttpStatus::BadRequest),
        };
        let hi = if end > self.data.len() {
            self.data.len()
        } else {
            end
        };
        let body_bytes = slice_range(&self.data, i + 4, hi);
        let body_owned = lossy_text(body_bytes.as_slice());
        let body = body_owned.as_str();
        let doc = match json_parse(body) {
            Err(_) => return NotifyOutcome::Refuse(HttpStatus::BadRequest),
            Ok(v) => v,
        };
        let (text, action, duration) = match json_as_object(&doc) {
            Some(members) => (
                string_member(members, "text"),
                string_member(members, "action"),
                json_map_get_u64(members, "duration"),
            ),
            None => (None, None, None),
        };
        let ghost t = if text is Some {
            text->0@
        } else {
            Seq::<char>::empty()
        };
        let o = decide_notify(text, action, duration);
        proof {
            if t.len() > MAX_LEN {
                assert(too_long_message(t.len()) == too_long_message(t.len()));
            }
        }
        o
    }
}

} // verus!
