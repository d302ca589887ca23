//! The messages between client and language server, and the frames they come in.

use crate::json::{entries_view, field, Json, JsonValue};
use crate::serial::{from_json_bytes, json_in, json_text, to_json_text};
use crate::text::{
    byte_count, byte_len, chars_of, decimal, decimal_has_no_space, decimal_of, is_space, starts_with, str_strip_prefix, str_trim, trim, trim_end, trim_start,
};
use vstd::prelude::*;
use vstd::utf8::encode_utf8;

verus! {

/// A message received from a language server.
#[derive(Debug)]
#[allow(inconsistent_fields)]
pub enum JsonRpcMessage {
    Response { id: i64, result: Option<JsonValue>, error: Option<JsonValue> },
    Notification { method: String, params: Option<JsonValue> },
    ServerRequest { id: JsonValue, method: String, params: Option<JsonValue> },
}

/// The mathematical value of a [`JsonRpcMessage`].
#[verifier::ext_equal]
#[allow(inconsistent_fields)]
pub enum Message {
    Response { id: i64, result: Option<Json>, error: Option<Json> },
    Notification { method: Seq<char>, params: Option<Json> },
    ServerRequest { id: Json, method: Seq<char>, params: Option<Json> },
}

/// The view of an optional value.
pub open spec fn opt_json(o: Option<JsonValue>) -> Option<Json> {
    match o {
        Some(v) => Some(v@),
        None => None,
    }
}

impl View for JsonRpcMessage {
    type V = Message;

    open spec fn view(&self) -> Message {
        match *self {
            JsonRpcMessage::Response { id, result, error } => Message::Response {
                id,
                result: opt_json(result),
                error: opt_json(error),
            },
            JsonRpcMessage::Notification { method, params } => Message::Notification {
                method: method@,
                params: opt_json(params),
            },
            JsonRpcMessage::ServerRequest { id, method, params } => Message::ServerRequest {
                id: id@,
                method: method@,
                params: opt_json(params),
            },
        }
    }
}

/// The message that a value is, or why it is none.
///
/// A value with an id and a result or an error is a response; one with an id and a method is a
/// request; one with a method alone is a notification.
pub open spec fn classified(v: Json) -> Result<Message, Seq<char>> {
    let answered = v.get("result"@) is Some || v.get("error"@) is Some;
    match v.get("id"@) {
        Some(id) => if answered {
            match id.as_i64() {
                Some(n) => Ok(Message::Response { id: n, result: v.get("result"@), error: v.get("error"@) }),
                None => Err("response id must be an integer"@),
            }
        } else {
            match v.get("method"@) {
                Some(Json::Str(method)) => Ok(Message::ServerRequest { id, method, params: v.get("params"@) }),
                _ => Err("unrecognized JSON-RPC message: "@ + json_text(v)),
            }
        },
        None => match v.get("method"@) {
            Some(Json::Str(method)) => Ok(Message::Notification { method, params: v.get("params"@) }),
            _ => Err("unrecognized JSON-RPC message: "@ + json_text(v)),
        },
    }
}

/// A copy of the entry for `key`.
pub(crate) fn copy_entry(v: &JsonValue, key: &str) -> (r: Option<JsonValue>)
    ensures
        opt_json(r) == v@.get(key@),
{
    match v.get(key) {
        Some(x) => Some(x.copy()),
        None => None,
    }
}

/// The view of a classified message.
pub open spec fn message_result(r: Result<JsonRpcMessage, String>) -> Result<Message, Seq<char>> {
    match r {
        Ok(m) => Ok(m@),
        Err(e) => Err(e@),
    }
}

/// Tells which kind of message a value is.
pub fn classify_message(value: &JsonValue) -> (r: Result<JsonRpcMessage, String>)
    ensures
        message_result(r) == classified(value@),
{
    let method = match value.get("method") {
        Some(m) => match m.as_str() {
            Some(s) => Some(s.to_string()),
            None => None,
        },
        None => None,
    };
    if let Some(id) = value.get("id") {
        if value.has("result") || value.has("error") {
            return match id.as_i64() {
                Some(n) => Ok(
                    JsonRpcMessage::Response {
                        id: n,
                        result: copy_entry(value, "result"),
                        error: copy_entry(value, "error"),
                    },
                ),
                None => Err("response id must be an integer".to_string()),
            };
        }
        if let Some(m) = method {
            return Ok(
                JsonRpcMessage::ServerRequest { id: id.copy(), method: m, params: copy_entry(value, "params") },
            );
        }
    } else if let Some(m) = method {
        return Ok(JsonRpcMessage::Notification { method: m, params: copy_entry(value, "params") });
    }
    let mut e = "unrecognized JSON-RPC message: ".to_string();
    e.append(to_json_text(value).as_str());
    Err(e)
}

/// Reads the message that the body of a frame holds.
pub fn read_body(body: &[u8]) -> (r: Result<JsonRpcMessage, String>)
    ensures
        message_result(r) == match json_in(body@) {
            Ok(v) => classified(v),
            Err(m) => Err(m),
        },
{
    match from_json_bytes(body) {
        Ok(v) => classify_message(&v),
        Err(m) => Err(m),
    }
}

// ── Messages to send ────────────────────────────────────────────────────────

/// The ids of requests, counted from 1.
pub struct RequestIds {
    pub next: i64,
}

impl RequestIds {
    /// No request was sent yet.
    pub fn new() -> (r: RequestIds)
        ensures
            r.next == 1,
    {
        RequestIds { next: 1 }
    }

    /// The id of the next request.
    pub fn take(&mut self) -> (r: i64)
        ensures
            r == old(self).next,
            final(self).next == old(self).next.wrapping_add(1),
    {
        let id: i64 = self.next;
        self.next = self.next.wrapping_add(1);
        id
    }
}

/// A request.
pub open spec fn request_json(id: i64, method: Seq<char>, params: Json) -> Json {
    Json::Obj(
        seq![
            ("jsonrpc"@, Json::Str("2.0"@)),
            ("id"@, Json::Int(id as int)),
            ("method"@, Json::Str(method)),
            ("params"@, params),
        ],
    )
}

/// Builds a request.
pub fn request_message(id: i64, method: &str, params: JsonValue) -> (r: JsonValue)
    ensures
        r@ == request_json(id, method@, params@),
{
    let fields = vec![
        field("jsonrpc", JsonValue::str("2.0")),
        field("id", JsonValue::NegInt(id)),
        field("method", JsonValue::str(method)),
        field("params", params),
    ];
    assert(entries_view(fields@) =~= request_json(id, method@, params@)->Obj_0);
    JsonValue::object(fields)
}

/// A notification.
pub open spec fn notification_json(method: Seq<char>, params: Json) -> Json {
    Json::Obj(seq![("jsonrpc"@, Json::Str("2.0"@)), ("method"@, Json::Str(method)), ("params"@, params)])
}

/// Builds a notification.
pub fn notification_message(method: &str, params: JsonValue) -> (r: JsonValue)
    ensures
        r@ == notification_json(method@, params@),
{
    let fields = vec![
        field("jsonrpc", JsonValue::str("2.0")),
        field("method", JsonValue::str(method)),
        field("params", params),
    ];
    assert(entries_view(fields@) =~= notification_json(method@, params@)->Obj_0);
    JsonValue::object(fields)
}

/// The answer to a request of the server: nothing.
pub open spec fn empty_reply(id: Json) -> Json {
    Json::Obj(seq![("jsonrpc"@, Json::Str("2.0"@)), ("id"@, id), ("result"@, Json::Null)])
}

/// Builds the answer to a request of the server.
pub fn reply_message(id: &JsonValue) -> (r: JsonValue)
    ensures
        r@ == empty_reply(id@),
{
    let fields = vec![
        field("jsonrpc", JsonValue::str("2.0")),
        field("id", id.copy()),
        field("result", JsonValue::Null),
    ];
    assert(entries_view(fields@) =~= empty_reply(id@)->Obj_0);
    JsonValue::object(fields)
}

// ── Frames ──────────────────────────────────────────────────────────────────

/// The header of a frame with a body.
pub open spec fn content_header(body: Seq<char>) -> Seq<char> {
    "Content-Length: "@ + decimal(byte_len(body) as nat) + "\r\n\r\n"@
}

/// The header of a frame with a body.
pub fn frame_header(body: &str) -> (r: String)
    ensures
        r@ == content_header(body@),
{
    let mut h = "Content-Length: ".to_string();
    h.append(decimal_of(byte_count(body) as u64).as_str());
    h.append("\r\n\r\n");
    h
}

/// Encodes a message with Content-Length framing.
pub fn frame_message(payload: &JsonValue) -> (r: Vec<u8>)
    ensures
        r@ == encode_utf8(content_header(json_text(payload@)) + json_text(payload@)),
{
    let body = to_json_text(payload);
    let mut text = frame_header(body.as_str());
    text.append(body.as_str());
    text.as_str().as_bytes_vec()
}

// ── Reading headers ─────────────────────────────────────────────────────────

/// The value of a decimal digit.
pub open spec fn digit_value(c: char) -> Option<nat> {
    if c == '0' {
        Some(0)
    } else if c == '1' {
        Some(1)
    } else if c == '2' {
        Some(2)
    } else if c == '3' {
        Some(3)
    } else if c == '4' {
        Some(4)
    } else if c == '5' {
        Some(5)
    } else if c == '6' {
        Some(6)
    } else if c == '7' {
        Some(7)
    } else if c == '8' {
        Some(8)
    } else if c == '9' {
        Some(9)
    } else {
        None
    }
}

/// The number that decimal digits write; nothing where another character stands among them.
pub open spec fn digits_value(s: Seq<char>) -> Option<nat>
    decreases s.len(),
{
    if s.len() == 0 {
        Some(0)
    } else {
        match (digits_value(s.drop_last()), digit_value(s.last())) {
            (Some(n), Some(d)) => Some(10 * n + d),
            _ => None,
        }
    }
}

/// The number that a text writes: digits, which a plus sign may precede. Nothing where it is none
/// or greater than `max`.
pub open spec fn parsed_upto(s: Seq<char>, max: nat) -> Option<nat> {
    let digits = if s.len() > 0 && s[0] == '+' {
        s.drop_first()
    } else {
        s
    };
    if digits.len() == 0 {
        None
    } else {
        match digits_value(digits) {
            Some(n) => if n <= max {
                Some(n)
            } else {
                None
            },
            None => None,
        }
    }
}

/// The number that a text writes, where it counts bytes that memory can hold.
pub open spec fn parsed_number(s: Seq<char>) -> Option<usize> {
    match parsed_upto(s, usize::MAX as nat) {
        Some(n) => Some(n as usize),
        None => None,
    }
}

fn read_digit(c: char) -> (r: Option<u64>)
    ensures
        match r {
            Some(d) => d < 10 && digit_value(c) == Some(d as nat),
            None => digit_value(c) is None,
        },
{
    if c == '0' {
        Some(0)
    } else if c == '1' {
        Some(1)
    } else if c == '2' {
        Some(2)
    } else if c == '3' {
        Some(3)
    } else if c == '4' {
        Some(4)
    } else if c == '5' {
        Some(5)
    } else if c == '6' {
        Some(6)
    } else if c == '7' {
        Some(7)
    } else if c == '8' {
        Some(8)
    } else if c == '9' {
        Some(9)
    } else {
        None
    }
}

/// More digits make no smaller number, and do not make a number of what is none.
proof fn digits_value_grows(s: Seq<char>, n: int)
    requires
        0 <= n <= s.len(),
    ensures
        digits_value(s) matches Some(v) ==> digits_value(s.take(n)) is Some && digits_value(s.take(n))->0 <= v,
    decreases s.len() - n,
{
    if n < s.len() {
        digits_value_grows(s, n + 1);
        assert(s.take(n + 1).drop_last() =~= s.take(n));
    } else {
        assert(s.take(n) =~= s);
    }
}

/// Reads the number that a text writes, up to `max`.
pub fn parse_upto(s: &str, max: u64) -> (r: Option<u64>)
    ensures
        match r {
            Some(n) => parsed_upto(s@, max as nat) == Some(n as nat),
            None => parsed_upto(s@, max as nat) is None,
        },
{
    let v = chars_of(s);
    let n: usize = v.len();
    let start: usize = if n > 0 && v[0] == '+' {
        1
    } else {
        0
    };
    if start == n {
        return None;
    }
    let ghost digits = s@.skip(start as int);
    assert(s@.skip(0) =~= s@);
    assert(s@.len() > 0 ==> s@.skip(1) =~= s@.drop_first());
    let mut value: u64 = 0;
    let mut i: usize = start;
    assert(digits.take(0) =~= Seq::empty());
    while i < n
        invariant
            start <= i <= n,
            n == v@.len(),
            v@ == s@,
            digits == s@.skip(start as int),
            digits_value(digits.take(i - start)) == Some(value as nat),
            digits.len() > 0,
            value <= max,
            parsed_upto(s@, max as nat) == match digits_value(digits) {
                Some(x) => if x <= max {
                    Some(x)
                } else {
                    None
                },
                None => None,
            },
        decreases n - i,
    {
        proof {
            let next = digits.take(i - start + 1);
            assert(next.drop_last() =~= digits.take(i - start));
            assert(next.last() == v@[i as int]);
            digits_value_grows(digits, i - start + 1);
        }
        match read_digit(v[i]) {
            Some(d) => {
                if value > max / 10 || d > max || value * 10 > max - d {
                    return None;
                }
                value = value * 10 + d;
            },
            None => {
                return None;
            },
        }
        i = i + 1;
    }
    assert(digits.take(n - start) =~= digits);
    Some(value)
}

/// Reads the number that a text writes.
pub fn parse_number(s: &str) -> (r: Option<usize>)
    ensures
        r == parsed_number(s@),
{
    match parse_upto(s, usize::MAX as u64) {
        Some(n) => Some(n as usize),
        None => None,
    }
}

/// What a line of headers brings.
#[derive(Debug)]
pub enum HeaderStep {
    /// Read another line.
    More,
    /// The headers are over: the body has so many bytes.
    Body(usize),
    /// The headers are faulty.
    Failed(String),
}

/// The headers of a message, as far as they were read.
pub struct HeaderReader {
    pub content_length: Option<usize>,
}

/// The length that a header line tells: `None` where it tells none, `Some(None)` where it is no
/// number.
pub open spec fn told_length(line: Seq<char>) -> Option<Option<usize>> {
    let t = trim(line);
    if starts_with(t, "Content-Length: "@) {
        Some(parsed_number(t.skip("Content-Length: "@.len() as int)))
    } else {
        None
    }
}

impl HeaderReader {
    /// No header was read yet.
    pub fn new() -> (r: HeaderReader)
        ensures
            r.content_length is None,
    {
        HeaderReader { content_length: None }
    }

    /// Takes the next line; `None` where the server closed its output.
    pub fn on_line(&mut self, line: Option<&str>) -> (r: HeaderStep)
        ensures
            match line {
                None => r matches HeaderStep::Failed(m) && m@ == "LSP server closed its stdout"@
                    && *final(self) == *old(self),
                Some(l) => if trim(l@).len() == 0 {
                    *final(self) == *old(self) && match old(self).content_length {
                        Some(n) => r == HeaderStep::Body(n),
                        None => r matches HeaderStep::Failed(m) && m@ == "missing Content-Length header"@,
                    }
                } else {
                    match told_length(l@) {
                        Some(Some(n)) => r is More && final(self).content_length == Some(n),
                        Some(None) => r matches HeaderStep::Failed(m) && m@ == "invalid Content-Length"@
                            && *final(self) == *old(self),
                        None => r is More && *final(self) == *old(self),
                    }
                },
            },
    {
        let l = match line {
            Some(l) => l,
            None => {
                return HeaderStep::Failed("LSP server closed its stdout".to_string());
            },
        };
        let trimmed = str_trim(l);
        if trimmed.as_str().is_empty() {
            return match self.content_length {
                Some(n) => HeaderStep::Body(n),
                None => HeaderStep::Failed("missing Content-Length header".to_string()),
            };
        }
        match str_strip_prefix(trimmed.as_str(), "Content-Length: ") {
            Some(text) => match parse_number(text.as_str()) {
                Some(n) => {
                    self.content_length = Some(n);
                    HeaderStep::More
                },
                None => HeaderStep::Failed("invalid Content-Length".to_string()),
            },
            None => HeaderStep::More,
        }
    }
}

// ── Laws ────────────────────────────────────────────────────────────────────

/// A number written in decimal is read back.
pub proof fn decimal_is_read_back(n: nat)
    ensures
        digits_value(decimal(n)) == Some(n),
        decimal(n).len() > 0,
        digit_value(decimal(n)[0]) is Some,
    decreases n,
{
    if n < 10 {
        assert(decimal(n).drop_last() =~= Seq::empty());
        assert(digits_value(Seq::empty()) == Some(0nat));
    } else {
        decimal_is_read_back(n / 10);
        assert(decimal(n).drop_last() =~= decimal(n / 10));
        assert(decimal(n)[0] == decimal(n / 10)[0]);
    }
}

/// The line of a frame's header that tells the length of a body.
pub open spec fn length_line(body: Seq<char>) -> Seq<char> {
    "Content-Length: "@ + decimal(byte_len(body) as nat) + "\r\n"@
}

/// The header of a frame is read back: its first line tells the length of the body in bytes, and
/// its second one, which is blank, ends it.
pub proof fn header_is_read_back(body: Seq<char>)
    ensures
        content_header(body) == length_line(body) + "\r\n"@,
        told_length(length_line(body)) == Some(Some(byte_len(body))),
        trim("\r\n"@).len() == 0,
{
    reveal_strlit("Content-Length: ");
    reveal_strlit("\r\n");
    reveal_strlit("\r\n\r\n");
    let d = decimal(byte_len(body) as nat);
    let key = "Content-Length: "@;
    let end = "\r\n"@;
    assert("\r\n\r\n"@ =~= end + end);
    assert(content_header(body) =~= length_line(body) + end);
    decimal_has_no_space(byte_len(body) as nat);
    decimal_is_read_back(byte_len(body) as nat);
    let line = length_line(body);
    let t = key + d;
    assert(line[0] == 'C' && !is_space('C'));
    assert(trim_start(line) == line);
    assert(line.drop_last() =~= t.push('\r'));
    assert(t.push('\r').drop_last() =~= t);
    assert(t.last() == d.last());
    assert(!is_space(d[d.len() - 1]));
    assert(trim_end(t) == t);
    assert(is_space('\r') && is_space('\n'));
    assert(trim_end(t.push('\r')) == t);
    assert(trim_end(line) == t);
    assert(t.take(key.len() as int) =~= key);
    assert(t.skip(key.len() as int) =~= d);
    assert(d[0] != '+');
    assert(end.drop_first() =~= seq!['\n']);
    assert(end.drop_first().drop_first() =~= Seq::empty());
    assert(trim_start(end) =~= Seq::empty()) by {
        reveal_with_fuel(trim_start, 3);
    }
    assert(trim_end(Seq::<char>::empty()) =~= Seq::empty());
}

/// A message that is built as a request is told as one, with its id, method and parameters.
pub proof fn request_is_classified(id: i64, method: Seq<char>, params: Json)
    ensures
        classified(request_json(id, method, params)) == Ok::<Message, Seq<char>>(
            Message::ServerRequest { id: Json::Int(id as int), method, params: Some(params) },
        ),
{
    reveal_strlit("jsonrpc");
    reveal_strlit("id");
    reveal_strlit("method");
    reveal_strlit("params");
    reveal_strlit("result");
    reveal_strlit("error");
    let v = request_json(id, method, params);
    let e = v->Obj_0;
    different_keys();
    assert(e.drop_first() =~= seq![("id"@, Json::Int(id as int)), ("method"@, Json::Str(method)), ("params"@, params)]);
    assert(e.drop_first().drop_first() =~= seq![("method"@, Json::Str(method)), ("params"@, params)]);
    assert(e.drop_first().drop_first().drop_first() =~= seq![("params"@, params)]);
    assert(e.drop_first().drop_first().drop_first().drop_first() =~= Seq::empty());
    reveal_with_fuel(crate::json::key_index, 6);
}

/// A message that is built as a notification is told as one, with its method and parameters.
pub proof fn notification_is_classified(method: Seq<char>, params: Json)
    ensures
        classified(notification_json(method, params)) == Ok::<Message, Seq<char>>(
            Message::Notification { method, params: Some(params) },
        ),
{
    let e = notification_json(method, params)->Obj_0;
    different_keys();
    crate::json::first_entry_is_read(e, "id"@, 3);
    crate::json::first_entry_is_read(e, "method"@, 1);
    crate::json::first_entry_is_read(e, "params"@, 2);
}

/// The answer to a request of a server is a response to that request, without error.
pub proof fn reply_is_classified(id: i64)
    ensures
        classified(empty_reply(Json::Int(id as int))) == Ok::<Message, Seq<char>>(
            Message::Response { id, result: Some(Json::Null), error: None },
        ),
{
    let e = empty_reply(Json::Int(id as int))->Obj_0;
    different_keys();
    reveal_strlit("result");
    reveal_strlit("error");
    assert("result"@.len() != "error"@.len());
    crate::json::first_entry_is_read(e, "id"@, 1);
    crate::json::first_entry_is_read(e, "result"@, 2);
    crate::json::first_entry_is_read(e, "error"@, 3);
}

proof fn different_keys()
    ensures
        "jsonrpc"@ != "id"@,
        "jsonrpc"@ != "method"@,
        "jsonrpc"@ != "params"@,
        "jsonrpc"@ != "result"@,
        "jsonrpc"@ != "error"@,
        "id"@ != "method"@,
        "id"@ != "params"@,
        "id"@ != "result"@,
        "id"@ != "error"@,
        "method"@ != "params"@,
        "method"@ != "result"@,
        "method"@ != "error"@,
        "params"@ != "result"@,
        "params"@ != "error"@,
{
    reveal_strlit("jsonrpc");
    reveal_strlit("id");
    reveal_strlit("method");
    reveal_strlit("params");
    reveal_strlit("result");
    reveal_strlit("error");
    assert("jsonrpc"@.len() == 7 && "id"@.len() == 2 && "error"@.len() == 5);
    assert("method"@.len() == 6 && "params"@.len() == 6 && "result"@.len() == 6);
    assert("method"@[0] == 'm' && "params"@[0] == 'p' && "result"@[0] == 'r');
}

} // verus!
