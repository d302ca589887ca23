//! What client and daemon say to each other, and the frames they say it in.

use crate::json::{Json, JsonValue};
use crate::text::{decimal, opt_view, push_decimal};
use vstd::prelude::*;

verus! {

/// Greatest size of a frame's payload: 10 MB.
pub const MAX_FRAME_SIZE: u32 = 10_485_760;

/// What a client asks of the daemon.
#[derive(Debug, PartialEq)]
#[allow(inconsistent_fields)]
pub enum Request {
    Status,
    DaemonStop,
    Init,
    Check {
        path: Option<String>,
        /// If true, suppress warnings and hints.
        errors_only: bool,
    },
    FindSymbol {
        name: String,
        /// Substring filter applied to result paths.
        path_filter: Option<String>,
        /// Leave out what the ignore files of the project ignore, such as build output and installed
        /// packages.
        src_only: bool,
        /// Include full symbol body in each result.
        include_body: bool,
    },
    FindImpl { name: String },
    FindRefs {
        name: String,
        /// Enrich each reference with its containing symbol.
        with_symbol: bool,
    },
    ListSymbols { path: String, depth: u8 },
    ReadFile { path: String, from: Option<u32>, to: Option<u32>, max_lines: Option<u32> },
    ReadSymbol {
        name: String,
        signature_only: bool,
        max_lines: Option<u32>,
        /// Substring filter to select the right definition when multiple exist.
        path_filter: Option<String>,
        /// Skip overload stubs and return the real implementation body.
        has_body: bool,
    },
    EditReplace { symbol: String, code: String },
    EditInsertAfter { symbol: String, code: String },
    EditInsertBefore { symbol: String, code: String },
    Hover { name: String },
    Format { path: String },
    Rename { name: String, new_name: String },
    Fix { path: Option<String> },
    /// Get running language server status from the daemon.
    ServerStatus,
    /// Restart a language server in the daemon.
    ServerRestart { language: String },
}

/// Why a request failed.
#[derive(Debug, PartialEq)]
pub struct ErrorPayload {
    pub code: String,
    pub message: String,
    pub advice: Option<String>,
}

/// What the daemon answers.
#[derive(Debug, PartialEq)]
pub struct Response {
    pub success: bool,
    pub data: Option<JsonValue>,
    pub error: Option<ErrorPayload>,
}

/// The mathematical value of an [`ErrorPayload`].
#[verifier::ext_equal]
pub struct Failure {
    pub code: Seq<char>,
    pub message: Seq<char>,
    pub advice: Option<Seq<char>>,
}

impl View for ErrorPayload {
    type V = Failure;

    open spec fn view(&self) -> Failure {
        Failure { code: self.code@, message: self.message@, advice: opt_view(self.advice) }
    }
}

/// The mathematical value of a [`Response`].
#[verifier::ext_equal]
pub struct Answer {
    pub success: bool,
    pub data: Option<Json>,
    pub error: Option<Failure>,
}

impl View for Response {
    type V = Answer;

    open spec fn view(&self) -> Answer {
        Answer {
            success: self.success,
            data: match self.data {
                Some(d) => Some(d@),
                None => None,
            },
            error: match self.error {
                Some(e) => Some(e@),
                None => None,
            },
        }
    }
}

/// An answer with data.
pub open spec fn success(data: Json) -> Answer {
    Answer { success: true, data: Some(data), error: None }
}

/// An answer that tells of a failure.
pub open spec fn failure(code: Seq<char>, message: Seq<char>, advice: Option<Seq<char>>) -> Answer {
    Answer { success: false, data: None, error: Some(Failure { code, message, advice }) }
}

impl Response {
    /// An answer with data.
    pub fn ok(data: JsonValue) -> (r: Response)
        ensures
            r@ == success(data@),
    {
        Response { success: true, data: Some(data), error: None }
    }

    /// An answer that tells of a failure.
    pub fn err(code: &str, message: &str) -> (r: Response)
        ensures
            r@ == failure(code@, message@, None),
    {
        Response {
            success: false,
            data: None,
            error: Some(ErrorPayload { code: code.to_string(), message: message.to_string(), advice: None }),
        }
    }

    /// An answer that tells of a failure and what to do about it.
    pub fn err_with_advice(code: &str, message: &str, advice: &str) -> (r: Response)
        ensures
            r@ == failure(code@, message@, Some(advice@)),
    {
        Response {
            success: false,
            data: None,
            error: Some(
                ErrorPayload {
                    code: code.to_string(),
                    message: message.to_string(),
                    advice: Some(advice.to_string()),
                },
            ),
        }
    }

    /// An answer that tells that the command is not there yet.
    pub fn not_implemented() -> (r: Response)
        ensures
            r@ == failure("not_implemented"@, "This command is not yet implemented"@, None),
    {
        Response::err("not_implemented", "This command is not yet implemented")
    }
}

// ── Frames ──────────────────────────────────────────────────────────────────

/// Why bytes are no frame, or a payload does not fit in one.
#[derive(Debug, Clone, Copy, PartialEq, Eq, Structural)]
pub enum FrameError {
    Oversized { size: u32 },
    Incomplete { expected: u32, got: usize },
}

impl FrameError {
    /// What the error says.
    pub open spec fn text(self) -> Seq<char> {
        match self {
            FrameError::Oversized { size } => "Frame exceeds maximum size of "@ + decimal(MAX_FRAME_SIZE as nat)
                + " bytes (got "@ + decimal(size as nat) + ")"@,
            FrameError::Incomplete { expected, got } => "Incomplete frame: expected "@ + decimal(expected as nat)
                + " bytes, got "@ + decimal(got as nat),
        }
    }

    /// Says what is wrong.
    pub fn message(&self) -> (r: String)
        ensures
            r@ == self.text(),
    {
        match self {
            FrameError::Oversized { size } => {
                let mut m = "Frame exceeds maximum size of ".to_string();
                push_decimal(&mut m, MAX_FRAME_SIZE as u64);
                m.append(" bytes (got ");
                push_decimal(&mut m, *size as u64);
                m.append(")");
                m
            },
            FrameError::Incomplete { expected, got } => {
                let mut m = "Incomplete frame: expected ".to_string();
                push_decimal(&mut m, *expected as u64);
                m.append(" bytes, got ");
                push_decimal(&mut m, *got as u64);
                m
            },
        }
    }
}

/// The four bytes of `n`, the most significant first.
pub open spec fn big_endian(n: int) -> Seq<u8> {
    seq![(n / 16777216) as u8, (n / 65536 % 256) as u8, (n / 256 % 256) as u8, (n % 256) as u8]
}

/// The number of four bytes, the most significant first.
pub open spec fn from_big_endian(b: Seq<u8>) -> int {
    b[0] * 16777216 + b[1] * 65536 + b[2] * 256 + b[3]
}

/// The frame of a payload: its length in four bytes, then the payload.
pub open spec fn frame(payload: Seq<u8>) -> Seq<u8> {
    big_endian(payload.len() as int) + payload
}

/// Puts a payload into a frame.
pub fn encode_frame(payload: &Vec<u8>) -> (r: Result<Vec<u8>, FrameError>)
    ensures
        match r {
            Ok(f) => payload@.len() <= MAX_FRAME_SIZE && f@ == frame(payload@),
            Err(e) => payload@.len() > MAX_FRAME_SIZE && e == (FrameError::Oversized {
                size: if payload@.len() <= u32::MAX {
                    payload@.len() as u32
                } else {
                    u32::MAX
                },
            }),
        },
{
    let n: usize = payload.len();
    if n > 0xffff_ffff {
        return Err(FrameError::Oversized { size: 0xffff_ffff });
    }
    let len: u32 = n as u32;
    if len > MAX_FRAME_SIZE {
        return Err(FrameError::Oversized { size: len });
    }
    let mut buf: Vec<u8> = Vec::new();
    buf.push((len / 16777216) as u8);
    buf.push((len / 65536 % 256) as u8);
    buf.push((len / 256 % 256) as u8);
    buf.push((len % 256) as u8);
    let mut i: usize = 0;
    assert(buf@ =~= big_endian(len as int) + payload@.take(0));
    while i < payload.len()
        invariant
            0 <= i <= payload@.len(),
            buf@ == big_endian(len as int) + payload@.take(i as int),
        decreases payload@.len() - i,
    {
        buf.push(payload[i]);
        i = i + 1;
        assert(buf@ =~= big_endian(len as int) + payload@.take(i as int));
    }
    assert(payload@.take(i as int) =~= payload@);
    Ok(buf)
}

/// Takes the payload out of the frame at the start of `buf`, and tells how many bytes the frame has.
pub fn decode_frame(buf: &[u8]) -> (r: Result<(Vec<u8>, usize), FrameError>)
    ensures
        match r {
            Ok((payload, total)) => {
                let len = from_big_endian(buf@);
                &&& buf@.len() >= 4 + len
                &&& len <= MAX_FRAME_SIZE
                &&& total == 4 + len
                &&& payload@ == buf@.subrange(4, 4 + len)
            },
            Err(FrameError::Oversized { size }) => buf@.len() >= 4 && size == from_big_endian(buf@) && size
                > MAX_FRAME_SIZE,
            Err(FrameError::Incomplete { expected, got }) => if buf@.len() < 4 {
                expected == 4 && got == buf@.len()
            } else {
                expected == from_big_endian(buf@) && expected <= MAX_FRAME_SIZE && got == buf@.len() - 4 && got
                    < expected
            },
        },
{
    let n: usize = buf.len();
    if n < 4 {
        return Err(FrameError::Incomplete { expected: 4, got: n });
    }
    let len: u32 = buf[0] as u32 * 16777216 + buf[1] as u32 * 65536 + buf[2] as u32 * 256 + buf[3] as u32;
    if len > MAX_FRAME_SIZE {
        return Err(FrameError::Oversized { size: len });
    }
    let total: usize = 4 + len as usize;
    if n < total {
        return Err(FrameError::Incomplete { expected: len, got: n - 4 });
    }
    let mut payload: Vec<u8> = Vec::new();
    let mut i: usize = 4;
    while i < total
        invariant
            4 <= i <= total <= buf@.len(),
            payload@ == buf@.subrange(4, i as int),
        decreases total - i,
    {
        payload.push(buf[i]);
        i = i + 1;
        assert(payload@ =~= buf@.subrange(4, i as int));
    }
    Ok((payload, total))
}

// ── Laws ────────────────────────────────────────────────────────────────────

/// A frame is read back as the payload that was put in it, whatever follows it.
pub proof fn frame_is_read_back(payload: Seq<u8>, rest: Seq<u8>)
    requires
        payload.len() <= MAX_FRAME_SIZE,
    ensures
        from_big_endian(frame(payload) + rest) == payload.len(),
        (frame(payload) + rest).subrange(4, 4 + payload.len() as int) == payload,
        frame(payload).len() == 4 + payload.len(),
{
    let n = payload.len() as int;
    let f = frame(payload) + rest;
    assert(n / 16777216 < 256 && n / 65536 % 256 < 256 && n / 256 % 256 < 256 && n % 256 < 256);
    assert(n == n / 16777216 * 16777216 + n / 65536 % 256 * 65536 + n / 256 % 256 * 256 + n % 256) by (nonlinear_arith)
        requires
            0 <= n <= 10_485_760,
    ;
    assert(f.subrange(4, 4 + payload.len() as int) =~= payload);
}

/// Of a frame that is cut short, no payload is read: what is left is shorter than it declares.
pub proof fn cut_frame_is_incomplete(payload: Seq<u8>, cut: int)
    requires
        payload.len() <= MAX_FRAME_SIZE,
        4 <= cut < 4 + payload.len(),
    ensures
        from_big_endian(frame(payload).take(cut)) == payload.len(),
        frame(payload).take(cut).len() < 4 + from_big_endian(frame(payload).take(cut)),
{
    frame_is_read_back(payload, Seq::empty());
    let f = frame(payload);
    assert(f + Seq::empty() =~= f);
    let t = f.take(cut);
    assert(t[0] == f[0] && t[1] == f[1] && t[2] == f[2] && t[3] == f[3]);
}

} // verus!
