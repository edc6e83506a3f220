//! Parsed requests, whichever transport delivered them.
//!
//! A [`WireRequest`] is what the apply thread works on; it never touches raw
//! frames. [`WireRequest::from`] turns a frame into one. The payload of a push
//! is an envelope of an event name and a body, in JSON or MsgPack; finding the
//! two in it is left to a scanner, whose findings [`PushPayload::resolve`]
//! turns into the request.

use crate::buffer::{bytes_of, bytes_slice};
use crate::text::{hex_byte, push_hex_byte};
use crate::wire::{Frame, FrameView, CT_JSON, CT_MSGPACK, OP_BATCH_GET, OP_GET, OP_GET_MULTI, OP_MGET, OP_PING,
    OP_PUSH, OP_REGISTER, OP_RESET};
use bytes::Bytes;
use vstd::prelude::*;

verus! {

/// A fully parsed inbound request, ready for the apply thread.
#[derive(Debug, Clone, PartialEq, Eq)]
pub enum WireRequest {
    /// Health probe over TCP; no payload.
    Ping,
    /// Registers a feature pipeline.
    Register { payload: Bytes },
    /// Event push over TCP. `body_format` is the content type of the body.
    TcpPush { event_name: String, body: Bytes, body_format: u8 },
    /// `POST /push/:event`.
    HttpPush { event_name: String, body: Bytes, body_format: u8 },
    /// `POST /push-sync/:event`: the push is durable before it is answered.
    HttpPushSync { event_name: String, body: Bytes, body_format: u8 },
    /// `POST /push-batch/:event`.
    HttpPushBatch { event_name: String, body: Bytes, body_format: u8 },
    /// `POST /get`: batch feature read.
    HttpGet { body: Bytes },
    /// `GET /get/:feature/:key`.
    HttpGetSingle { feature: String, key: String },
    /// Read of one feature of one key over TCP.
    TcpGet { body: Bytes, body_format: u8 },
    /// Read of one feature of many keys over TCP.
    TcpMGet { body: Bytes, body_format: u8 },
    /// Read of many features of many keys over TCP.
    TcpGetMulti { body: Bytes, body_format: u8 },
    /// Read of a list of table and entity pairs over TCP.
    TcpBatchGet { body: Bytes, body_format: u8 },
    /// `POST /batch_get`.
    HttpBatchGet { body: Bytes },
    /// Clears all state, over TCP. The body means nothing.
    TcpReset { body: Bytes, body_format: u8 },
    /// `POST /reset`.
    HttpReset { body: Bytes },
    /// A POST whose content type is not `application/json`. `received` is what
    /// the client sent, and empty where it sent none.
    HttpUnsupportedMediaType { received: String, path: String },
    /// `GET /health`.
    HttpHealth,
    /// `POST /ping`.
    HttpPing,
    /// `GET /ready`.
    HttpReady,
    /// `GET /registry`.
    HttpRegistry,
    /// No route has this path.
    HttpNotFound { path: String },
    /// The route does not take this method.
    HttpMethodNotAllowed { method: String, path: String },
    /// Unknown or reserved opcode.
    Unknown { op: u16 },
    /// Malformed frame.
    ParseError { reason: String },
}

/// What a [`WireRequest`] says.
#[allow(inconsistent_fields)]
pub enum RequestView {
    Ping,
    Register { payload: Seq<u8> },
    TcpPush { event_name: Seq<char>, body: Seq<u8>, body_format: u8 },
    HttpPush { event_name: Seq<char>, body: Seq<u8>, body_format: u8 },
    HttpPushSync { event_name: Seq<char>, body: Seq<u8>, body_format: u8 },
    HttpPushBatch { event_name: Seq<char>, body: Seq<u8>, body_format: u8 },
    HttpGet { body: Seq<u8> },
    HttpGetSingle { feature: Seq<char>, key: Seq<char> },
    TcpGet { body: Seq<u8>, body_format: u8 },
    TcpMGet { body: Seq<u8>, body_format: u8 },
    TcpGetMulti { body: Seq<u8>, body_format: u8 },
    TcpBatchGet { body: Seq<u8>, body_format: u8 },
    HttpBatchGet { body: Seq<u8> },
    TcpReset { body: Seq<u8>, body_format: u8 },
    HttpReset { body: Seq<u8> },
    HttpUnsupportedMediaType { received: Seq<char>, path: Seq<char> },
    HttpHealth,
    HttpPing,
    HttpReady,
    HttpRegistry,
    HttpNotFound { path: Seq<char> },
    HttpMethodNotAllowed { method: Seq<char>, path: Seq<char> },
    Unknown { op: u16 },
    ParseError { reason: Seq<char> },
}

impl View for WireRequest {
    type V = RequestView;

    open spec fn view(&self) -> RequestView {
        match *self {
            WireRequest::Ping => RequestView::Ping,
            WireRequest::Register { payload } => RequestView::Register { payload: bytes_of(payload) },
            WireRequest::TcpPush { event_name, body, body_format } => RequestView::TcpPush { event_name: event_name@, body: bytes_of(body), body_format },
            WireRequest::HttpPush { event_name, body, body_format } => RequestView::HttpPush { event_name: event_name@, body: bytes_of(body), body_format },
            WireRequest::HttpPushSync { event_name, body, body_format } => RequestView::HttpPushSync { event_name: event_name@, body: bytes_of(body), body_format },
            WireRequest::HttpPushBatch { event_name, body, body_format } => RequestView::HttpPushBatch { event_name: event_name@, body: bytes_of(body), body_format },
            WireRequest::HttpGet { body } => RequestView::HttpGet { body: bytes_of(body) },
            WireRequest::HttpGetSingle { feature, key } => RequestView::HttpGetSingle { feature: feature@, key: key@ },
            WireRequest::TcpGet { body, body_format } => RequestView::TcpGet { body: bytes_of(body), body_format },
            WireRequest::TcpMGet { body, body_format } => RequestView::TcpMGet { body: bytes_of(body), body_format },
            WireRequest::TcpGetMulti { body, body_format } => RequestView::TcpGetMulti { body: bytes_of(body), body_format },
            WireRequest::TcpBatchGet { body, body_format } => RequestView::TcpBatchGet { body: bytes_of(body), body_format },
            WireRequest::HttpBatchGet { body } => RequestView::HttpBatchGet { body: bytes_of(body) },
            WireRequest::TcpReset { body, body_format } => RequestView::TcpReset { body: bytes_of(body), body_format },
            WireRequest::HttpReset { body } => RequestView::HttpReset { body: bytes_of(body) },
            WireRequest::HttpUnsupportedMediaType { received, path } => RequestView::HttpUnsupportedMediaType { received: received@, path: path@ },
            WireRequest::HttpHealth => RequestView::HttpHealth,
            WireRequest::HttpPing => RequestView::HttpPing,
            WireRequest::HttpReady => RequestView::HttpReady,
            WireRequest::HttpRegistry => RequestView::HttpRegistry,
            WireRequest::HttpNotFound { path } => RequestView::HttpNotFound { path: path@ },
            WireRequest::HttpMethodNotAllowed { method, path } => RequestView::HttpMethodNotAllowed { method: method@, path: path@ },
            WireRequest::Unknown { op } => RequestView::Unknown { op },
            WireRequest::ParseError { reason } => RequestView::ParseError { reason: reason@ },
        }
    }
}

/// The formats an envelope or a row comes in.
#[derive(Debug, Clone, Copy, PartialEq, Eq, Structural)]
pub enum BodyFormat {
    Json,
    Msgpack,
}

impl BodyFormat {
    /// The content type of the format.
    pub open spec fn content_type(self) -> u8 {
        match self {
            BodyFormat::Json => CT_JSON,
            BodyFormat::Msgpack => CT_MSGPACK,
        }
    }
}

/// Where an envelope holds its event name and its body. The body is the
/// payload from `body_start` on and before `body_end`.
#[derive(Debug, PartialEq, Eq)]
pub struct Envelope {
    pub event_name: String,
    pub body_start: usize,
    pub body_end: usize,
}

impl Envelope {
    /// Whether the body lies within a payload of `len` bytes.
    pub open spec fn fits(self, len: nat) -> bool {
        self.body_start <= self.body_end <= len
    }
}

/// The payload of a push, before its envelope is scanned.
#[derive(Debug, PartialEq, Eq)]
pub struct PushPayload {
    pub format: BodyFormat,
    pub payload: Bytes,
}

/// What becomes of a frame.
#[derive(Debug, PartialEq, Eq)]
pub enum Conversion {
    /// The request is complete.
    Request(WireRequest),
    /// The request is a push, and its envelope has to be scanned first.
    Push(PushPayload),
}

impl Conversion {
    /// Whether the frame was refused, and `reason` says why.
    pub open spec fn refused(self, reason: Seq<char>) -> bool {
        self matches Conversion::Request(WireRequest::ParseError { reason: given }) && given@
            == reason
    }

    /// Whether this is what becomes of `frame`.
    pub open spec fn is_of(self, frame: FrameView) -> bool {
        let format = frame.content_type;
        if frame.op == OP_PING {
            self == Conversion::Request(WireRequest::Ping)
        } else if frame.op == OP_REGISTER {
            if format == CT_JSON {
                self matches Conversion::Request(WireRequest::Register { payload }) && bytes_of(
                    payload,
                ) == frame.payload
            } else {
                self.refused("unsupported content_type for register: "@ + hex_byte(format))
            }
        } else if !is_request_op(frame.op) {
            self == Conversion::Request(WireRequest::Unknown { op: frame.op })
        } else if format != CT_JSON && format != CT_MSGPACK {
            self.refused("unsupported content_type: "@ + hex_byte(format))
        } else if frame.op == OP_PUSH {
            self matches Conversion::Push(push) && carries(
                frame,
                push.payload,
                push.format.content_type(),
            )
        } else {
            self matches Conversion::Request(request) && {
                ||| request matches WireRequest::TcpGet { body, body_format } && frame.op == OP_GET
                    && carries(frame, body, body_format)
                ||| request matches WireRequest::TcpMGet { body, body_format } && frame.op
                    == OP_MGET && carries(frame, body, body_format)
                ||| request matches WireRequest::TcpGetMulti { body, body_format } && frame.op
                    == OP_GET_MULTI && carries(frame, body, body_format)
                ||| request matches WireRequest::TcpBatchGet { body, body_format } && frame.op
                    == OP_BATCH_GET && carries(frame, body, body_format)
                ||| request matches WireRequest::TcpReset { body, body_format } && frame.op
                    == OP_RESET && carries(frame, body, body_format)
            }
        }
    }
}

/// Whether a body and its content type are those of `frame`.
pub open spec fn carries(frame: FrameView, body: Bytes, body_format: u8) -> bool {
    bytes_of(body) == frame.payload && body_format == frame.content_type
}

/// Whether a client may send frames with this opcode.
pub open spec fn is_request_op(op: u16) -> bool {
    op == OP_PING || op == OP_REGISTER || op == OP_PUSH || op == OP_GET || op == OP_MGET || op
        == OP_GET_MULTI || op == OP_BATCH_GET || op == OP_RESET
}

/// A refusal that ends in the content type that is not taken.
fn unsupported(prefix: &str, content_type: u8) -> (r: Conversion)
    ensures
        r.refused(prefix@ + hex_byte(content_type)),
{
    let mut reason = prefix.to_owned();
    push_hex_byte(&mut reason, content_type);
    Conversion::Request(WireRequest::ParseError { reason })
}

impl WireRequest {
    /// Turns a frame into a request. Registration takes JSON only, pushes,
    /// reads and resets take JSON or MsgPack, and a ping takes anything; a
    /// frame with another content type becomes a parse error, and one with an
    /// opcode that no client sends becomes [`WireRequest::Unknown`].
    pub fn from(frame: Frame) -> (r: Conversion)
        ensures
            r.is_of(frame@),
    {
        let Frame { op, content_type, payload } = frame;
        if op == OP_PING {
            return Conversion::Request(WireRequest::Ping);
        }
        if op == OP_REGISTER {
            if content_type == CT_JSON {
                return Conversion::Request(WireRequest::Register { payload });
            }
            return unsupported("unsupported content_type for register: ", content_type);
        }
        let body_format = content_type;
        if op == OP_PUSH {
            if content_type == CT_JSON {
                return Conversion::Push(PushPayload { format: BodyFormat::Json, payload });
            }
            if content_type == CT_MSGPACK {
                return Conversion::Push(PushPayload { format: BodyFormat::Msgpack, payload });
            }
            return unsupported("unsupported content_type: ", content_type);
        }
        let is_body_op = op == OP_GET || op == OP_MGET || op == OP_GET_MULTI || op == OP_BATCH_GET
            || op == OP_RESET;
        if !is_body_op {
            return Conversion::Request(WireRequest::Unknown { op });
        }
        if content_type != CT_JSON && content_type != CT_MSGPACK {
            return unsupported("unsupported content_type: ", content_type);
        }
        let request = if op == OP_GET {
            WireRequest::TcpGet { body: payload, body_format }
        } else if op == OP_MGET {
            WireRequest::TcpMGet { body: payload, body_format }
        } else if op == OP_GET_MULTI {
            WireRequest::TcpGetMulti { body: payload, body_format }
        } else if op == OP_BATCH_GET {
            WireRequest::TcpBatchGet { body: payload, body_format }
        } else {
            WireRequest::TcpReset { body: payload, body_format }
        };
        Conversion::Request(request)
    }
}

impl PushPayload {
    /// Whether `request` is what the findings of the scanner make of the
    /// push: the event name and the body where it found them, and its
    /// complaint otherwise.
    pub open spec fn resolves_to(self, scan: Result<Envelope, String>, request: WireRequest) -> bool {
        match scan {
            Ok(envelope) => {
                &&& request matches WireRequest::TcpPush { event_name, body, body_format }
                &&& event_name@ == envelope.event_name@
                &&& bytes_of(body) == bytes_of(self.payload).subrange(
                    envelope.body_start as int,
                    envelope.body_end as int,
                )
                &&& body_format == self.format.content_type()
            },
            Err(complaint) => {
                &&& request matches WireRequest::ParseError { reason }
                &&& reason@ == match self.format {
                    BodyFormat::Json => complaint@,
                    BodyFormat::Msgpack => "msgpack envelope parse failed: "@ + complaint@,
                }
            },
        }
    }

    /// Makes the request out of what the scanner of [`PushPayload::format`]
    /// found in [`PushPayload::payload`]. The body shares the memory of the
    /// payload.
    pub fn resolve(self, scan: Result<Envelope, String>) -> (r: WireRequest)
        requires
            scan matches Ok(envelope) ==> envelope.fits(bytes_of(self.payload).len()),
        ensures
            self.resolves_to(scan, r),
    {
        match scan {
            Ok(envelope) => {
                let body = bytes_slice(&self.payload, envelope.body_start, envelope.body_end);
                let body_format = match self.format {
                    BodyFormat::Json => CT_JSON,
                    BodyFormat::Msgpack => CT_MSGPACK,
                };
                WireRequest::TcpPush { event_name: envelope.event_name, body, body_format }
            },
            Err(complaint) => match self.format {
                BodyFormat::Json => WireRequest::ParseError { reason: complaint },
                BodyFormat::Msgpack => {
                    let mut reason = "msgpack envelope parse failed: ".to_owned();
                    reason.append(complaint.as_str());
                    WireRequest::ParseError { reason }
                },
            },
        }
    }
}

/// The format of a row in a body with this content type.
pub open spec fn row_format(body_format: u8) -> BodyFormat {
    if body_format == CT_MSGPACK {
        BodyFormat::Msgpack
    } else {
        BodyFormat::Json
    }
}

/// The body that is to be decoded into a row, and its format.
pub struct RowSource<'a> {
    pub format: BodyFormat,
    pub body: &'a Bytes,
}

impl WireRequest {
    /// The body and the content type of a push, over TCP or HTTP.
    pub open spec fn pushed(self) -> Option<(Bytes, u8)> {
        match self {
            WireRequest::TcpPush { body, body_format, .. } => Some((body, body_format)),
            WireRequest::HttpPush { body, body_format, .. } => Some((body, body_format)),
            WireRequest::HttpPushSync { body, body_format, .. } => Some((body, body_format)),
            WireRequest::HttpPushBatch { body, body_format, .. } => Some((body, body_format)),
            _ => None,
        }
    }

    /// Which part of the request is decoded into a row before the apply thread
    /// sees it: the body of a push, as MsgPack where its content type says so
    /// and as JSON otherwise. No other request carries a row.
    pub fn row_source(&self) -> (r: Option<RowSource<'_>>)
        ensures
            match (self.pushed(), r) {
                (Some((body, body_format)), Some(source)) => *source.body == body && source.format
                    == row_format(body_format),
                (None, None) => true,
                _ => false,
            },
    {
        match self {
            WireRequest::TcpPush { body, body_format, .. } => Some(row_source_of(body, *body_format)),
            WireRequest::HttpPush { body, body_format, .. } => Some(
                row_source_of(body, *body_format),
            ),
            WireRequest::HttpPushSync { body, body_format, .. } => Some(
                row_source_of(body, *body_format),
            ),
            WireRequest::HttpPushBatch { body, body_format, .. } => Some(
                row_source_of(body, *body_format),
            ),
            _ => None,
        }
    }
}

/// A body, to be decoded as its content type says.
fn row_source_of(body: &Bytes, body_format: u8) -> (r: RowSource<'_>)
    ensures
        *r.body == *body,
        r.format == row_format(body_format),
{
    let format = if body_format == CT_MSGPACK {
        BodyFormat::Msgpack
    } else {
        BodyFormat::Json
    };
    RowSource { format, body }
}

impl WireRequest {
    /// Whether this is the request that `frame` stands for, whatever a scanner
    /// finds in it.
    pub open spec fn made_of(self, frame: FrameView) -> bool {
        ||| Conversion::Request(self).is_of(frame)
        ||| exists|push: PushPayload, scan: Result<Envelope, String>| #[trigger]
            push.resolves_to(scan, self) && Conversion::Push(push).is_of(frame)
    }
}

// ---------------------------------------------------------------------------
// What a frame says, given what a scanner finds
// ---------------------------------------------------------------------------

/// What a scanner found in an envelope: the event name, and where the body
/// starts and ends.
pub struct ScanView {
    pub event_name: Seq<char>,
    pub body_start: int,
    pub body_end: int,
}

/// What the findings of a scanner say.
pub open spec fn scan_view(scan: Result<Envelope, String>) -> Result<ScanView, Seq<char>> {
    match scan {
        Ok(envelope) => Ok(
            ScanView {
                event_name: envelope.event_name@,
                body_start: envelope.body_start as int,
                body_end: envelope.body_end as int,
            },
        ),
        Err(complaint) => Err(complaint@),
    }
}

/// A scanner of envelopes that finds the same in the same payload.
pub type Scanner = spec_fn(BodyFormat, Seq<u8>) -> Result<ScanView, Seq<char>>;

/// The request that `frame` stands for, where `scanner` scans envelopes.
pub open spec fn request_of(frame: FrameView, scanner: Scanner) -> RequestView {
    let body = frame.payload;
    let body_format = frame.content_type;
    let format = if body_format == CT_JSON {
        BodyFormat::Json
    } else {
        BodyFormat::Msgpack
    };
    if frame.op == OP_PING {
        RequestView::Ping
    } else if frame.op == OP_REGISTER {
        if body_format == CT_JSON {
            RequestView::Register { payload: body }
        } else {
            RequestView::ParseError {
                reason: "unsupported content_type for register: "@ + hex_byte(body_format),
            }
        }
    } else if !is_request_op(frame.op) {
        RequestView::Unknown { op: frame.op }
    } else if body_format != CT_JSON && body_format != CT_MSGPACK {
        RequestView::ParseError { reason: "unsupported content_type: "@ + hex_byte(body_format) }
    } else if frame.op == OP_PUSH {
        match scanner(format, body) {
            Ok(scan) => RequestView::TcpPush {
                event_name: scan.event_name,
                body: body.subrange(scan.body_start, scan.body_end),
                body_format,
            },
            Err(complaint) => RequestView::ParseError {
                reason: match format {
                    BodyFormat::Json => complaint,
                    BodyFormat::Msgpack => "msgpack envelope parse failed: "@ + complaint,
                },
            },
        }
    } else if frame.op == OP_GET {
        RequestView::TcpGet { body, body_format }
    } else if frame.op == OP_MGET {
        RequestView::TcpMGet { body, body_format }
    } else if frame.op == OP_GET_MULTI {
        RequestView::TcpGetMulti { body, body_format }
    } else if frame.op == OP_BATCH_GET {
        RequestView::TcpBatchGet { body, body_format }
    } else {
        RequestView::TcpReset { body, body_format }
    }
}

/// A decoder of rows that makes the same of the same body.
pub type Decoder<R> = spec_fn(BodyFormat, Seq<u8>) -> Option<R>;

/// The row in a request, where `decoder` decodes rows.
pub open spec fn row_of<R>(request: RequestView, decoder: Decoder<R>) -> Option<R> {
    let pushed = match request {
        RequestView::TcpPush { body, body_format, .. } => Some((body, body_format)),
        RequestView::HttpPush { body, body_format, .. } => Some((body, body_format)),
        RequestView::HttpPushSync { body, body_format, .. } => Some((body, body_format)),
        RequestView::HttpPushBatch { body, body_format, .. } => Some((body, body_format)),
        _ => None,
    };
    match pushed {
        Some((body, body_format)) => decoder(row_format(body_format), body),
        None => None,
    }
}

/// With a scanner that finds the same in the same payload, what a frame becomes
/// is a matter of the frame alone.
pub proof fn law_a_frame_has_one_request(
    frame: FrameView,
    conversion: Conversion,
    scanner: Scanner,
    scan: Result<Envelope, String>,
    request: WireRequest,
)
    requires
        conversion.is_of(frame),
        match conversion {
            Conversion::Request(converted) => request == converted,
            Conversion::Push(push) => push.resolves_to(scan, request) && scan_view(scan) == scanner(
                push.format,
                bytes_of(push.payload),
            ),
        },
    ensures
        request@ == request_of(frame, scanner),
{
}

/// Requests carry the body format of their frame: whatever a frame becomes that
/// has a body, it says of the body what the frame said, and the body is the
/// payload of the frame or, for a push, the part of it that the scanner found.
pub proof fn law_body_format_is_carried(
    frame: FrameView,
    conversion: Conversion,
    scan: Result<Envelope, String>,
    request: WireRequest,
)
    requires
        conversion.is_of(frame),
        match conversion {
            Conversion::Request(converted) => request == converted,
            Conversion::Push(push) => push.resolves_to(scan, request),
        },
    ensures
        request matches WireRequest::TcpGet { body, body_format } ==> carries(
            frame,
            body,
            body_format,
        ),
        request matches WireRequest::TcpMGet { body, body_format } ==> carries(
            frame,
            body,
            body_format,
        ),
        request matches WireRequest::TcpGetMulti { body, body_format } ==> carries(
            frame,
            body,
            body_format,
        ),
        request matches WireRequest::TcpBatchGet { body, body_format } ==> carries(
            frame,
            body,
            body_format,
        ),
        request matches WireRequest::TcpReset { body, body_format } ==> carries(
            frame,
            body,
            body_format,
        ),
        request matches WireRequest::TcpPush { event_name, body, body_format } ==> {
            &&& scan matches Ok(envelope)
            &&& event_name@ == envelope.event_name@
            &&& bytes_of(body) == frame.payload.subrange(
                envelope.body_start as int,
                envelope.body_end as int,
            )
            &&& body_format == frame.content_type
        },
{
}

/// What each opcode asks for. A ping is a ping whatever else is in its frame.
/// Registration takes JSON. Pushes, reads and resets take JSON and MsgPack, and
/// keep the whole payload and its format. Any other format is refused by its
/// number, and any other opcode is unknown.
pub proof fn law_what_each_opcode_asks_for(frame: FrameView, conversion: Conversion)
    requires
        conversion.is_of(frame),
    ensures
        frame.op == 0x0000 ==> conversion == Conversion::Request(WireRequest::Ping),
        frame.op == 0x0001 && frame.content_type == 1 ==> (conversion matches Conversion::Request(
            WireRequest::Register { payload },
        ) && bytes_of(payload) == frame.payload),
        frame.op == 0x0001 && frame.content_type != 1 ==> (conversion matches Conversion::Request(
            WireRequest::ParseError { reason },
        ) && reason@ == "unsupported content_type for register: "@ + hex_byte(frame.content_type)),
        frame.op == 0x0010 && (frame.content_type == 1 || frame.content_type == 2) ==> (
        conversion matches Conversion::Push(push) && bytes_of(push.payload) == frame.payload && (
        push.format is Json <==> frame.content_type == 1)),
        frame.op == 0x0020 && (frame.content_type == 1 || frame.content_type == 2) ==> (
        conversion matches Conversion::Request(
            WireRequest::TcpGet { body, body_format },
        ) && bytes_of(body) == frame.payload && body_format == frame.content_type),
        frame.op == 0x0021 && (frame.content_type == 1 || frame.content_type == 2) ==> (
        conversion matches Conversion::Request(
            WireRequest::TcpMGet { body, body_format },
        ) && bytes_of(body) == frame.payload && body_format == frame.content_type),
        frame.op == 0x0022 && (frame.content_type == 1 || frame.content_type == 2) ==> (
        conversion matches Conversion::Request(
            WireRequest::TcpGetMulti { body, body_format },
        ) && bytes_of(body) == frame.payload && body_format == frame.content_type),
        frame.op == 0x0024 && (frame.content_type == 1 || frame.content_type == 2) ==> (
        conversion matches Conversion::Request(
            WireRequest::TcpBatchGet { body, body_format },
        ) && bytes_of(body) == frame.payload && body_format == frame.content_type),
        frame.op == 0x0040 && (frame.content_type == 1 || frame.content_type == 2) ==> (
        conversion matches Conversion::Request(
            WireRequest::TcpReset { body, body_format },
        ) && bytes_of(body) == frame.payload && body_format == frame.content_type),
        (frame.op == 0x0010 || 0x0020 <= frame.op <= 0x0022 || frame.op == 0x0024 || frame.op
            == 0x0040) && frame.content_type != 1 && frame.content_type != 2 ==> (
        conversion matches Conversion::Request(WireRequest::ParseError { reason }) && reason@
            == "unsupported content_type: "@ + hex_byte(frame.content_type)),
        frame.op != 0x0000 && frame.op != 0x0001 && frame.op != 0x0010 && !(0x0020 <= frame.op
            <= 0x0022) && frame.op != 0x0024 && frame.op != 0x0040 ==> conversion
            == Conversion::Request(WireRequest::Unknown { op: frame.op }),
{
}

/// What becomes of a push once its envelope is scanned: the event name and the
/// part of the payload that the scanner found, in the format of the payload; or
/// the complaint of the scanner, word for word for JSON and with a word of
/// explanation for MsgPack.
pub proof fn law_what_a_scanned_push_becomes(
    push: PushPayload,
    scan: Result<Envelope, String>,
    request: WireRequest,
)
    requires
        push.resolves_to(scan, request),
    ensures
        scan matches Ok(envelope) ==> (request matches WireRequest::TcpPush {
            event_name,
            body,
            body_format,
        } && event_name@ == envelope.event_name@ && bytes_of(body) == bytes_of(
            push.payload,
        ).subrange(envelope.body_start as int, envelope.body_end as int) && body_format
            == if push.format is Json {
            1u8
        } else {
            2u8
        }),
        scan matches Err(complaint) ==> (request matches WireRequest::ParseError { reason }
            && reason@ == if push.format is Json {
            complaint@
        } else {
            "msgpack envelope parse failed: "@ + complaint@
        }),
{
}

/// The row of a push is decoded from its whole body, with its format; a request
/// that is no push has no row.
pub proof fn law_only_pushes_have_rows(request: WireRequest)
    ensures
        request matches WireRequest::TcpPush { body, body_format, .. } ==> request.pushed() == Some(
            (body, body_format),
        ),
        request matches WireRequest::HttpPush { body, body_format, .. } ==> request.pushed()
            == Some((body, body_format)),
        request matches WireRequest::HttpPushSync { body, body_format, .. } ==> request.pushed()
            == Some((body, body_format)),
        request matches WireRequest::HttpPushBatch { body, body_format, .. } ==> request.pushed()
            == Some((body, body_format)),
        request.pushed() is Some ==> request is TcpPush || request is HttpPush
            || request is HttpPushSync || request is HttpPushBatch,
        forall|body_format: u8| #[trigger] row_format(body_format) is Msgpack <==> body_format == 2,
{
}

} // verus!
