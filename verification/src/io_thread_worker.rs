//! What an I/O worker thread knows of its clients, and how it parses what they
//! send and sends what they are owed.
//!
//! A worker reads from many clients, cuts what it reads into requests, and
//! pushes them to the apply thread as [`RingItem`]s; responses come back as
//! bytes that are queued per client and written when the socket takes them.
//! Sockets and channels stay outside: [`ParsePass`] and [`WorkerClient`] say
//! what to do with them and are told what came of it.

use crate::buffer::{as_slice, bytes_as_slice, bytes_of, content, MAX_BUFFER_BYTES};
use crate::json::{json_text, literal, no_entries, no_members, number, object, object1, one, put, string, Json};
use crate::text::decimal;
use crate::wire::{after_first, decode_frame, drain, encode_frame, first_frame, json_frame,
    law_cuts_do_not_matter, law_decoding_in_bytes, too_large_message, too_large_text, Drained, Frame, FrameError, FrameView,
    HEADER_LEN, OP_ERROR_RESPONSE};
use crate::wire_request::{law_a_frame_has_one_request, request_of, row_of, scan_view, Conversion,
    Decoder, Envelope, PushPayload, RequestView, Scanner, WireRequest};
use bytes::BytesMut;
use vstd::prelude::*;

verus! {

/// Protocol of a client connection.
#[derive(Debug, Clone, Copy, PartialEq, Eq, Structural)]
pub enum WorkerProto {
    /// HTTP/1.1.
    Http,
    /// The framed wire protocol.
    Tcp,
}

/// A new client, handed from the apply thread to a worker.
pub struct NewClient<S> {
    /// The stream to register with the backend of the worker.
    pub stream: S,
    /// Deterministic slot index.
    pub slot_idx: u64,
    /// Protocol of the connection.
    pub proto: WorkerProto,
}

/// Why parsing what a client sent had to stop.
#[derive(Debug, Clone, Copy, PartialEq, Eq, Structural)]
pub enum ParseErrorKind {
    /// A frame is larger than allowed.
    TcpFrameTooLarge { declared: u32, limit: u32 },
    /// A frame is malformed.
    TcpFrame,
    /// An HTTP request is malformed.
    HttpProtocol,
}

/// What a worker pushes to the apply thread. `R` is a decoded row.
pub enum RingItem<R> {
    /// A request of the client in slot `slot_idx`.
    Request { slot_idx: u32, keep_alive: bool, request: WireRequest, parsed_row: Option<R> },
    /// The client in slot `slot_idx` sent something that is no request.
    ParseError { slot_idx: u32, kind: ParseErrorKind },
}

/// What a [`RingItem`] says.
pub enum ItemView<R> {
    Request { slot_idx: u32, keep_alive: bool, request: RequestView, parsed_row: Option<R> },
    ParseError { slot_idx: u32, kind: ParseErrorKind },
}

impl<R> View for RingItem<R> {
    type V = ItemView<R>;

    open spec fn view(&self) -> ItemView<R> {
        match *self {
            RingItem::Request { slot_idx, keep_alive, request, parsed_row } => ItemView::Request {
                slot_idx,
                keep_alive,
                request: request@,
                parsed_row,
            },
            RingItem::ParseError { slot_idx, kind } => ItemView::ParseError { slot_idx, kind },
        }
    }
}

/// What a worker holds of one client.
pub struct WorkerClient {
    read_buf: BytesMut,
    write_buf: BytesMut,
    proto: WorkerProto,
    closed: bool,
}

/// What a [`WorkerClient`] says.
pub struct ClientView {
    /// What has been read and not been parsed.
    pub unparsed: Seq<u8>,
    /// What has been queued and not been written.
    pub unwritten: Seq<u8>,
    /// Protocol of the connection.
    pub proto: WorkerProto,
    /// Whether the connection is to be closed.
    pub closed: bool,
}

impl View for WorkerClient {
    type V = ClientView;

    closed spec fn view(&self) -> ClientView {
        ClientView {
            unparsed: content(self.read_buf),
            unwritten: content(self.write_buf),
            proto: self.proto,
            closed: self.closed,
        }
    }
}

/// The low 32 bits of a slot.
pub open spec fn slot_index(slot: u64) -> u32 {
    (slot % 0x1_0000_0000) as u32
}

/// The document that tells a client that its frame is too large.
pub open spec fn too_large_document(declared: u32, limit: u32) -> Json {
    object1(
        "error"@,
        Json::Object(
            no_entries().insert("code"@, Json::Text("frame_too_large"@)).insert(
                "message"@,
                Json::Text(too_large_text(declared, limit)),
            ).insert("limit"@, Json::Unsigned(limit as u64)).insert(
                "declared"@,
                Json::Unsigned(declared as u64),
            ),
        ),
    )
}

/// The frame that tells a client that its frame is too large.
pub open spec fn too_large_frame(declared: u32, limit: u32) -> FrameView {
    json_frame(OP_ERROR_RESPONSE, too_large_document(declared, limit))
}

/// Makes the frame that tells a client that its frame is too large.
pub fn frame_too_large(declared: u32, limit: u32) -> (r: Frame)
    ensures
        r@ == too_large_frame(declared, limit),
{
    let mut members = no_members();
    put(&mut members, "code", literal("frame_too_large"));
    put(&mut members, "message", string(too_large_message(declared, limit)));
    put(&mut members, "limit", number(limit as u64));
    put(&mut members, "declared", number(declared as u64));
    Frame::json(OP_ERROR_RESPONSE, one("error", object(members)))
}

/// What came of reading from a client.
pub enum ReadOutcome<'a> {
    /// Bytes, or none where the client closed the connection.
    Bytes(&'a [u8]),
    /// An error.
    Failed,
}

/// What the flushing of a client's queue asks for.
#[derive(Debug, Clone, Copy, PartialEq, Eq, Structural)]
pub enum FlushStep {
    /// Write what is queued, and report what came of it.
    Write,
    /// Nothing is queued any more: stop waiting for the socket to be writable.
    Disarm,
    /// The socket takes no more for now, or failed.
    Stop,
}

/// What is asked for next with `queue` in the queue.
pub open spec fn flush_next(queue: Seq<u8>) -> FlushStep {
    if queue.len() == 0 {
        FlushStep::Disarm
    } else {
        FlushStep::Write
    }
}

/// Whether a write of what is queued for `client` leads to `after` and asks for
/// `step`, where the socket took `taken` bytes, or failed.
pub open spec fn write_moves(
    client: ClientView,
    taken: Option<usize>,
    after: ClientView,
    step: FlushStep,
) -> bool {
    match taken {
        Some(n) => {
            let left = client.unwritten.skip(n as int);
            &&& after == (ClientView { unwritten: left, ..client })
            &&& step == if n == 0 && left.len() > 0 {
                FlushStep::Stop
            } else {
                flush_next(left)
            }
        },
        None => step is Stop && after == (ClientView { closed: true, ..client }),
    }
}

/// Whether there is room for a frame behind what is queued for `client`.
pub open spec fn has_room_for(client: ClientView, frame: FrameView) -> bool {
    frame.encodable() && client.unwritten.len() + 4 + frame.length() <= MAX_BUFFER_BYTES
}

impl WorkerClient {
    /// Starts with empty buffers.
    pub fn new(proto: WorkerProto) -> (r: WorkerClient)
        ensures
            r@ == (ClientView {
                unparsed: Seq::empty(),
                unwritten: Seq::empty(),
                proto,
                closed: false,
            }),
    {
        WorkerClient {
            read_buf: BytesMut::with_capacity(8 * 1024),
            write_buf: BytesMut::new(),
            proto,
            closed: false,
        }
    }

    /// The protocol of the connection.
    pub fn proto(&self) -> (r: WorkerProto)
        ensures
            r == self@.proto,
    {
        self.proto
    }

    /// Whether the connection is to be closed.
    pub fn is_closed(&self) -> (r: bool)
        ensures
            r == self@.closed,
    {
        self.closed
    }

    /// What has been read and not been parsed.
    pub fn unparsed(&self) -> (r: &[u8])
        ensures
            r@ == self@.unparsed,
    {
        as_slice(&self.read_buf)
    }

    /// What has been queued and not been written.
    pub fn unwritten(&self) -> (r: &[u8])
        ensures
            r@ == self@.unwritten,
    {
        as_slice(&self.write_buf)
    }

    /// The queue itself, for an encoder to add its response to.
    pub fn write_buf(&mut self) -> (r: &mut BytesMut)
        ensures
            content(*r) == old(self)@.unwritten,
            final(self)@ == (ClientView { unwritten: content(*final(r)), ..old(self)@ }),
    {
        &mut self.write_buf
    }

    /// Whether there is room for a frame behind what is queued.
    pub fn has_room(&self, frame: &Frame) -> (r: bool)
        ensures
            r == has_room_for(self@, frame@),
    {
        let queued: usize = self.write_buf.len();
        let payload_len: usize = bytes_as_slice(&frame.payload).len();
        payload_len <= (u32::MAX - HEADER_LEN) as usize && payload_len <= MAX_BUFFER_BYTES - 7
            && queued <= MAX_BUFFER_BYTES - 7 - payload_len
    }

    /// Takes note of a read, and says whether there is something to parse. A
    /// read that failed or gave nothing ends the connection.
    pub fn received(&mut self, outcome: ReadOutcome<'_>) -> (parse: bool)
        requires
            outcome matches ReadOutcome::Bytes(bytes) ==> old(self)@.unparsed.len() + bytes@.len()
                <= MAX_BUFFER_BYTES,
        ensures
            match outcome {
                ReadOutcome::Bytes(bytes) if bytes@.len() > 0 => parse && final(self)@ == (
                ClientView { unparsed: old(self)@.unparsed + bytes@, ..old(self)@ }),
                _ => !parse && final(self)@ == (ClientView { closed: true, ..old(self)@ }),
            },
    {
        match outcome {
            ReadOutcome::Bytes(bytes) => {
                if bytes.len() == 0 {
                    self.closed = true;
                    return false;
                }
                self.read_buf.extend_from_slice(bytes);
                true
            },
            ReadOutcome::Failed => {
                self.closed = true;
                false
            },
        }
    }

    /// Begins to flush the queue.
    pub fn flush(&self) -> (r: FlushStep)
        ensures
            r == flush_next(self@.unwritten),
    {
        if self.write_buf.is_empty() {
            FlushStep::Disarm
        } else {
            FlushStep::Write
        }
    }

    /// Takes note of a write of what is queued: the number of bytes that the
    /// socket took, or nothing where it failed. What was taken leaves the
    /// queue; a failure ends the connection.
    pub fn wrote(&mut self, taken: Option<usize>) -> (r: FlushStep)
        requires
            taken matches Some(n) ==> n <= old(self)@.unwritten.len(),
        ensures
            write_moves(old(self)@, taken, final(self)@, r),
    {
        match taken {
            Some(n) => {
                let _ = self.write_buf.split_to(n);
                if n == 0 && !self.write_buf.is_empty() {
                    return FlushStep::Stop;
                }
                self.flush()
            },
            None => {
                self.closed = true;
                FlushStep::Stop
            },
        }
    }
}

// ---------------------------------------------------------------------------
// Parsing what one client sent
// ---------------------------------------------------------------------------

/// What an HTTP parser makes of what a client sent.
pub enum HttpOutcome {
    /// A request in the first `consumed` bytes.
    Request { request: WireRequest, keep_alive: bool, consumed: usize },
    /// The request is not complete yet.
    Incomplete,
    /// No request starts like this.
    Malformed,
}

/// Where a pass over what a client sent stands.
pub enum PassState {
    /// An HTTP parser is at work.
    Http,
    /// The envelope of a push is to be scanned.
    Scanning(PushPayload),
    /// The row in a request is to be decoded.
    Decoding { request: WireRequest, keep_alive: bool },
    /// The client is owed `frame`, which has to be queued before the apply
    /// thread is told of the error.
    Answering { frame: Frame, kind: ParseErrorKind },
    /// An item is on its way to the apply thread; behind the last one the
    /// connection is closed.
    Sending { last: bool },
    /// The pass is over.
    Done,
}

/// What has happened during a pass.
pub enum PassEvent<R> {
    /// What the HTTP parser found.
    HttpParsed(HttpOutcome),
    /// What the scanner found in the envelope.
    Scanned(Result<Envelope, String>),
    /// The row in the request, where it has one that can be decoded.
    RowDecoded(Option<R>),
    /// There is room for the answer.
    RoomMade,
    /// Whether the apply thread is still there and took the item.
    Sent(bool),
}

/// What a pass asks for.
pub enum PassAction<R> {
    /// Run the HTTP parser on what the client sent.
    ParseHttp,
    /// Scan the envelope that [`ParsePass::push`] gives.
    ScanEnvelope,
    /// Decode the row of the request that [`ParsePass::request`] gives.
    DecodeRow,
    /// See to it that there is room in the queue of the client for the frame
    /// that [`ParsePass::answer`] gives.
    MakeRoom,
    /// Push the item to the apply thread.
    Send(RingItem<R>),
    /// Nothing: the pass is over.
    Done,
}

impl PassState {
    /// Whether `event` can happen in this state, with this client and `sent`
    /// items pushed so far. Only a request that carries a row can have one
    /// decoded.
    pub open spec fn accepts<R>(self, event: PassEvent<R>, client: ClientView, sent: usize) -> bool {
        match self {
            PassState::Http => event matches PassEvent::HttpParsed(outcome) && (
            outcome matches HttpOutcome::Request { consumed, .. } ==> consumed
                <= client.unparsed.len()),
            PassState::Scanning(push) => event matches PassEvent::Scanned(scan) && (
            scan matches Ok(envelope) ==> envelope.fits(bytes_of(push.payload).len())),
            PassState::Decoding { request, .. } => event matches PassEvent::RowDecoded(row) && (
            request.pushed() is None ==> row is None),
            PassState::Answering { frame, .. } => event is RoomMade && has_room_for(client, frame@),
            PassState::Sending { .. } => event is Sent && sent < usize::MAX,
            PassState::Done => false,
        }
    }
}

/// What the apply thread is told of a malformed frame.
pub open spec fn frame_error_kind(e: FrameError) -> ParseErrorKind {
    match e {
        FrameError::TooLarge { declared_len, limit } => ParseErrorKind::TcpFrameTooLarge {
            declared: declared_len,
            limit,
        },
        _ => ParseErrorKind::TcpFrame,
    }
}

/// Whether a pass goes on like this with the next thing that the client sent.
/// Over TCP that is the first frame of what is unparsed: it leaves the buffer
/// and becomes a request. Where there is none yet the pass is over, and where
/// there will never be one the error is pushed; a client whose frame is too
/// large is told so first.
pub open spec fn pass_parses<R>(
    slot: u64,
    client: ClientView,
    limit: u32,
    next: PassState,
    after: ClientView,
    action: PassAction<R>,
) -> bool {
    match client.proto {
        WorkerProto::Http => next is Http && after == client && action is ParseHttp,
        WorkerProto::Tcp => match first_frame(client.unparsed, limit) {
            Ok(None) => next is Done && after == client && action is Done,
            Ok(Some(frame)) => {
                &&& after == (ClientView {
                    unparsed: after_first(client.unparsed, limit),
                    ..client
                })
                &&& {
                    ||| {
                        &&& next matches PassState::Decoding { request, keep_alive }
                        &&& !keep_alive
                        &&& action is DecodeRow
                        &&& Conversion::Request(request).is_of(frame)
                    }
                    ||| {
                        &&& next matches PassState::Scanning(push)
                        &&& action is ScanEnvelope
                        &&& Conversion::Push(push).is_of(frame)
                    }
                }
            },
            Err(FrameError::TooLarge { declared_len, limit }) => {
                &&& next matches PassState::Answering { frame, kind }
                &&& frame@ == too_large_frame(declared_len, limit)
                &&& kind == ParseErrorKind::TcpFrameTooLarge { declared: declared_len, limit }
                &&& after == client
                &&& action is MakeRoom
            },
            Err(e) => {
                &&& next == PassState::Sending { last: true }
                &&& after == client
                &&& action == PassAction::Send(
                    RingItem::<R>::ParseError {
                        slot_idx: slot_index(slot),
                        kind: frame_error_kind(e),
                    },
                )
            },
        },
    }
}

/// A pass over what one client sent: everything that is complete is parsed and
/// pushed to the apply thread, in order.
pub struct ParsePass {
    slot: u64,
    sent: usize,
    state: PassState,
}

/// Whether a pass for `slot` that stands at `state` with `sent` items pushed
/// moves on like this.
pub open spec fn pass_moves<R>(
    slot: u64,
    limit: u32,
    state: PassState,
    sent: usize,
    client: ClientView,
    event: PassEvent<R>,
    next: PassState,
    next_sent: usize,
    after: ClientView,
    action: PassAction<R>,
) -> bool {
    match (state, event) {
        (PassState::Http, PassEvent::HttpParsed(outcome)) => {
            &&& next_sent == sent
            &&& match outcome {
                HttpOutcome::Request { request, keep_alive, consumed } => {
                    &&& next == PassState::Decoding { request, keep_alive }
                    &&& after == (ClientView {
                        unparsed: client.unparsed.skip(consumed as int),
                        ..client
                    })
                    &&& action is DecodeRow
                },
                HttpOutcome::Incomplete => next is Done && after == client && action is Done,
                HttpOutcome::Malformed => {
                    &&& next == PassState::Sending { last: true }
                    &&& after == client
                    &&& action == PassAction::Send(
                        RingItem::<R>::ParseError {
                            slot_idx: slot_index(slot),
                            kind: ParseErrorKind::HttpProtocol,
                        },
                    )
                },
            }
        },
        (PassState::Scanning(push), PassEvent::Scanned(scan)) => {
            &&& next_sent == sent
            &&& next matches PassState::Decoding { request, keep_alive }
            &&& !keep_alive
            &&& push.resolves_to(scan, request)
            &&& after == client
            &&& action is DecodeRow
        },
        (PassState::Decoding { request, keep_alive }, PassEvent::RowDecoded(parsed_row)) => {
            &&& next_sent == sent
            &&& next == PassState::Sending { last: false }
            &&& after == client
            &&& action == PassAction::Send(
                RingItem::Request { slot_idx: slot_index(slot), keep_alive, request, parsed_row },
            )
        },
        (PassState::Answering { frame, kind }, PassEvent::RoomMade) => {
            &&& next_sent == sent
            &&& next == PassState::Sending { last: true }
            &&& after == (ClientView { unwritten: client.unwritten + frame@.wire(), ..client })
            &&& action == PassAction::Send(
                RingItem::<R>::ParseError { slot_idx: slot_index(slot), kind },
            )
        },
        (PassState::Sending { last: false }, PassEvent::Sent(true)) => {
            &&& next_sent == sent + 1
            &&& pass_parses(slot, client, limit, next, after, action)
        },
        (PassState::Sending { last: false }, PassEvent::Sent(false)) => {
            &&& next_sent == sent
            &&& next is Done
            &&& after == client
            &&& action is Done
        },
        (PassState::Sending { last: true }, PassEvent::Sent(accepted)) => {
            &&& next_sent == if accepted {
                sent + 1
            } else {
                sent as int
            }
            &&& next is Done
            &&& after == (ClientView { closed: true, ..client })
            &&& action is Done
        },
        _ => false,
    }
}

impl ParsePass {
    /// The slot of the client.
    pub closed spec fn slot(self) -> u64 {
        self.slot
    }

    /// The number of items that the apply thread took.
    pub closed spec fn sent(self) -> usize {
        self.sent
    }

    /// Where the pass stands.
    pub closed spec fn state(self) -> PassState {
        self.state
    }

    /// Goes on with the next thing that the client sent.
    fn parse<R>(&mut self, client: &mut WorkerClient, limit: u32) -> (action: PassAction<R>)
        ensures
            final(self).slot() == old(self).slot(),
            final(self).sent() == old(self).sent(),
            pass_parses(
                old(self).slot(),
                old(client)@,
                limit,
                final(self).state(),
                final(client)@,
                action,
            ),
    {
        match client.proto {
            WorkerProto::Http => {
                self.state = PassState::Http;
                PassAction::ParseHttp
            },
            WorkerProto::Tcp => match decode_frame(&mut client.read_buf, limit) {
                Ok(None) => {
                    self.state = PassState::Done;
                    PassAction::Done
                },
                Ok(Some(frame)) => match WireRequest::from(frame) {
                    Conversion::Request(request) => {
                        self.state = PassState::Decoding { request, keep_alive: false };
                        PassAction::DecodeRow
                    },
                    Conversion::Push(push) => {
                        self.state = PassState::Scanning(push);
                        PassAction::ScanEnvelope
                    },
                },
                Err(FrameError::TooLarge { declared_len, limit }) => {
                    self.state = PassState::Answering {
                        frame: frame_too_large(declared_len, limit),
                        kind: ParseErrorKind::TcpFrameTooLarge { declared: declared_len, limit },
                    };
                    PassAction::MakeRoom
                },
                Err(_) => {
                    self.state = PassState::Sending { last: true };
                    let slot_idx: u32 = (self.slot % 0x1_0000_0000) as u32;
                    PassAction::Send(
                        RingItem::ParseError { slot_idx, kind: ParseErrorKind::TcpFrame },
                    )
                },
            },
        }
    }

    /// Starts a pass over what the client in `slot` has sent. A client that has
    /// sent nothing gives nothing to do.
    pub fn start<R>(slot: u64, client: &mut WorkerClient, limit: u32) -> (r: (
        ParsePass,
        PassAction<R>,
    ))
        ensures
            r.0.slot() == slot,
            r.0.sent() == 0,
            if old(client)@.unparsed.len() == 0 {
                r.0.state() is Done && final(client)@ == old(client)@ && r.1 is Done
            } else {
                pass_parses(slot, old(client)@, limit, r.0.state(), final(client)@, r.1)
            },
    {
        let mut pass = ParsePass { slot, sent: 0, state: PassState::Done };
        if client.read_buf.is_empty() {
            return (pass, PassAction::Done);
        }
        let action = pass.parse(client, limit);
        (pass, action)
    }

    /// The push whose envelope is to be scanned.
    pub fn push(&self) -> (r: Option<&PushPayload>)
        ensures
            match self.state() {
                PassState::Scanning(push) => r == Some(&push),
                _ => r is None,
            },
    {
        match &self.state {
            PassState::Scanning(push) => Some(push),
            _ => None,
        }
    }

    /// The request whose row is to be decoded.
    pub fn request(&self) -> (r: Option<&WireRequest>)
        ensures
            match self.state() {
                PassState::Decoding { request, .. } => r == Some(&request),
                _ => r is None,
            },
    {
        match &self.state {
            PassState::Decoding { request, .. } => Some(request),
            _ => None,
        }
    }

    /// The frame that the client is owed.
    pub fn answer(&self) -> (r: Option<&Frame>)
        ensures
            match self.state() {
                PassState::Answering { frame, .. } => r == Some(&frame),
                _ => r is None,
            },
    {
        match &self.state {
            PassState::Answering { frame, .. } => Some(frame),
            _ => None,
        }
    }

    /// The number of items that the apply thread took.
    pub fn items_sent(&self) -> (r: usize)
        ensures
            r == self.sent(),
    {
        self.sent
    }

    /// Takes note of what has happened, and says what is to be done.
    pub fn step<R>(&mut self, client: &mut WorkerClient, limit: u32, event: PassEvent<R>) -> (action:
        PassAction<R>)
        requires
            old(self).state().accepts(event, old(client)@, old(self).sent()),
        ensures
            final(self).slot() == old(self).slot(),
            pass_moves(
                old(self).slot(),
                limit,
                old(self).state(),
                old(self).sent(),
                old(client)@,
                event,
                final(self).state(),
                final(self).sent(),
                final(client)@,
                action,
            ),
    {
        let slot_idx: u32 = (self.slot % 0x1_0000_0000) as u32;
        let mut state = PassState::Done;
        std::mem::swap(&mut state, &mut self.state);
        match state {
            PassState::Http => match event {
                PassEvent::HttpParsed(
                    HttpOutcome::Request { request, keep_alive, consumed },
                ) => {
                    let _ = client.read_buf.split_to(consumed);
                    self.state = PassState::Decoding { request, keep_alive };
                    PassAction::DecodeRow
                },
                PassEvent::HttpParsed(HttpOutcome::Malformed) => {
                    self.state = PassState::Sending { last: true };
                    PassAction::Send(
                        RingItem::ParseError { slot_idx, kind: ParseErrorKind::HttpProtocol },
                    )
                },
                _ => PassAction::Done,
            },
            PassState::Scanning(push) => match event {
                PassEvent::Scanned(scan) => {
                    let request = push.resolve(scan);
                    self.state = PassState::Decoding { request, keep_alive: false };
                    PassAction::DecodeRow
                },
                _ => PassAction::Done,
            },
            PassState::Decoding { request, keep_alive } => match event {
                PassEvent::RowDecoded(parsed_row) => {
                    self.state = PassState::Sending { last: false };
                    PassAction::Send(
                        RingItem::Request { slot_idx, keep_alive, request, parsed_row },
                    )
                },
                _ => PassAction::Done,
            },
            PassState::Answering { frame, kind } => match event {
                PassEvent::RoomMade => {
                    encode_frame(&frame, &mut client.write_buf);
                    self.state = PassState::Sending { last: true };
                    PassAction::Send(RingItem::ParseError { slot_idx, kind })
                },
                _ => PassAction::Done,
            },
            PassState::Sending { last } => match event {
                PassEvent::Sent(accepted) => {
                    if accepted {
                        self.sent = self.sent + 1;
                    }
                    if last {
                        client.closed = true;
                        return PassAction::Done;
                    }
                    if !accepted {
                        return PassAction::Done;
                    }
                    self.parse(client, limit)
                },
                _ => PassAction::Done,
            },
            PassState::Done => PassAction::Done,
        }
    }
}

// ---------------------------------------------------------------------------
// Laws of parsing
// ---------------------------------------------------------------------------

/// A moment of a pass.
pub struct PassPoint {
    pub state: PassState,
    pub sent: usize,
    pub client: ClientView,
}

/// Whether a pass for `slot` over what `client` sent begins at `points[0]`, goes
/// through `points` on `events`, and asks for `actions` in between.
pub open spec fn pass_runs<R>(
    slot: u64,
    limit: u32,
    client: ClientView,
    first: PassAction<R>,
    points: Seq<PassPoint>,
    events: Seq<PassEvent<R>>,
    actions: Seq<PassAction<R>>,
) -> bool {
    &&& points.len() == events.len() + 1
    &&& actions.len() == events.len()
    &&& points[0].sent == 0
    &&& pass_parses(slot, client, limit, points[0].state, points[0].client, first)
    &&& forall|i: int|
        0 <= i < events.len() ==> #[trigger] pass_moves(
            slot,
            limit,
            points[i].state,
            points[i].sent,
            points[i].client,
            events[i],
            points[i + 1].state,
            points[i + 1].sent,
            points[i + 1].client,
            actions[i],
        )
}

proof fn lemma_pass_step<R>(
    slot: u64,
    limit: u32,
    client: ClientView,
    first: PassAction<R>,
    points: Seq<PassPoint>,
    events: Seq<PassEvent<R>>,
    actions: Seq<PassAction<R>>,
    i: int,
)
    requires
        pass_runs(slot, limit, client, first, points, events, actions),
        0 <= i < events.len(),
    ensures
        pass_moves(
            slot,
            limit,
            points[i].state,
            points[i].sent,
            points[i].client,
            events[i],
            points[i + 1].state,
            points[i + 1].sent,
            points[i + 1].client,
            actions[i],
        ),
{
}

/// Whether at `point` everything before the frame with the number `point.sent`
/// has been pushed, that frame is in hand, and everything behind it is still
/// to come, where `all` is what the client sent when the pass began.
spec fn in_order(point: PassPoint, all: Drained, limit: u32, closed: bool) -> bool {
    let k = point.sent as int;
    let left = drain(point.client.unparsed, limit);
    &&& point.client.proto is Tcp
    &&& left.rest == all.rest
    &&& left.error == all.error
    &&& match point.state {
        PassState::Http => false,
        PassState::Scanning(push) => {
            &&& k < all.frames.len()
            &&& Conversion::Push(push).is_of(all.frames[k])
            &&& left.frames == all.frames.skip(k + 1)
            &&& point.client.closed == closed
        },
        PassState::Decoding { request, keep_alive } => {
            &&& k < all.frames.len()
            &&& !keep_alive
            &&& request.made_of(all.frames[k])
            &&& left.frames == all.frames.skip(k + 1)
            &&& point.client.closed == closed
        },
        PassState::Sending { last: false } => {
            &&& k < all.frames.len()
            &&& left.frames == all.frames.skip(k + 1)
            &&& point.client.closed == closed
        },
        PassState::Answering { kind, .. } => {
            &&& k == all.frames.len()
            &&& left.frames.len() == 0
            &&& all.error matches Some(e) && kind == frame_error_kind(e)
            &&& point.client.unparsed == all.rest
            &&& point.client.closed == closed
        },
        PassState::Sending { last: true } => {
            &&& k == all.frames.len()
            &&& left.frames.len() == 0
            &&& all.error is Some
            &&& point.client.unparsed == all.rest
            &&& point.client.closed == closed
        },
        PassState::Done => {
            &&& k == all.frames.len() + if all.error is Some {
                1int
            } else {
                0
            }
            &&& point.client.unparsed == all.rest
            &&& point.client.closed == (closed || all.error is Some)
        },
    }
}

/// Parsing takes the next frame in hand.
proof fn lemma_parsing_keeps_order<R>(
    slot: u64,
    limit: u32,
    client: ClientView,
    sent: usize,
    next: PassState,
    after: ClientView,
    action: PassAction<R>,
    all: Drained,
)
    requires
        pass_parses(slot, client, limit, next, after, action),
        client.proto is Tcp,
        sent <= all.frames.len(),
        drain(client.unparsed, limit) == (Drained { frames: all.frames.skip(sent as int), ..all }),
    ensures
        in_order(PassPoint { state: next, sent, client: after }, all, limit, client.closed),
{
    let k = sent as int;
    match first_frame(client.unparsed, limit) {
        Ok(Some(frame)) => {
            let behind = drain(after_first(client.unparsed, limit), limit);
            let left = drain(client.unparsed, limit).frames;
            assert(left[0] == frame);
            assert(left.skip(1) =~= behind.frames);
            assert(all.frames.skip(k)[0] == all.frames[k]);
            assert(all.frames.skip(k).skip(1) =~= all.frames.skip(k + 1));
        },
        _ => {
            assert(drain(client.unparsed, limit).frames.len() == 0);
        },
    }
}

/// Every step of a pass whose items are taken keeps the order.
proof fn lemma_step_keeps_order<R>(
    slot: u64,
    limit: u32,
    point: PassPoint,
    event: PassEvent<R>,
    next: PassPoint,
    action: PassAction<R>,
    all: Drained,
    closed: bool,
)
    requires
        in_order(point, all, limit, closed),
        pass_moves(
            slot,
            limit,
            point.state,
            point.sent,
            point.client,
            event,
            next.state,
            next.sent,
            next.client,
            action,
        ),
        event != PassEvent::<R>::Sent(false),
    ensures
        in_order(next, all, limit, closed),
{
    match point.state {
        PassState::Sending { last: false } => {
            lemma_parsing_keeps_order(
                slot,
                limit,
                point.client,
                next.sent,
                next.state,
                next.client,
                action,
                all,
            );
        },
        _ => {},
    }
}

/// Every point of a pass whose items are taken is in order.
proof fn lemma_pass_keeps_order<R>(
    slot: u64,
    limit: u32,
    client: ClientView,
    first: PassAction<R>,
    points: Seq<PassPoint>,
    events: Seq<PassEvent<R>>,
    actions: Seq<PassAction<R>>,
    i: int,
)
    requires
        pass_runs(slot, limit, client, first, points, events, actions),
        client.proto is Tcp,
        forall|j: int| 0 <= j < events.len() ==> #[trigger] events[j] != PassEvent::<R>::Sent(false),
        0 <= i < points.len(),
    ensures
        in_order(points[i], drain(client.unparsed, limit), limit, client.closed),
    decreases i,
{
    let all = drain(client.unparsed, limit);
    if i == 0 {
        assert(all.frames.skip(0) =~= all.frames);
        lemma_parsing_keeps_order(
            slot,
            limit,
            client,
            0,
            points[0].state,
            points[0].client,
            first,
            all,
        );
    } else {
        let j = i - 1;
        lemma_pass_keeps_order(slot, limit, client, first, points, events, actions, j);
        assert(events[j] != PassEvent::<R>::Sent(false));
        assert(pass_moves(
            slot,
            limit,
            points[j].state,
            points[j].sent,
            points[j].client,
            events[j],
            points[j + 1].state,
            points[j + 1].sent,
            points[j + 1].client,
            actions[j],
        ));
        lemma_step_keeps_order(
            slot,
            limit,
            points[j],
            events[j],
            points[i],
            actions[j],
            all,
            client.closed,
        );
    }
}

/// Over TCP the requests reach the apply thread in the order of their frames:
/// as long as it takes what is pushed, the item that is pushed with `n` items
/// before it is the request of the frame with `n` frames before it.
pub proof fn law_requests_are_pushed_in_order<R>(
    slot: u64,
    limit: u32,
    client: ClientView,
    first: PassAction<R>,
    points: Seq<PassPoint>,
    events: Seq<PassEvent<R>>,
    actions: Seq<PassAction<R>>,
    i: int,
)
    requires
        pass_runs(slot, limit, client, first, points, events, actions),
        client.proto is Tcp,
        forall|j: int| 0 <= j < events.len() ==> #[trigger] events[j] != PassEvent::<R>::Sent(false),
        0 <= i < events.len(),
    ensures
        actions[i] matches PassAction::Send(
            RingItem::Request { slot_idx, keep_alive, request, parsed_row },
        ) ==> {
            &&& slot_idx == slot_index(slot)
            &&& slot_idx == slot % 0x1_0000_0000
            &&& !keep_alive
            &&& events[i] == PassEvent::RowDecoded(parsed_row)
            &&& points[i].sent < drain(client.unparsed, limit).frames.len()
            &&& request.made_of(drain(client.unparsed, limit).frames[points[i].sent as int])
        },
{
    lemma_pass_keeps_order(slot, limit, client, first, points, events, actions, i);
    assert(pass_moves(
        slot,
        limit,
        points[i].state,
        points[i].sent,
        points[i].client,
        events[i],
        points[i + 1].state,
        points[i + 1].sent,
        points[i + 1].client,
        actions[i],
    ));
}

/// Over TCP nothing is forgotten and nothing is pushed twice: when a pass is
/// over whose items were all taken, there has been one item for each frame and
/// one for the error where there is one; what is left is what no frame is made
/// of yet, and the connection closes exactly on an error.
pub proof fn law_a_pass_pushes_everything<R>(
    slot: u64,
    limit: u32,
    client: ClientView,
    first: PassAction<R>,
    points: Seq<PassPoint>,
    events: Seq<PassEvent<R>>,
    actions: Seq<PassAction<R>>,
)
    requires
        pass_runs(slot, limit, client, first, points, events, actions),
        client.proto is Tcp,
        forall|j: int| 0 <= j < events.len() ==> #[trigger] events[j] != PassEvent::<R>::Sent(false),
        points.last().state is Done,
    ensures
        ({
            let all = drain(client.unparsed, limit);
            &&& points.last().sent == all.frames.len() + if all.error is Some {
                1int
            } else {
                0
            }
            &&& points.last().client.unparsed == all.rest
            &&& points.last().client.closed == (client.closed || all.error is Some)
        }),
{
    lemma_pass_keeps_order(
        slot,
        limit,
        client,
        first,
        points,
        events,
        actions,
        points.len() - 1,
    );
}

/// The items that were pushed, in order.
pub open spec fn items<R>(actions: Seq<PassAction<R>>) -> Seq<ItemView<R>>
    decreases actions.len(),
{
    if actions.len() == 0 {
        Seq::empty()
    } else {
        let before = items(actions.drop_last());
        match actions.last() {
            PassAction::Send(item) => before.push(item@),
            _ => before,
        }
    }
}

/// The item for a frame.
pub open spec fn item_of<R>(
    slot: u64,
    frame: FrameView,
    scanner: Scanner,
    decoder: Decoder<R>,
) -> ItemView<R> {
    let request = request_of(frame, scanner);
    ItemView::Request {
        slot_idx: slot_index(slot),
        keep_alive: false,
        request,
        parsed_row: row_of(request, decoder),
    }
}

/// The items for all that can be taken out of what a client sent: one for each
/// frame, and one for the error where there is one.
pub open spec fn items_of<R>(
    slot: u64,
    all: Drained,
    scanner: Scanner,
    decoder: Decoder<R>,
) -> Seq<ItemView<R>> {
    let requests = Seq::new(
        all.frames.len(),
        |i: int| item_of(slot, all.frames[i], scanner, decoder),
    );
    match all.error {
        Some(e) => requests.push(
            ItemView::ParseError { slot_idx: slot_index(slot), kind: frame_error_kind(e) },
        ),
        None => requests,
    }
}

/// Whether `scanner` scans the envelopes and `decoder` decodes the rows of a
/// pass that goes through `points` on `events`.
pub open spec fn served_by<R>(
    points: Seq<PassPoint>,
    events: Seq<PassEvent<R>>,
    scanner: Scanner,
    decoder: Decoder<R>,
) -> bool {
    forall|i: int|
        0 <= i < events.len() ==> match (points[i].state, #[trigger] events[i]) {
            (PassState::Scanning(push), PassEvent::Scanned(scan)) => scan_view(scan) == scanner(
                push.format,
                bytes_of(push.payload),
            ),
            (PassState::Decoding { request, .. }, PassEvent::RowDecoded(row)) => row == row_of(
                request@,
                decoder,
            ),
            _ => true,
        }
}

/// Whether the pass at `point` has pushed the right items so far, and has the
/// right one in hand.
spec fn on_track<R>(
    slot: u64,
    point: PassPoint,
    so_far: Seq<ItemView<R>>,
    all: Drained,
    scanner: Scanner,
    decoder: Decoder<R>,
) -> bool {
    let k = point.sent as int;
    let expected = items_of(slot, all, scanner, decoder);
    match point.state {
        PassState::Http => false,
        PassState::Scanning(_) => so_far == expected.take(k),
        PassState::Decoding { request, keep_alive } => {
            &&& !keep_alive
            &&& request@ == request_of(all.frames[k], scanner)
            &&& so_far == expected.take(k)
        },
        PassState::Answering { .. } => so_far == expected.take(k),
        PassState::Sending { .. } => so_far == expected.take(k + 1),
        PassState::Done => so_far == expected.take(k),
    }
}

/// Parsing leaves a pass on track.
proof fn lemma_parsing_stays_on_track<R>(
    slot: u64,
    limit: u32,
    client: ClientView,
    sent: usize,
    next: PassState,
    after: ClientView,
    action: PassAction<R>,
    so_far: Seq<ItemView<R>>,
    all: Drained,
    scanner: Scanner,
    decoder: Decoder<R>,
)
    requires
        pass_parses(slot, client, limit, next, after, action),
        client.proto is Tcp,
        sent <= all.frames.len(),
        drain(client.unparsed, limit) == (Drained { frames: all.frames.skip(sent as int), ..all }),
        so_far == items_of(slot, all, scanner, decoder).take(sent as int),
    ensures
        on_track(
            slot,
            PassPoint { state: next, sent, client: after },
            match action {
                PassAction::Send(item) => so_far.push(item@),
                _ => so_far,
            },
            all,
            scanner,
            decoder,
        ),
{
    let k = sent as int;
    let expected = items_of(slot, all, scanner, decoder);
    match first_frame(client.unparsed, limit) {
        Ok(Some(frame)) => {
            assert(drain(client.unparsed, limit).frames[0] == frame);
            assert(all.frames.skip(k)[0] == all.frames[k]);
            if let PassState::Decoding { request, .. } = next {
                law_a_frame_has_one_request(
                    frame,
                    Conversion::Request(request),
                    scanner,
                    arbitrary(),
                    request,
                );
            }
        },
        Ok(None) => {},
        Err(e) => {
            assert(all.frames.skip(k).len() == 0);
            assert(expected.take(k).push(expected[k]) =~= expected.take(k + 1));
        },
    }
}

/// Every point of a pass whose items are taken is on track.
proof fn lemma_pass_stays_on_track<R>(
    slot: u64,
    limit: u32,
    client: ClientView,
    first: PassAction<R>,
    points: Seq<PassPoint>,
    events: Seq<PassEvent<R>>,
    actions: Seq<PassAction<R>>,
    scanner: Scanner,
    decoder: Decoder<R>,
    i: int,
)
    requires
        pass_runs(slot, limit, client, first, points, events, actions),
        client.proto is Tcp,
        forall|j: int| 0 <= j < events.len() ==> #[trigger] events[j] != PassEvent::<R>::Sent(false),
        served_by(points, events, scanner, decoder),
        0 <= i < points.len(),
    ensures
        on_track(
            slot,
            points[i],
            items(seq![first] + actions.take(i)),
            drain(client.unparsed, limit),
            scanner,
            decoder,
        ),
    decreases i,
{
    let all = drain(client.unparsed, limit);
    let expected = items_of(slot, all, scanner, decoder);
    let asked = seq![first] + actions.take(i);
    if i == 0 {
        assert(all.frames.skip(0) =~= all.frames);
        assert(asked.drop_last() =~= Seq::empty());
        assert(asked.last() == first);
        assert(Seq::<ItemView<R>>::empty() =~= expected.take(0));
        lemma_parsing_stays_on_track(
            slot,
            limit,
            client,
            0,
            points[0].state,
            points[0].client,
            first,
            Seq::empty(),
            all,
            scanner,
            decoder,
        );
        assert(items(asked.drop_last()) == Seq::<ItemView<R>>::empty());
    } else {
        let j = i - 1;
        let point = points[j];
        let next = points[i];
        lemma_pass_stays_on_track(
            slot,
            limit,
            client,
            first,
            points,
            events,
            actions,
            scanner,
            decoder,
            j,
        );
        lemma_pass_keeps_order(slot, limit, client, first, points, events, actions, j);
        lemma_pass_keeps_order(slot, limit, client, first, points, events, actions, i);
        lemma_pass_step(slot, limit, client, first, points, events, actions, j);
        assert(events[j] != PassEvent::<R>::Sent(false));
        assert(asked.drop_last() =~= seq![first] + actions.take(j));
        assert(asked.last() == actions[j]);
        let so_far = items(seq![first] + actions.take(j));
        let k = point.sent as int;
        match point.state {
            PassState::Scanning(push) => {
                if let (PassEvent::Scanned(scan), PassState::Decoding { request, .. }) = (
                    events[j],
                    next.state,
                ) {
                    law_a_frame_has_one_request(
                        all.frames[k],
                        Conversion::Push(push),
                        scanner,
                        scan,
                        request,
                    );
                }
            },
            PassState::Decoding { .. } => {
                assert(expected.take(k).push(expected[k]) =~= expected.take(k + 1));
            },
            PassState::Answering { .. } => {
                assert(items(asked).last() == expected[k]);
                assert(expected.take(k).push(expected[k]) =~= expected.take(k + 1));
            },
            PassState::Sending { last: false } => {
                lemma_parsing_stays_on_track(
                    slot,
                    limit,
                    point.client,
                    next.sent,
                    next.state,
                    next.client,
                    actions[j],
                    so_far,
                    all,
                    scanner,
                    decoder,
                );
            },
            _ => {},
        }
    }
}

/// Over TCP, what a pass pushes is a matter of what the client sent, of the
/// scanner and of the decoder alone: one item for each frame, in their order,
/// and one for the error where there is one.
pub proof fn law_a_pass_pushes_the_items_of_its_frames<R>(
    slot: u64,
    limit: u32,
    client: ClientView,
    first: PassAction<R>,
    points: Seq<PassPoint>,
    events: Seq<PassEvent<R>>,
    actions: Seq<PassAction<R>>,
    scanner: Scanner,
    decoder: Decoder<R>,
)
    requires
        pass_runs(slot, limit, client, first, points, events, actions),
        client.proto is Tcp,
        forall|j: int| 0 <= j < events.len() ==> #[trigger] events[j] != PassEvent::<R>::Sent(false),
        served_by(points, events, scanner, decoder),
        points.last().state is Done,
    ensures
        items(seq![first] + actions) == items_of(
            slot,
            drain(client.unparsed, limit),
            scanner,
            decoder,
        ),
        points.last().sent == items(seq![first] + actions).len(),
{
    let n = events.len() as int;
    let expected = items_of(slot, drain(client.unparsed, limit), scanner, decoder);
    lemma_pass_stays_on_track(
        slot,
        limit,
        client,
        first,
        points,
        events,
        actions,
        scanner,
        decoder,
        n,
    );
    lemma_pass_keeps_order(slot, limit, client, first, points, events, actions, n);
    assert(actions.take(n) =~= actions);
    assert(expected.take(expected.len() as int) =~= expected);
}

/// A pass of a client.
pub struct PassRun<R> {
    pub first: PassAction<R>,
    pub points: Seq<PassPoint>,
    pub events: Seq<PassEvent<R>>,
    pub actions: Seq<PassAction<R>>,
}

impl<R> PassRun<R> {
    /// Whether this is a whole pass over what `client` sent, with an apply
    /// thread that takes every item.
    pub open spec fn is_of(
        self,
        slot: u64,
        limit: u32,
        client: ClientView,
        scanner: Scanner,
        decoder: Decoder<R>,
    ) -> bool {
        &&& pass_runs(slot, limit, client, self.first, self.points, self.events, self.actions)
        &&& served_by(self.points, self.events, scanner, decoder)
        &&& forall|j: int|
            0 <= j < self.events.len() ==> #[trigger] self.events[j] != PassEvent::<R>::Sent(false)
        &&& self.points.last().state is Done
    }

    /// The items that were pushed, in order.
    pub open spec fn items(self) -> Seq<ItemView<R>> {
        items(seq![self.first] + self.actions)
    }

    /// The client behind the pass.
    pub open spec fn client(self) -> ClientView {
        self.points.last().client
    }

    /// The number of items that were taken.
    pub open spec fn sent(self) -> usize {
        self.points.last().sent
    }
}

/// Over TCP it does not matter where a stream is cut between two reads: a pass
/// after the first part and a pass after the second push the same items as one
/// pass after both, and leave the same bytes unparsed. The first part must not
/// end the connection, since nothing is read after that.
pub proof fn law_where_a_stream_is_cut_does_not_matter<R>(
    slot: u64,
    limit: u32,
    client: ClientView,
    part1: Seq<u8>,
    part2: Seq<u8>,
    run1: PassRun<R>,
    run2: PassRun<R>,
    whole: PassRun<R>,
    scanner: Scanner,
    decoder: Decoder<R>,
)
    requires
        client.proto is Tcp,
        drain(client.unparsed + part1, limit).error is None,
        run1.is_of(
            slot,
            limit,
            ClientView { unparsed: client.unparsed + part1, ..client },
            scanner,
            decoder,
        ),
        run2.is_of(
            slot,
            limit,
            ClientView { unparsed: run1.client().unparsed + part2, ..run1.client() },
            scanner,
            decoder,
        ),
        whole.is_of(
            slot,
            limit,
            ClientView { unparsed: client.unparsed + (part1 + part2), ..client },
            scanner,
            decoder,
        ),
    ensures
        run1.items() + run2.items() == whole.items(),
        run1.sent() + run2.sent() == whole.sent(),
        run2.client().unparsed == whole.client().unparsed,
        run2.client().closed == whole.client().closed,
{
    let client1 = ClientView { unparsed: client.unparsed + part1, ..client };
    let client2 = ClientView { unparsed: run1.client().unparsed + part2, ..run1.client() };
    let client12 = ClientView { unparsed: client.unparsed + (part1 + part2), ..client };
    lemma_whole_pass(slot, limit, client1, run1, scanner, decoder);
    lemma_whole_pass(slot, limit, client2, run2, scanner, decoder);
    lemma_whole_pass(slot, limit, client12, whole, scanner, decoder);
    law_cuts_do_not_matter(client1.unparsed, part2, limit);
    assert(client1.unparsed + part2 =~= client12.unparsed);
    let all1 = drain(client1.unparsed, limit);
    let all2 = drain(client2.unparsed, limit);
    let all12 = drain(client12.unparsed, limit);
    assert(all12.frames == all1.frames + all2.frames);
    assert(run1.items() + run2.items() =~= whole.items());
}

/// What a whole pass pushes and leaves.
proof fn lemma_whole_pass<R>(
    slot: u64,
    limit: u32,
    client: ClientView,
    run: PassRun<R>,
    scanner: Scanner,
    decoder: Decoder<R>,
)
    requires
        client.proto is Tcp,
        run.is_of(slot, limit, client, scanner, decoder),
    ensures
        run.items() == items_of(slot, drain(client.unparsed, limit), scanner, decoder),
        run.sent() == run.items().len(),
        run.client().proto is Tcp,
        run.client().unparsed == drain(client.unparsed, limit).rest,
        run.client().closed == (client.closed || drain(client.unparsed, limit).error is Some),
{
    law_a_pass_pushes_the_items_of_its_frames(
        slot,
        limit,
        client,
        run.first,
        run.points,
        run.events,
        run.actions,
        scanner,
        decoder,
    );
    lemma_pass_keeps_order(
        slot,
        limit,
        client,
        run.first,
        run.points,
        run.events,
        run.actions,
        run.points.len() - 1,
    );
}

/// A client that sends a frame over the limit is told so before its connection
/// closes: the error frame is queued behind what was queued before, then the
/// apply thread is told, and only the step after that marks the connection
/// closed.
pub proof fn law_too_large_is_answered_before_close<R>(
    slot: u64,
    limit: u32,
    client: ClientView,
    declared: u32,
    first: PassAction<R>,
    points: Seq<PassPoint>,
    events: Seq<PassEvent<R>>,
    actions: Seq<PassAction<R>>,
)
    requires
        client.proto is Tcp,
        first_frame(client.unparsed, limit) == Err::<Option<FrameView>, FrameError>(
            FrameError::TooLarge { declared_len: declared, limit },
        ),
        pass_runs(slot, limit, client, first, points, events, actions),
        points.last().state is Done,
    ensures
        points.len() == 3,
        points[1].client.unwritten == client.unwritten + too_large_frame(declared, limit).wire(),
        points[1].client.closed == client.closed,
        actions[0] == PassAction::Send(
            RingItem::<R>::ParseError {
                slot_idx: slot_index(slot),
                kind: ParseErrorKind::TcpFrameTooLarge { declared, limit },
            },
        ),
        points[2].client.closed,
        points[2].client.unwritten == points[1].client.unwritten,
{
    let n = events.len();
    assert(n > 0);
    lemma_pass_step(slot, limit, client, first, points, events, actions, 0);
    assert(n > 1);
    lemma_pass_step(slot, limit, client, first, points, events, actions, 1);
    if n > 2 {
        lemma_pass_step(slot, limit, client, first, points, events, actions, 2);
    }
}

/// The apply thread knows a client by the low 32 bits of its slot.
pub proof fn law_items_name_the_slot(slot: u64)
    ensures
        slot_index(slot) == slot % 0x1_0000_0000,
        slot < 0x1_0000_0000 ==> slot_index(slot) == slot,
{
}

/// The frame that tells a client that its frame is too large has the error
/// opcode and says the code, both numbers, and the message with both numbers.
pub proof fn law_too_large_says_both_numbers(declared: u32, limit: u32)
    ensures
        ({
            let frame = too_large_frame(declared, limit);
            let members = Map::empty().insert("code"@, Json::Text("frame_too_large"@)).insert(
                "message"@,
                Json::Text(
                    "declared frame length "@ + decimal(declared as nat) + " exceeds limit "@
                        + decimal(limit as nat),
                ),
            ).insert("limit"@, Json::Unsigned(limit as u64)).insert(
                "declared"@,
                Json::Unsigned(declared as u64),
            );
            let document = Json::Object(Map::empty().insert("error"@, Json::Object(members)));
            &&& frame.op == 0xFFFF
            &&& frame.content_type == 1
            &&& json_text(document) matches Some(text) ==> frame.payload == text
            &&& json_text(document) is None ==> frame.payload.len() == 0
        }),
{
}

/// There is room for a frame exactly where its length fits the prefix and the
/// queue with the frame behind it does not outgrow a buffer.
pub proof fn law_room_for_a_frame(client: ClientView, frame: FrameView)
    ensures
        has_room_for(client, frame) <==> 3 + frame.payload.len() <= u32::MAX
            && client.unwritten.len() + 7 + frame.payload.len() <= MAX_BUFFER_BYTES,
{
}

/// How a pass goes on with what a client sent over TCP, in the bytes of the
/// client: where a whole frame within the limit is there, it leaves the buffer
/// and nothing else does; where one is not there yet the pass is over; a length
/// over the limit is answered, and any other that cannot be is told. Over HTTP
/// the parser is asked.
pub proof fn law_a_pass_takes_one_frame_at_a_time<R>(
    slot: u64,
    client: ClientView,
    limit: u32,
    next: PassState,
    after: ClientView,
    action: PassAction<R>,
)
    requires
        pass_parses(slot, client, limit, next, after, action),
    ensures
        after.unwritten == client.unwritten,
        after.proto == client.proto,
        after.closed == client.closed,
        client.proto is Http ==> action is ParseHttp && next is Http && after.unparsed
            == client.unparsed,
        client.proto is Tcp ==> {
            let all = client.unparsed;
            let n = all[0] * 0x100_0000 + all[1] * 0x1_0000 + all[2] * 0x100 + all[3];
            &&& all.len() < 4 || (3 <= n <= limit && all.len() < 4 + n) ==> action is Done
                && next is Done && after.unparsed == all
            &&& all.len() >= 4 && 3 <= n <= limit && all.len() >= 4 + n ==> {
                let frame = FrameView {
                    op: (all[4] * 0x100 + all[5]) as u16,
                    content_type: all[6],
                    payload: all.subrange(7, 4 + n),
                };
                &&& after.unparsed == all.skip(4 + n)
                &&& {
                    ||| next matches PassState::Scanning(push) && action is ScanEnvelope
                        && Conversion::Push(push).is_of(frame)
                    ||| next matches PassState::Decoding { request, keep_alive } && !keep_alive
                        && action is DecodeRow && Conversion::Request(request).is_of(frame)
                }
            }
            &&& all.len() >= 4 && n > limit ==> after.unparsed == all && action is MakeRoom && (
            next matches PassState::Answering { frame, kind } && frame@ == too_large_frame(
                n as u32,
                limit,
            ) && kind == (ParseErrorKind::TcpFrameTooLarge { declared: n as u32, limit }))
            &&& all.len() >= 4 && n <= limit && n < 3 ==> after.unparsed == all && next
                == (PassState::Sending { last: true }) && action == PassAction::Send(
                RingItem::<R>::ParseError {
                    slot_idx: (slot % 0x1_0000_0000) as u32,
                    kind: ParseErrorKind::TcpFrame,
                },
            )
        },
{
    law_decoding_in_bytes(client.unparsed, limit);
}

/// What a step of a pass does to its client: only an answer is queued, and
/// behind everything else; only what has been parsed leaves what is unparsed;
/// and the client is marked exactly behind the last item. An item counts when
/// the apply thread has taken it.
pub proof fn law_what_a_pass_does_to_its_client<R>(
    slot: u64,
    limit: u32,
    state: PassState,
    sent: usize,
    client: ClientView,
    event: PassEvent<R>,
    next: PassState,
    next_sent: usize,
    after: ClientView,
    action: PassAction<R>,
)
    requires
        pass_moves(slot, limit, state, sent, client, event, next, next_sent, after, action),
    ensures
        after.proto == client.proto,
        next_sent == sent + if event == PassEvent::<R>::Sent(true) {
            1int
        } else {
            0
        },
        after.closed == (client.closed || state == (PassState::Sending { last: true })),
        after.unwritten == if let PassState::Answering { frame, .. } = state {
            client.unwritten + frame@.wire()
        } else {
            client.unwritten
        },
        event matches PassEvent::HttpParsed(HttpOutcome::Request { consumed, .. })
            ==> after.unparsed == client.unparsed.skip(consumed as int),
        !(event matches PassEvent::HttpParsed(HttpOutcome::Request { .. })) && event
            != PassEvent::<R>::Sent(true) ==> after.unparsed == client.unparsed,
        state == (PassState::Sending { last: false }) && event == PassEvent::<R>::Sent(true)
            ==> pass_parses(slot, client, limit, next, after, action),
        action is Done <==> next is Done,
        state is Sending && event == PassEvent::<R>::Sent(false) ==> next is Done,
        state == (PassState::Sending { last: true }) ==> next is Done && after.unparsed
            == client.unparsed,
        event == PassEvent::<R>::HttpParsed(HttpOutcome::Incomplete) ==> next is Done,
        action is Send <==> next is Sending,
{
}

/// What is asked for and pushed on the way: a found request is decoded and then
/// pushed, with the row that was decoded, the answer of the HTTP parser on
/// keeping the connection alive, and the request that was found; a malformed
/// one and a frame that cannot be are told.
pub proof fn law_what_a_pass_pushes<R>(
    slot: u64,
    limit: u32,
    state: PassState,
    sent: usize,
    client: ClientView,
    event: PassEvent<R>,
    next: PassState,
    next_sent: usize,
    after: ClientView,
    action: PassAction<R>,
)
    requires
        pass_moves(slot, limit, state, sent, client, event, next, next_sent, after, action),
    ensures
        event matches PassEvent::HttpParsed(HttpOutcome::Request { request, keep_alive, .. })
            ==> action is DecodeRow && next == (PassState::Decoding { request, keep_alive }),
        event == PassEvent::<R>::HttpParsed(HttpOutcome::Malformed) ==> action
            == PassAction::Send(
            RingItem::<R>::ParseError {
                slot_idx: (slot % 0x1_0000_0000) as u32,
                kind: ParseErrorKind::HttpProtocol,
            },
        ) && next == (PassState::Sending { last: true }),
        state matches PassState::Scanning(push) ==> (event matches PassEvent::Scanned(scan)
            && action is DecodeRow && (next matches PassState::Decoding { request, keep_alive }
            && !keep_alive && push.resolves_to(scan, request))),
        state matches PassState::Decoding { request, keep_alive } ==> (
        event matches PassEvent::RowDecoded(parsed_row) && next == (PassState::Sending {
            last: false,
        }) && action == PassAction::Send(
            RingItem::Request {
                slot_idx: (slot % 0x1_0000_0000) as u32,
                keep_alive,
                request,
                parsed_row,
            },
        )),
        state matches PassState::Answering { kind, .. } ==> next == (PassState::Sending {
            last: true,
        }) && action == PassAction::Send(
            RingItem::<R>::ParseError { slot_idx: (slot % 0x1_0000_0000) as u32, kind },
        ),
{
}

/// The items that a pass has asked to push, in order.
pub open spec fn pushed_items<R>(actions: Seq<PassAction<R>>) -> Seq<RingItem<R>>
    decreases actions.len(),
{
    if actions.len() == 0 {
        Seq::empty()
    } else {
        let before = pushed_items(actions.drop_last());
        match actions.last() {
            PassAction::Send(item) => before.push(item),
            _ => before,
        }
    }
}

/// What an HTTP parser and a decoder have found in the first `n` events: an
/// item for each request with its row, and one for what is no request.
pub open spec fn http_findings<R>(slot: u64, events: Seq<PassEvent<R>>, n: int) -> Seq<RingItem<R>>
    decreases n,
{
    let slot_idx = (slot % 0x1_0000_0000) as u32;
    if n <= 0 {
        Seq::empty()
    } else {
        let before = http_findings(slot, events, n - 1);
        match events[n - 1] {
            PassEvent::HttpParsed(HttpOutcome::Malformed) => before.push(
                RingItem::ParseError { slot_idx, kind: ParseErrorKind::HttpProtocol },
            ),
            PassEvent::RowDecoded(parsed_row) => match events[n - 2] {
                PassEvent::HttpParsed(
                    HttpOutcome::Request { request, keep_alive, .. },
                ) => before.push(RingItem::Request { slot_idx, keep_alive, request, parsed_row }),
                _ => before,
            },
            _ => before,
        }
    }
}

/// The bytes that an HTTP parser has used up in the first `n` events.
pub open spec fn http_consumed<R>(events: Seq<PassEvent<R>>, n: int) -> int
    decreases n,
{
    if n <= 0 {
        0
    } else {
        http_consumed(events, n - 1) + match events[n - 1] {
            PassEvent::HttpParsed(HttpOutcome::Request { consumed, .. }) => consumed as int,
            _ => 0,
        }
    }
}

proof fn lemma_http_pass<R>(
    slot: u64,
    limit: u32,
    client: ClientView,
    first: PassAction<R>,
    points: Seq<PassPoint>,
    events: Seq<PassEvent<R>>,
    actions: Seq<PassAction<R>>,
    n: int,
)
    requires
        pass_runs(slot, limit, client, first, points, events, actions),
        client.proto is Http,
        forall|j: int|
            0 <= j < events.len() ==> points[j].state.accepts(
                #[trigger] events[j],
                points[j].client,
                points[j].sent,
            ),
        0 <= n <= events.len(),
    ensures
        points[n].client.proto is Http,
        !(points[n].state is Scanning),
        !(points[n].state is Answering),
        points[n].state matches PassState::Decoding { request, keep_alive } ==> n > 0 && (
        events[n - 1] matches PassEvent::HttpParsed(
            HttpOutcome::Request { request: found, keep_alive: said, .. },
        ) && found == request && said == keep_alive),
        pushed_items(seq![first] + actions.take(n)) == http_findings(slot, events, n),
        0 <= http_consumed(events, n) <= client.unparsed.len(),
        points[n].client.unparsed == client.unparsed.skip(http_consumed(events, n)),
        points[n].client.unwritten == client.unwritten,
    decreases n,
{
    let asked = seq![first] + actions.take(n);
    if n == 0 {
        assert(asked.drop_last() =~= Seq::empty());
        assert(asked.last() == first);
        assert(pushed_items(asked.drop_last()) == Seq::<RingItem<R>>::empty());
        assert(client.unparsed.skip(0) =~= client.unparsed);
    } else {
        let i = n - 1;
        lemma_http_pass(slot, limit, client, first, points, events, actions, i);
        lemma_pass_step(slot, limit, client, first, points, events, actions, i);
        assert(points[i].state.accepts(events[i], points[i].client, points[i].sent));
        assert(asked.drop_last() =~= seq![first] + actions.take(i));
        assert(asked.last() == actions[i]);
        let before = http_consumed(events, i);
        if let PassEvent::HttpParsed(HttpOutcome::Request { consumed, .. }) = events[i] {
            assert(client.unparsed.skip(before).skip(consumed as int) =~= client.unparsed.skip(
                before + consumed,
            ));
        }
    }
}

/// Over HTTP a pass pushes what the parser finds, all of it and nothing else,
/// in its order: each request with its row and with exactly what the parser
/// said of keeping the connection alive, whatever the request is. What the
/// parser has used up leaves the buffer, and the rest stays.
pub proof fn law_an_http_pass_pushes_what_the_parser_finds<R>(
    slot: u64,
    limit: u32,
    client: ClientView,
    first: PassAction<R>,
    points: Seq<PassPoint>,
    events: Seq<PassEvent<R>>,
    actions: Seq<PassAction<R>>,
)
    requires
        pass_runs(slot, limit, client, first, points, events, actions),
        client.proto is Http,
        forall|j: int|
            0 <= j < events.len() ==> points[j].state.accepts(
                #[trigger] events[j],
                points[j].client,
                points[j].sent,
            ),
    ensures
        pushed_items(seq![first] + actions) == http_findings(slot, events, events.len() as int),
        points.last().client.unparsed == client.unparsed.skip(
            http_consumed(events, events.len() as int),
        ),
        points.last().client.unwritten == client.unwritten,
{
    let n = events.len() as int;
    lemma_http_pass(slot, limit, client, first, points, events, actions, n);
    assert(actions.take(n) =~= actions);
}

/// A pass that is over and whose items were all taken has asked the HTTP parser
/// until there was nothing more to find.
pub proof fn law_an_http_pass_goes_on_to_the_end<R>(
    slot: u64,
    limit: u32,
    state: PassState,
    sent: usize,
    client: ClientView,
    event: PassEvent<R>,
    next: PassState,
    next_sent: usize,
    after: ClientView,
    action: PassAction<R>,
)
    requires
        pass_moves(slot, limit, state, sent, client, event, next, next_sent, after, action),
        client.proto is Http,
        event == PassEvent::<R>::Sent(true),
    ensures
        state == (PassState::Sending { last: false }) ==> action is ParseHttp && next is Http,
        state == (PassState::Sending { last: true }) ==> action is Done && after.closed,
{
}

/// Whether whatever comes of what a pass asks for can be told it: the parser may
/// have used up any part of what is there, the scanner found any part of the
/// payload, and the decoder made anything of a push; an answer waits for room,
/// and an item is taken or not as long as items can be counted.
pub open spec fn can_be_told<R>(
    next: PassState,
    sent: usize,
    client: ClientView,
    asked: PassAction<R>,
) -> bool {
    &&& asked is ParseHttp ==> forall|outcome: HttpOutcome|
        (outcome matches HttpOutcome::Request { consumed, .. } ==> consumed
            <= client.unparsed.len()) ==> #[trigger] next.accepts(
            PassEvent::<R>::HttpParsed(outcome),
            client,
            sent,
        )
    &&& asked is ScanEnvelope ==> (next matches PassState::Scanning(push) && forall|
        scan: Result<Envelope, String>,
    |
        (scan matches Ok(envelope) ==> envelope.body_start <= envelope.body_end <= bytes_of(
            push.payload,
        ).len()) ==> #[trigger] next.accepts(PassEvent::<R>::Scanned(scan), client, sent))
    &&& asked is DecodeRow ==> (next matches PassState::Decoding { request, .. } && forall|
        row: Option<R>,
    |
        row is None || request is TcpPush || request is HttpPush || request is HttpPushSync
            || request is HttpPushBatch ==> #[trigger] next.accepts(
            PassEvent::RowDecoded(row),
            client,
            sent,
        ))
    &&& asked is MakeRoom ==> (next matches PassState::Answering { frame, .. } && (3 + bytes_of(
        frame.payload,
    ).len() <= u32::MAX && client.unwritten.len() + 7 + bytes_of(frame.payload).len()
        <= MAX_BUFFER_BYTES ==> next.accepts(PassEvent::<R>::RoomMade, client, sent)))
    &&& asked is Send ==> sent < usize::MAX ==> forall|taken: bool| #[trigger]
        next.accepts(PassEvent::<R>::Sent(taken), client, sent)
}

/// Whatever comes of what a pass asks for can be told it.
pub proof fn law_a_pass_can_be_told_what_it_asked_for<R>(
    slot: u64,
    limit: u32,
    state: PassState,
    sent: usize,
    client: ClientView,
    event: PassEvent<R>,
    next: PassState,
    next_sent: usize,
    after: ClientView,
    action: PassAction<R>,
)
    requires
        pass_moves(slot, limit, state, sent, client, event, next, next_sent, after, action)
            || pass_parses(slot, client, limit, next, after, action),
    ensures
        can_be_told(next, next_sent, after, action),
{
}

// ---------------------------------------------------------------------------
// Laws of flushing
// ---------------------------------------------------------------------------

/// Whether a queue is flushed by way of `points`: each write is asked for,
/// `taken` says what came of it, and `steps` what is asked for then.
pub open spec fn flush_runs(
    points: Seq<ClientView>,
    taken: Seq<Option<usize>>,
    steps: Seq<FlushStep>,
) -> bool {
    &&& points.len() == taken.len() + 1
    &&& steps.len() == points.len()
    &&& steps[0] == flush_next(points[0].unwritten)
    &&& forall|i: int|
        0 <= i < taken.len() ==> {
            &&& steps[i] is Write
            &&& (#[trigger] taken[i]) matches Some(n) ==> n <= points[i].unwritten.len()
            &&& write_moves(points[i], taken[i], points[i + 1], steps[i + 1])
        }
}

/// The bytes that the socket took in the first `n` writes, in order.
pub open spec fn accepted(points: Seq<ClientView>, taken: Seq<Option<usize>>, n: nat) -> Seq<u8>
    decreases n,
{
    if n == 0 {
        Seq::empty()
    } else {
        accepted(points, taken, (n - 1) as nat) + match taken[n - 1] {
            Some(count) => points[n - 1].unwritten.take(count as int),
            None => Seq::empty(),
        }
    }
}

proof fn lemma_flushing_keeps_the_bytes(
    points: Seq<ClientView>,
    taken: Seq<Option<usize>>,
    steps: Seq<FlushStep>,
    n: nat,
)
    requires
        flush_runs(points, taken, steps),
        n <= taken.len(),
    ensures
        accepted(points, taken, n) + points[n as int].unwritten == points[0].unwritten,
    decreases n,
{
    if n == 0 {
        assert(Seq::<u8>::empty() + points[0].unwritten =~= points[0].unwritten);
    } else {
        let i = n - 1;
        lemma_flushing_keeps_the_bytes(points, taken, steps, i as nat);
        let before = points[i].unwritten;
        let done = accepted(points, taken, i as nat);
        match taken[i] {
            Some(count) => {
                assert(before.take(count as int) + before.skip(count as int) =~= before);
                assert(done + before.take(count as int) + before.skip(count as int) =~= done
                    + before);
            },
            None => {
                assert(done + Seq::<u8>::empty() =~= done);
            },
        }
    }
}

/// However little a socket takes at a time, what it took, joined, and what is
/// still queued are the queue: no byte is lost, repeated or moved. A flush ends
/// when nothing is queued any more, or with the first write of which the socket
/// took nothing or that failed; a failure marks the client.
pub proof fn law_flushing_keeps_the_bytes(
    points: Seq<ClientView>,
    taken: Seq<Option<usize>>,
    steps: Seq<FlushStep>,
)
    requires
        flush_runs(points, taken, steps),
    ensures
        accepted(points, taken, taken.len()) + points.last().unwritten == points[0].unwritten,
        forall|i: int| 0 <= i < taken.len() ==> !(#[trigger] steps[i] is Stop),
        steps.last() is Disarm <==> points.last().unwritten.len() == 0 && !(taken.len() > 0
            && taken.last() is None),
        steps.last() is Stop <==> taken.len() > 0 && (taken.last() is None || taken.last() == Some(
            0usize,
        )),
        points.last().closed == (points[0].closed || (taken.len() > 0 && taken.last() is None)),
        points.last().unparsed == points[0].unparsed,
        points.last().proto == points[0].proto,
{
    lemma_flushing_keeps_the_bytes(points, taken, steps, taken.len());
    assert forall|i: int| 0 <= i < taken.len() implies !(#[trigger] steps[i] is Stop) by {
        assert(taken[i] == taken[i]);
    }
    lemma_open_until_failure(points, taken, steps, taken.len());
    if taken.len() > 0 {
        let n = taken.len() - 1;
        assert(write_moves(points[n], taken[n], points[n + 1], steps[n + 1]));
        lemma_queue_while_writing(points, taken, steps, n);
    }
}

/// A write is asked for where something is queued.
proof fn lemma_queue_while_writing(
    points: Seq<ClientView>,
    taken: Seq<Option<usize>>,
    steps: Seq<FlushStep>,
    i: int,
)
    requires
        flush_runs(points, taken, steps),
        0 <= i < taken.len(),
    ensures
        points[i].unwritten.len() > 0,
        i > 0 ==> taken[i - 1] is Some,
{
    assert(taken[i] == taken[i]);
    if i > 0 {
        assert(taken[i - 1] == taken[i - 1]);
        assert(write_moves(points[i - 1], taken[i - 1], points[i], steps[i]));
    }
}

proof fn lemma_open_until_failure(
    points: Seq<ClientView>,
    taken: Seq<Option<usize>>,
    steps: Seq<FlushStep>,
    n: nat,
)
    requires
        flush_runs(points, taken, steps),
        n <= taken.len(),
    ensures
        points[n as int].closed == (points[0].closed || (n > 0 && taken[n - 1] is None)),
        points[n as int].unparsed == points[0].unparsed,
        points[n as int].proto == points[0].proto,
    decreases n,
{
    if n > 0 {
        lemma_open_until_failure(points, taken, steps, (n - 1) as nat);
        lemma_queue_while_writing(points, taken, steps, n - 1);
        assert(write_moves(points[n - 1], taken[n - 1], points[n as int], steps[n as int]));
    }
}

} // verus!
