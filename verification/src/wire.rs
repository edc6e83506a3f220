//! The framed TCP wire protocol.
//!
//! A frame is `[u32 length][u16 op][u8 content type][payload]`, integers in
//! big-endian order, where the length counts everything behind it: three bytes
//! of header and the payload.

use crate::buffer::{as_slice, be16, be32, bytes_as_slice, bytes_from, bytes_of, content, has_room,
    put_u16, put_u32, put_u8};
use crate::json::{json_of, json_text, text_or_empty, to_bytes, Json};
use crate::text::{decimal, push_decimal};
use bytes::{Bytes, BytesMut};
use serde_json::Value;
use vstd::prelude::*;

verus! {

/// Health probe; the answer to one carries the same opcode.
pub const OP_PING: u16 = 0x0000;

/// Registers a feature pipeline.
pub const OP_REGISTER: u16 = 0x0001;

/// Pushes an event; the acknowledgement carries the same opcode.
pub const OP_PUSH: u16 = 0x0010;

/// Reads one feature of one key.
pub const OP_GET: u16 = 0x0020;

/// Reads one feature of many keys.
pub const OP_MGET: u16 = 0x0021;

/// Reads many features of many keys.
pub const OP_GET_MULTI: u16 = 0x0022;

/// Answers a read or a reset.
pub const OP_GET_RESPONSE: u16 = 0x0023;

/// Reads a list of table and entity pairs.
pub const OP_BATCH_GET: u16 = 0x0024;

/// Clears all state; refused outside test mode.
pub const OP_RESET: u16 = 0x0040;

/// Answers any request that failed.
pub const OP_ERROR_RESPONSE: u16 = 0xFFFF;

/// The payload is JSON.
pub const CT_JSON: u8 = 0x01;

/// The payload is MsgPack.
pub const CT_MSGPACK: u8 = 0x02;

/// Bytes of opcode and content type, which the length prefix counts.
pub const HEADER_LEN: u32 = 3;

/// One frame of the wire protocol.
#[derive(Debug, PartialEq, Eq)]
pub struct Frame {
    pub op: u16,
    pub content_type: u8,
    pub payload: Bytes,
}

/// What a [`Frame`] says.
pub struct FrameView {
    pub op: u16,
    pub content_type: u8,
    pub payload: Seq<u8>,
}

impl View for Frame {
    type V = FrameView;

    open spec fn view(&self) -> FrameView {
        FrameView {
            op: self.op,
            content_type: self.content_type,
            payload: bytes_of(self.payload),
        }
    }
}

/// Why a byte stream stopped being a stream of frames.
#[derive(Debug, Clone, Copy, PartialEq, Eq, Structural)]
pub enum FrameError {
    /// The length prefix is over the limit.
    TooLarge { declared_len: u32, limit: u32 },
    /// The length prefix leaves no room for opcode and content type.
    TooShort { declared_len: u32 },
}

impl Clone for Frame {
    fn clone(&self) -> (r: Frame)
        ensures
            r@ == self@,
    {
        Frame { op: self.op, content_type: self.content_type, payload: self.payload.clone() }
    }
}

impl Frame {
    /// Puts a frame together.
    pub fn new(op: u16, content_type: u8, payload: Bytes) -> (r: Frame)
        ensures
            r@ == (FrameView { op, content_type, payload: bytes_of(payload) }),
            r.payload == payload,
    {
        Frame { op, content_type, payload }
    }

    /// Puts a frame together whose payload is a JSON document.
    pub fn json(op: u16, document: Value) -> (r: Frame)
        ensures
            r@ == json_frame(op, json_of(document)),
    {
        Frame::new(op, CT_JSON, bytes_from(to_bytes(&document)))
    }
}

/// A frame whose payload is a JSON document.
pub open spec fn json_frame(op: u16, document: Json) -> FrameView {
    FrameView { op, content_type: CT_JSON, payload: text_or_empty(document) }
}

/// The text that says that a frame is larger than allowed.
pub open spec fn too_large_text(declared_len: u32, limit: u32) -> Seq<char> {
    "declared frame length "@ + decimal(declared_len as nat) + " exceeds limit "@ + decimal(
        limit as nat,
    )
}

/// The text that says that a frame is larger than allowed.
pub fn too_large_message(declared_len: u32, limit: u32) -> (r: String)
    ensures
        r@ == too_large_text(declared_len, limit),
{
    let mut message = "declared frame length ".to_owned();
    push_decimal(&mut message, declared_len as u64);
    message.append(" exceeds limit ");
    push_decimal(&mut message, limit as u64);
    message
}

impl FrameError {
    /// The text of [`FrameError::message`].
    pub open spec fn text(self) -> Seq<char> {
        match self {
            FrameError::TooLarge { declared_len, limit } => too_large_text(declared_len, limit),
            FrameError::TooShort { declared_len } => "declared frame length "@ + decimal(
                declared_len as nat,
            ) + " is shorter than the frame header"@,
        }
    }

    /// Says in words what went wrong.
    pub fn message(&self) -> (r: String)
        ensures
            r@ == self.text(),
    {
        match self {
            FrameError::TooLarge { declared_len, limit } => too_large_message(
                *declared_len,
                *limit,
            ),
            FrameError::TooShort { declared_len } => {
                let mut message = "declared frame length ".to_owned();
                push_decimal(&mut message, *declared_len as u64);
                message.append(" is shorter than the frame header");
                message
            },
        }
    }
}

// ---------------------------------------------------------------------------
// The format
// ---------------------------------------------------------------------------

impl FrameView {
    /// The number that stands in front of the frame.
    pub open spec fn length(self) -> int {
        HEADER_LEN + self.payload.len()
    }

    /// Whether the length fits its prefix.
    pub open spec fn encodable(self) -> bool {
        self.length() <= u32::MAX
    }

    /// The frame on the wire.
    pub open spec fn wire(self) -> Seq<u8> {
        be32(self.length() as u32) + be16(self.op) + seq![self.content_type] + self.payload
    }
}

/// The number that two bytes stand for, most significant first.
pub open spec fn read16(b: Seq<u8>) -> u16 {
    (b[0] * 0x100 + b[1]) as u16
}

/// The number that four bytes stand for, most significant first.
pub open spec fn read32(b: Seq<u8>) -> u32 {
    (b[0] * 0x100_0000 + b[1] * 0x1_0000 + b[2] * 0x100 + b[3]) as u32
}

/// The first frame of `stream`. There is none yet (`Ok(None)`) while the
/// length prefix or what it announces is incomplete, and there will never be
/// one (`Err`) once the prefix is out of bounds.
pub open spec fn first_frame(stream: Seq<u8>, limit: u32) -> Result<
    Option<FrameView>,
    FrameError,
> {
    let declared_len = read32(stream);
    if stream.len() < 4 {
        Ok(None)
    } else if declared_len > limit {
        Err(FrameError::TooLarge { declared_len, limit })
    } else if declared_len < HEADER_LEN {
        Err(FrameError::TooShort { declared_len })
    } else if stream.len() < 4 + declared_len {
        Ok(None)
    } else {
        Ok(
            Some(
                FrameView {
                    op: read16(stream.skip(4)),
                    content_type: stream[6],
                    payload: stream.subrange(7, 4 + declared_len),
                },
            ),
        )
    }
}

/// What is left of `stream` once its first frame is taken out.
pub open spec fn after_first(stream: Seq<u8>, limit: u32) -> Seq<u8> {
    match first_frame(stream, limit) {
        Ok(Some(frame)) => stream.skip(4 + frame.length()),
        _ => stream,
    }
}

/// All that can be taken out of a stream.
pub struct Drained {
    /// The frames, first one first.
    pub frames: Seq<FrameView>,
    /// What is left behind the last frame.
    pub rest: Seq<u8>,
    /// Why nothing more can come out of the rest, whatever arrives.
    pub error: Option<FrameError>,
}

/// Takes one frame after the other out of `stream`, up to the first that is
/// incomplete or in error.
pub open spec fn drain(stream: Seq<u8>, limit: u32) -> Drained
    decreases stream.len(),
{
    match first_frame(stream, limit) {
        Ok(Some(frame)) => {
            let behind = drain(after_first(stream, limit), limit);
            Drained { frames: seq![frame] + behind.frames, ..behind }
        },
        Ok(None) => Drained { frames: Seq::empty(), rest: stream, error: None },
        Err(e) => Drained { frames: Seq::empty(), rest: stream, error: Some(e) },
    }
}

/// The encodings of `frames`, one behind the other.
pub open spec fn wire_of_all(frames: Seq<FrameView>) -> Seq<u8>
    decreases frames.len(),
{
    if frames.len() == 0 {
        Seq::empty()
    } else {
        frames[0].wire() + wire_of_all(frames.skip(1))
    }
}

/// What a decoding result says.
pub open spec fn decoded(r: Result<Option<Frame>, FrameError>) -> Result<
    Option<FrameView>,
    FrameError,
> {
    match r {
        Ok(Some(frame)) => Ok(Some(frame@)),
        Ok(None) => Ok(None),
        Err(e) => Err(e),
    }
}

/// Appends a frame to `dst`.
pub fn encode_frame(frame: &Frame, dst: &mut BytesMut)
    requires
        frame@.encodable(),
        has_room(*old(dst), 4 + frame@.length()),
    ensures
        content(*final(dst)) == content(*old(dst)) + frame@.wire(),
{
    let payload: &[u8] = bytes_as_slice(&frame.payload);
    put_u32(dst, HEADER_LEN + payload.len() as u32);
    put_u16(dst, frame.op);
    put_u8(dst, frame.content_type);
    dst.extend_from_slice(payload);
}

/// Takes the first frame out of `src`. A buffer that does not hold a whole
/// frame, or starts with a length out of bounds, is left as it is.
pub fn decode_frame(src: &mut BytesMut, max_frame_bytes: u32) -> (r: Result<
    Option<Frame>,
    FrameError,
>)
    ensures
        decoded(r) == first_frame(content(*old(src)), max_frame_bytes),
        content(*final(src)) == after_first(content(*old(src)), max_frame_bytes),
{
    let bytes: &[u8] = as_slice(src);
    if bytes.len() < 4 {
        return Ok(None);
    }
    let declared_len: u32 = bytes[0] as u32 * 0x100_0000 + bytes[1] as u32 * 0x1_0000
        + bytes[2] as u32 * 0x100 + bytes[3] as u32;
    if declared_len > max_frame_bytes {
        return Err(FrameError::TooLarge { declared_len, limit: max_frame_bytes });
    }
    if declared_len < HEADER_LEN {
        return Err(FrameError::TooShort { declared_len });
    }
    if bytes.len() - 4 < declared_len as usize {
        return Ok(None);
    }
    let op: u16 = bytes[4] as u16 * 0x100 + bytes[5] as u16;
    let content_type: u8 = bytes[6];
    let _ = src.split_to(7);
    let payload = src.split_to((declared_len - HEADER_LEN) as usize).freeze();
    proof {
        let stream = content(*old(src));
        let n = declared_len - HEADER_LEN;
        assert(stream.skip(7).take(n) =~= stream.subrange(7, 4 + declared_len));
        assert(stream.skip(7).skip(n) =~= stream.skip(4 + declared_len));
    }
    Ok(Some(Frame { op, content_type, payload }))
}

// ---------------------------------------------------------------------------
// Laws
// ---------------------------------------------------------------------------

/// Reading a number back gives the number that was written.
proof fn lemma_numbers_read_back(n: u32, m: u16, rest: Seq<u8>)
    ensures
        read32(be32(n) + rest) == n,
        read16(be16(m) + rest) == m,
{
}

/// The bytes of a number that is put together from bytes are those bytes.
proof fn lemma_bytes_of_number(a: u32, b: u32, c: u32, d: u32)
    requires
        a < 256,
        b < 256,
        c < 256,
        d < 256,
    ensures
        ({
            let n = a * 0x100_0000 + b * 0x1_0000 + c * 0x100 + d;
            &&& n / 0x100_0000 == a
            &&& n / 0x1_0000 % 0x100 == b
            &&& n / 0x100 % 0x100 == c
            &&& n % 0x100 == d
        }),
{
    let low = c * 0x100 + d;
    let n = a * 0x100_0000 + b * 0x1_0000 + low;
    assert(n / 0x1_0000 == a * 0x100 + b);
    assert(n / 0x100 == a * 0x1_0000 + b * 0x100 + c);
}

/// Writing down the numbers that were read gives the bytes back.
proof fn lemma_numbers_write_back(b: Seq<u8>)
    ensures
        b.len() >= 4 ==> be32(read32(b)) =~= b.take(4),
        b.len() >= 2 ==> be16(read16(b)) =~= b.take(2),
{
    if b.len() >= 4 {
        lemma_bytes_of_number(b[0] as u32, b[1] as u32, b[2] as u32, b[3] as u32);
        let n = b[0] * 0x100_0000 + b[1] * 0x1_0000 + b[2] * 0x100 + b[3];
        assert(read32(b) == n);
        assert(be32(read32(b)) =~= seq![b[0], b[1], b[2], b[3]]);
        assert(b.take(4) =~= seq![b[0], b[1], b[2], b[3]]);
    }
    if b.len() >= 2 {
        lemma_bytes_of_number(0, 0, b[0] as u32, b[1] as u32);
        assert(read16(b) == b[0] * 0x100 + b[1]);
        assert(be16(read16(b)) =~= seq![b[0], b[1]]);
        assert(b.take(2) =~= seq![b[0], b[1]]);
    }
}

/// A read gives back what a write wrote: the first frame of a stream that
/// starts with an encoded frame is that frame, and what follows it is left,
/// as long as the frame is within the limit.
pub proof fn law_decode_undoes_encode(frame: FrameView, rest: Seq<u8>, limit: u32)
    requires
        frame.length() <= limit,
    ensures
        first_frame(frame.wire() + rest, limit) == Ok::<_, FrameError>(Some(frame)),
        after_first(frame.wire() + rest, limit) == rest,
{
    let stream = frame.wire() + rest;
    let n = frame.length() as u32;
    assert(stream =~= be32(n) + (be16(frame.op) + seq![frame.content_type] + frame.payload + rest));
    assert(stream.skip(4) =~= be16(frame.op) + (seq![frame.content_type] + frame.payload + rest));
    lemma_numbers_read_back(n, frame.op, be16(frame.op) + seq![frame.content_type] + frame.payload + rest);
    lemma_numbers_read_back(n, frame.op, seq![frame.content_type] + frame.payload + rest);
    assert(stream.subrange(7, 4 + n) =~= frame.payload);
    assert(stream.skip(4 + n) =~= rest);
}

/// The converse: where a first frame is found, the stream starts with the
/// encoding of that frame, so no other bytes stand for it.
pub proof fn law_encode_undoes_decode(stream: Seq<u8>, limit: u32)
    ensures
        first_frame(stream, limit) matches Ok(Some(frame)) ==> {
            &&& HEADER_LEN <= frame.length() <= limit
            &&& stream == frame.wire() + after_first(stream, limit)
        },
{
    if let Ok(Some(frame)) = first_frame(stream, limit) {
        let declared_len = read32(stream);
        lemma_numbers_write_back(stream);
        lemma_numbers_write_back(stream.skip(4));
        assert(frame.length() == declared_len);
        assert(stream =~= stream.take(4) + stream.skip(4).take(2) + seq![stream[6]]
            + stream.subrange(7, 4 + declared_len) + stream.skip(4 + declared_len));
        assert(stream =~= frame.wire() + after_first(stream, limit));
    }
}

/// A frame that has arrived in part is waited for: no proper prefix of the
/// encoding of a frame within the limit is a frame or an error.
pub proof fn law_partial_frame_is_incomplete(frame: FrameView, arrived: int, limit: u32)
    requires
        frame.length() <= limit,
        0 <= arrived < frame.wire().len(),
    ensures
        first_frame(frame.wire().take(arrived), limit) == Ok::<Option<FrameView>, FrameError>(None),
{
    let n = frame.length() as u32;
    let part = frame.wire().take(arrived);
    if arrived >= 4 {
        assert(part =~= be32(n) + part.skip(4));
        lemma_numbers_read_back(n, 0, part.skip(4));
    }
}

/// Bytes that arrive later change neither a frame that is complete nor an
/// error: they queue up behind.
pub proof fn law_later_bytes_queue_up(stream: Seq<u8>, more: Seq<u8>, limit: u32)
    requires
        first_frame(stream, limit) != Ok::<Option<FrameView>, FrameError>(None),
    ensures
        first_frame(stream + more, limit) == first_frame(stream, limit),
        after_first(stream + more, limit) == after_first(stream, limit) + more,
{
    let declared_len = read32(stream);
    assert(read32(stream + more) == declared_len);
    if declared_len <= limit && declared_len >= HEADER_LEN {
        assert((stream + more).skip(4)[0] == stream.skip(4)[0]);
        assert((stream + more).skip(4)[1] == stream.skip(4)[1]);
        assert((stream + more).subrange(7, 4 + declared_len) =~= stream.subrange(
            7,
            4 + declared_len,
        ));
        assert((stream + more).skip(4 + declared_len) =~= stream.skip(4 + declared_len) + more);
    }
}

/// Frames that are written one behind the other are read in the same order,
/// and what follows them is read as if they had never been there.
pub proof fn law_frames_keep_their_order(frames: Seq<FrameView>, rest: Seq<u8>, limit: u32)
    requires
        forall|i: int| 0 <= i < frames.len() ==> (#[trigger] frames[i]).length() <= limit,
    ensures
        drain(wire_of_all(frames) + rest, limit).frames == frames + drain(rest, limit).frames,
        drain(wire_of_all(frames) + rest, limit).rest == drain(rest, limit).rest,
        drain(wire_of_all(frames) + rest, limit).error == drain(rest, limit).error,
    decreases frames.len(),
{
    if frames.len() == 0 {
        assert(wire_of_all(frames) + rest =~= rest);
        assert(frames + drain(rest, limit).frames =~= drain(rest, limit).frames);
    } else {
        let tail = wire_of_all(frames.skip(1)) + rest;
        assert(wire_of_all(frames) + rest =~= frames[0].wire() + tail);
        law_decode_undoes_encode(frames[0], tail, limit);
        assert forall|i: int| 0 <= i < frames.skip(1).len() implies (#[trigger] frames.skip(
            1,
        )[i]).length() <= limit by {
            assert(frames.skip(1)[i] == frames[i + 1]);
        }
        law_frames_keep_their_order(frames.skip(1), rest, limit);
        assert(frames =~= seq![frames[0]] + frames.skip(1));
        assert(frames + drain(rest, limit).frames =~= seq![frames[0]] + (frames.skip(1) + drain(
            rest,
            limit,
        ).frames));
    }
}

/// Nothing is lost: a stream is the encodings of its frames, and the rest.
pub proof fn law_stream_is_frames_and_rest(stream: Seq<u8>, limit: u32)
    ensures
        stream == wire_of_all(drain(stream, limit).frames) + drain(stream, limit).rest,
        forall|i: int|
            0 <= i < drain(stream, limit).frames.len() ==> (#[trigger] drain(
                stream,
                limit,
            ).frames[i]).length() <= limit,
    decreases stream.len(),
{
    match first_frame(stream, limit) {
        Ok(Some(frame)) => {
            let behind = drain(after_first(stream, limit), limit);
            law_encode_undoes_decode(stream, limit);
            law_stream_is_frames_and_rest(after_first(stream, limit), limit);
            let frames = drain(stream, limit).frames;
            assert(frames.skip(1) =~= behind.frames);
            assert(stream =~= frame.wire() + wire_of_all(behind.frames) + behind.rest);
            assert forall|i: int| 0 <= i < frames.len() implies (#[trigger] frames[i]).length()
                <= limit by {
                if i > 0 {
                    assert(frames[i] == behind.frames[i - 1]);
                }
            }
        },
        _ => {
            assert(wire_of_all(drain(stream, limit).frames) + stream =~= stream);
        },
    }
}

/// How a stream is cut into reads does not matter: draining what has arrived
/// and later what is left together with the next bytes gives the frames of the
/// whole stream. After an error the next bytes stay where they are.
pub proof fn law_cuts_do_not_matter(arrived: Seq<u8>, next: Seq<u8>, limit: u32)
    ensures
        drain(arrived, limit).error is None ==> {
            let later = drain(drain(arrived, limit).rest + next, limit);
            drain(arrived + next, limit) == (Drained {
                frames: drain(arrived, limit).frames + later.frames,
                ..later
            })
        },
        drain(arrived, limit).error is Some ==> drain(arrived + next, limit) == (Drained {
            rest: drain(arrived, limit).rest + next,
            ..drain(arrived, limit)
        }),
    decreases arrived.len(),
{
    match first_frame(arrived, limit) {
        Ok(Some(frame)) => {
            let behind = after_first(arrived, limit);
            law_encode_undoes_decode(arrived, limit);
            law_later_bytes_queue_up(arrived, next, limit);
            law_cuts_do_not_matter(behind, next, limit);
            let later = drain(drain(arrived, limit).rest + next, limit);
            assert(seq![frame] + (drain(behind, limit).frames + later.frames) =~= (seq![frame]
                + drain(behind, limit).frames) + later.frames);
        },
        Ok(None) => {
            let later = drain(arrived + next, limit);
            assert(Seq::<FrameView>::empty() + later.frames =~= later.frames);
        },
        Err(e) => {
            law_later_bytes_queue_up(arrived, next, limit);
        },
    }
}

/// The layout of a frame: four bytes that count what is behind them, two bytes
/// of opcode, one byte of content type, and the payload as it is. Numbers have
/// their most significant byte first.
pub proof fn law_layout_of_a_frame(frame: FrameView)
    ensures
        frame.encodable() <==> 3 + frame.payload.len() <= 0xFFFF_FFFF,
        frame.length() == 3 + frame.payload.len(),
        frame.encodable() ==> {
            let wire = frame.wire();
            &&& wire.len() == 7 + frame.payload.len()
            &&& wire[0] * 0x100_0000 + wire[1] * 0x1_0000 + wire[2] * 0x100 + wire[3] == 3
                + frame.payload.len()
            &&& wire[4] * 0x100 + wire[5] == frame.op
            &&& wire[6] == frame.content_type
            &&& wire.skip(7) == frame.payload
        },
{
    if frame.encodable() {
        assert(frame.wire().skip(7) =~= frame.payload);
    }
}

/// What comes out of a stream is a matter of its bytes: the number in the first
/// four says how long the first frame is. A number over the limit or below the
/// three bytes of the header is an error that names it; where fewer bytes than
/// that have arrived nothing comes out; and whatever does not come out stays.
pub proof fn law_decoding_in_bytes(stream: Seq<u8>, limit: u32)
    ensures
        stream.len() < 4 ==> first_frame(stream, limit) == Ok::<Option<FrameView>, FrameError>(
            None,
        ) && after_first(stream, limit) == stream,
        stream.len() >= 4 ==> {
            let n = stream[0] * 0x100_0000 + stream[1] * 0x1_0000 + stream[2] * 0x100 + stream[3];
            let first = first_frame(stream, limit);
            let rest = after_first(stream, limit);
            &&& n > limit ==> rest == stream && (first matches Err(
                FrameError::TooLarge { declared_len, limit: given },
            ) && declared_len == n && given == limit)
            &&& n <= limit && n < 3 ==> rest == stream && (first matches Err(
                FrameError::TooShort { declared_len },
            ) && declared_len == n)
            &&& 3 <= n <= limit && stream.len() < 4 + n ==> rest == stream && first == Ok::<
                Option<FrameView>,
                FrameError,
            >(None)
            &&& 3 <= n <= limit && stream.len() >= 4 + n ==> {
                &&& first matches Ok(Some(frame))
                &&& frame.op == stream[4] * 0x100 + stream[5]
                &&& frame.content_type == stream[6]
                &&& frame.payload == stream.subrange(7, 4 + n)
                &&& rest == stream.skip(4 + n)
            }
        },
{
    if stream.len() >= 4 {
        let n = stream[0] * 0x100_0000 + stream[1] * 0x1_0000 + stream[2] * 0x100 + stream[3];
        assert(read32(stream) == n);
    }
}

/// What a decoding result says is what is in it, field by field.
pub proof fn law_decoded_is_what_it_holds(frame: Frame, e: FrameError)
    ensures
        decoded(Ok(None)) == Ok::<Option<FrameView>, FrameError>(None),
        decoded(Err(e)) == Err::<Option<FrameView>, FrameError>(e),
        decoded(Ok(Some(frame))) matches Ok(Some(view)) && view.op == frame.op && view.content_type
            == frame.content_type && view.payload == bytes_of(frame.payload),
{
}

/// The numbers that the protocol gives to what is asked and answered, and to
/// the formats. No two opcodes are the same.
pub proof fn law_numbers_of_the_protocol()
    ensures
        OP_PING == 0x0000,
        OP_REGISTER == 0x0001,
        OP_PUSH == 0x0010,
        OP_GET == 0x0020,
        OP_MGET == 0x0021,
        OP_GET_MULTI == 0x0022,
        OP_GET_RESPONSE == 0x0023,
        OP_BATCH_GET == 0x0024,
        OP_RESET == 0x0040,
        OP_ERROR_RESPONSE == 0xFFFF,
        CT_JSON == 1,
        CT_MSGPACK == 2,
        HEADER_LEN == 3,
{
}

/// An error says the number that was declared and, where it was too large, the
/// limit, in decimal.
pub proof fn law_errors_name_their_numbers(declared_len: u32, limit: u32)
    ensures
        (FrameError::TooLarge { declared_len, limit }).text() == too_large_text(declared_len, limit),
        too_large_text(declared_len, limit) == "declared frame length "@ + decimal(
            declared_len as nat,
        ) + " exceeds limit "@ + decimal(limit as nat),
        (FrameError::TooShort { declared_len }).text() == "declared frame length "@ + decimal(
            declared_len as nat,
        ) + " is shorter than the frame header"@,
{
}

/// A frame that carries a document has JSON as its content type and the text of
/// the document as its payload, and no payload where there is no text.
pub proof fn law_documents_are_carried_as_json(op: u16, document: Json)
    ensures
        json_frame(op, document).op == op,
        json_frame(op, document).content_type == 1,
        json_text(document) matches Some(text) ==> json_frame(op, document).payload == text,
        json_text(document) is None ==> json_frame(op, document).payload.len() == 0,
{
}

} // verus!
