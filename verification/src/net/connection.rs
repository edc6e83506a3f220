//! Turns a stream of bytes into a stream of frames.

use super::{Error, IoError, IoErrorKind};
use crate::buffer::{bytes_of, content, MAX_BUFFER_BYTES};
use crate::wire::{after_first, decode_frame, drain, encode_frame, first_frame,
    law_cuts_do_not_matter, law_decoding_in_bytes, law_encode_undoes_decode,
    law_frames_keep_their_order, wire_of_all, Drained, Frame, FrameError, FrameView};
use bytes::BytesMut;
use vstd::prelude::*;

verus! {

/// The frame level of one connection: what has been read from the peer and is
/// not part of a frame yet, and the largest frame the peer may send.
pub struct Connection {
    buffer: BytesMut,
    max_frame_bytes: u32,
}

/// What comes of asking a [`Connection`] for a frame.
pub enum ReadStep {
    /// The next frame.
    Frame(Frame),
    /// No whole frame has arrived: read from the peer, and ask again with what
    /// was read.
    NeedBytes,
    /// The peer closed the stream, and all of its frames have been taken.
    Closed,
}

/// What the peer has sent once a read gave `received`.
pub open spec fn stream_after(buffered: Seq<u8>, received: Option<Seq<u8>>) -> Seq<u8> {
    match received {
        Some(bytes) => buffered + bytes,
        None => buffered,
    }
}

/// What asking a connection gives that has `buffered` and then `received`. A
/// read of no bytes is the end of the stream; otherwise the first frame comes
/// out, or the reason why none does.
pub open spec fn read_gives(
    buffered: Seq<u8>,
    limit: u32,
    received: Option<Seq<u8>>,
    r: Result<ReadStep, Error>,
) -> bool {
    if received matches Some(bytes) && bytes.len() == 0 {
        if buffered.len() == 0 {
            r matches Ok(ReadStep::Closed)
        } else {
            r matches Err(Error::Io(e)) && e.kind == IoErrorKind::ConnectionReset && e.message@
                == "connection reset by peer"@
        }
    } else {
        match first_frame(stream_after(buffered, received), limit) {
            Ok(Some(frame)) => r matches Ok(ReadStep::Frame(given)) && given@ == frame,
            Ok(None) => r matches Ok(ReadStep::NeedBytes),
            Err(e) => r matches Err(Error::Frame(given)) && given == e,
        }
    }
}

/// What stays in the connection after it was asked.
pub open spec fn read_leaves(buffered: Seq<u8>, limit: u32, received: Option<Seq<u8>>) -> Seq<u8> {
    if received matches Some(bytes) && bytes.len() == 0 {
        buffered
    } else {
        after_first(stream_after(buffered, received), limit)
    }
}

/// The bytes of an optional read.
pub open spec fn read_bytes(received: Option<&[u8]>) -> Option<Seq<u8>> {
    match received {
        Some(bytes) => Some(bytes@),
        None => None,
    }
}

impl Connection {
    /// What has been read and not been taken as a frame.
    pub closed spec fn buffered(self) -> Seq<u8> {
        content(self.buffer)
    }

    /// The largest length prefix that is accepted.
    pub closed spec fn limit(self) -> u32 {
        self.max_frame_bytes
    }

    /// Creates the frame level of a new connection.
    pub fn new(max_frame_bytes: u32) -> (r: Connection)
        ensures
            r.buffered() == Seq::<u8>::empty(),
            r.limit() == max_frame_bytes,
    {
        Connection { buffer: BytesMut::with_capacity(8 * 1024), max_frame_bytes }
    }

    /// Whether there is room for `n` more bytes of the peer.
    pub fn has_room(&self, n: usize) -> (r: bool)
        ensures
            r == (self.buffered().len() + n <= MAX_BUFFER_BYTES),
    {
        n <= MAX_BUFFER_BYTES && self.buffer.len() <= MAX_BUFFER_BYTES - n
    }

    /// Asks for the next frame, first without a read and then, as long as the
    /// answer is [`ReadStep::NeedBytes`], with what the next read gave. A read
    /// that gave no bytes ends the stream: cleanly where everything has been
    /// taken, and with an error in the middle of a frame.
    pub fn read_frame(&mut self, received: Option<&[u8]>) -> (r: Result<ReadStep, Error>)
        requires
            received matches Some(bytes) ==> old(self).buffered().len() + bytes@.len()
                <= MAX_BUFFER_BYTES,
        ensures
            read_gives(old(self).buffered(), old(self).limit(), read_bytes(received), r),
            final(self).buffered() == read_leaves(
                old(self).buffered(),
                old(self).limit(),
                read_bytes(received),
            ),
            final(self).limit() == old(self).limit(),
    {
        if let Some(bytes) = received {
            if bytes.len() == 0 {
                if self.buffer.is_empty() {
                    return Ok(ReadStep::Closed);
                }
                let message = "connection reset by peer".to_owned();
                return Err(Error::Io(IoError { kind: IoErrorKind::ConnectionReset, message }));
            }
            self.buffer.extend_from_slice(bytes);
        }
        match decode_frame(&mut self.buffer, self.max_frame_bytes) {
            Ok(Some(frame)) => Ok(ReadStep::Frame(frame)),
            Ok(None) => Ok(ReadStep::NeedBytes),
            Err(e) => Err(Error::from(e)),
        }
    }

    /// Gives the bytes that send a frame to the peer.
    pub fn write_frame(&self, frame: &Frame) -> (r: BytesMut)
        requires
            frame@.encodable(),
            4 + frame@.length() <= MAX_BUFFER_BYTES,
        ensures
            content(r) == frame@.wire(),
    {
        let mut out = BytesMut::new();
        encode_frame(frame, &mut out);
        proof {
            assert(Seq::<u8>::empty() + frame@.wire() =~= frame@.wire());
        }
        out
    }
}

// ---------------------------------------------------------------------------
// Laws
// ---------------------------------------------------------------------------

/// All the bytes of several reads or writes.
pub open spec fn joined(reads: Seq<Seq<u8>>) -> Seq<u8>
    decreases reads.len(),
{
    if reads.len() == 0 {
        Seq::empty()
    } else {
        reads[0] + joined(reads.skip(1))
    }
}

/// What a connection hands out that has `buffered`, gives all the frames it
/// can, then gets the first of `reads`, and so on until the reads are used up
/// or an error comes.
pub open spec fn handed_out(buffered: Seq<u8>, reads: Seq<Seq<u8>>, limit: u32) -> Drained
    decreases reads.len(),
{
    let now = drain(buffered, limit);
    if now.error is Some || reads.len() == 0 {
        now
    } else {
        let later = handed_out(now.rest + reads[0], reads.skip(1), limit);
        Drained { frames: now.frames + later.frames, ..later }
    }
}

/// However the bytes of the peer are spread over the reads, a connection hands
/// out the frames of the whole stream, and meets the same error or none.
/// Without an error the rest of the stream stays in the connection.
pub proof fn law_reads_make_no_difference(buffered: Seq<u8>, reads: Seq<Seq<u8>>, limit: u32)
    ensures
        handed_out(buffered, reads, limit).frames == drain(
            buffered + joined(reads),
            limit,
        ).frames,
        handed_out(buffered, reads, limit).error == drain(buffered + joined(reads), limit).error,
        handed_out(buffered, reads, limit).error is None ==> handed_out(
            buffered,
            reads,
            limit,
        ).rest == drain(buffered + joined(reads), limit).rest,
    decreases reads.len(),
{
    if reads.len() == 0 {
        assert(buffered + joined(reads) =~= buffered);
    } else {
        let now = drain(buffered, limit);
        law_cuts_do_not_matter(buffered, joined(reads), limit);
        if now.error is None {
            law_reads_make_no_difference(now.rest + reads[0], reads.skip(1), limit);
            assert(now.rest + joined(reads) =~= now.rest + reads[0] + joined(reads.skip(1)));
        }
    }
}

/// A connection hands out exactly what [`handed_out`] says: as long as it has a
/// whole frame, asking gives the first one and leaves the others.
pub proof fn law_asking_drains(buffered: Seq<u8>, limit: u32, r: Result<ReadStep, Error>)
    requires
        read_gives(buffered, limit, None, r),
    ensures
        r matches Ok(ReadStep::Frame(frame)) ==> {
            let behind = drain(read_leaves(buffered, limit, None), limit);
            drain(buffered, limit) == (Drained { frames: seq![frame@] + behind.frames, ..behind })
        },
        r matches Ok(ReadStep::NeedBytes) ==> drain(buffered, limit).frames.len() == 0 && drain(
            buffered,
            limit,
        ).error is None,
        r matches Err(_) ==> drain(buffered, limit).frames.len() == 0 && drain(
            buffered,
            limit,
        ).error is Some,
{
}

/// Frames that are written one after the other go out back to back, and a peer
/// that takes frames of their size gets them, all of them, in order, with
/// nothing left over. What the writing side may read puts no limit on them.
pub proof fn law_written_frames_arrive(frames: Seq<FrameView>, written: Seq<Seq<u8>>, limit: u32)
    requires
        written.len() == frames.len(),
        forall|i: int|
            0 <= i < frames.len() ==> (#[trigger] frames[i]).encodable() && written[i]
                == frames[i].wire(),
    ensures
        joined(written) == wire_of_all(frames),
        (forall|i: int| 0 <= i < frames.len() ==> (#[trigger] frames[i]).length() <= limit)
            ==> drain(joined(written), limit) == (Drained {
            frames,
            rest: Seq::empty(),
            error: None,
        }),
{
    lemma_written_back_to_back(frames, written);
    if forall|i: int| 0 <= i < frames.len() ==> (#[trigger] frames[i]).length() <= limit {
        law_frames_keep_their_order(frames, Seq::empty(), limit);
        assert(wire_of_all(frames) + Seq::<u8>::empty() =~= wire_of_all(frames));
        assert(frames + Seq::<FrameView>::empty() =~= frames);
    }
}

proof fn lemma_written_back_to_back(frames: Seq<FrameView>, written: Seq<Seq<u8>>)
    requires
        written.len() == frames.len(),
        forall|i: int|
            0 <= i < frames.len() ==> (#[trigger] frames[i]).encodable() && written[i]
                == frames[i].wire(),
    ensures
        joined(written) == wire_of_all(frames),
    decreases frames.len(),
{
    if frames.len() > 0 {
        assert(written[0] == frames[0].wire());
        assert forall|i: int| 0 <= i < frames.skip(1).len() implies (#[trigger] frames.skip(
            1,
        )[i]).encodable() && written.skip(1)[i] == frames.skip(1)[i].wire() by {
            assert(frames[i + 1].encodable());
        }
        lemma_written_back_to_back(frames.skip(1), written.skip(1));
    }
}

/// The end of the stream is clean exactly where the stream is a row of whole
/// frames and nothing else; in the middle of a frame it is an error.
pub proof fn law_clean_close_ends_at_a_frame(
    stream: Seq<u8>,
    limit: u32,
    r: Result<ReadStep, Error>,
)
    requires
        drain(stream, limit).error is None,
        read_gives(drain(stream, limit).rest, limit, Some(Seq::empty()), r),
    ensures
        (r matches Ok(ReadStep::Closed)) <==> stream == wire_of_all(drain(stream, limit).frames),
        r is Err <==> stream != wire_of_all(drain(stream, limit).frames),
{
    crate::wire::law_stream_is_frames_and_rest(stream, limit);
    let frames = drain(stream, limit).frames;
    let rest = drain(stream, limit).rest;
    if rest.len() == 0 {
        assert(wire_of_all(frames) + rest =~= wire_of_all(frames));
    } else {
        assert(stream.len() == wire_of_all(frames).len() + rest.len());
    }
}

/// Whether a connection that is asked with `received`, one read after the
/// other, gives `results` and has `buffered` before and behind each.
pub open spec fn asked(
    limit: u32,
    buffered: Seq<Seq<u8>>,
    received: Seq<Option<Seq<u8>>>,
    results: Seq<Result<ReadStep, Error>>,
) -> bool {
    &&& buffered.len() == received.len() + 1
    &&& results.len() == received.len()
    &&& forall|i: int|
        0 <= i < received.len() ==> {
            &&& read_gives(buffered[i], limit, #[trigger] received[i], results[i])
            &&& buffered[i + 1] == read_leaves(buffered[i], limit, received[i])
        }
}

/// All the bytes that were read, first read first.
pub open spec fn all_read(received: Seq<Option<Seq<u8>>>) -> Seq<u8>
    decreases received.len(),
{
    if received.len() == 0 {
        Seq::empty()
    } else {
        match received.last() {
            Some(bytes) => all_read(received.drop_last()) + bytes,
            None => all_read(received.drop_last()),
        }
    }
}

/// The bytes of all the frames that were given, first one first.
pub open spec fn all_given(results: Seq<Result<ReadStep, Error>>) -> Seq<u8>
    decreases results.len(),
{
    if results.len() == 0 {
        Seq::empty()
    } else {
        match results.last() {
            Ok(ReadStep::Frame(frame)) => all_given(results.drop_last()) + frame@.wire(),
            _ => all_given(results.drop_last()),
        }
    }
}

/// No byte is lost, repeated or moved: however often a connection is asked and
/// however the bytes of the peer are spread over the reads, the frames that it
/// gave and the bytes that it still has are what it had and what was read.
pub proof fn law_what_is_read_is_given_or_kept(
    limit: u32,
    buffered: Seq<Seq<u8>>,
    received: Seq<Option<Seq<u8>>>,
    results: Seq<Result<ReadStep, Error>>,
)
    requires
        asked(limit, buffered, received, results),
    ensures
        buffered[0] + all_read(received) == all_given(results) + buffered.last(),
    decreases received.len(),
{
    if received.len() == 0 {
        assert(buffered[0] + Seq::<u8>::empty() =~= Seq::<u8>::empty() + buffered[0]);
    } else {
        let n = received.len() - 1;
        assert forall|i: int| 0 <= i < received.drop_last().len() implies {
            &&& read_gives(
                buffered.drop_last()[i],
                limit,
                #[trigger] received.drop_last()[i],
                results.drop_last()[i],
            )
            &&& buffered.drop_last()[i + 1] == read_leaves(
                buffered.drop_last()[i],
                limit,
                received.drop_last()[i],
            )
        } by {
            assert(received[i] == received[i]);
        }
        law_what_is_read_is_given_or_kept(
            limit,
            buffered.drop_last(),
            received.drop_last(),
            results.drop_last(),
        );
        let before = buffered[n];
        assert(buffered.drop_last().last() == before);
        assert(read_gives(before, limit, received[n], results[n]));
        let given = all_given(results.drop_last());
        let bytes = match received[n] {
            Some(bytes) => bytes,
            None => Seq::empty(),
        };
        law_encode_undoes_decode(before + bytes, limit);
        assert(before + Seq::<u8>::empty() =~= before);
        assert(buffered[0] + all_read(received) =~= given + (before + bytes)) by {
            assert(buffered[0] + all_read(received.drop_last()) == given + before);
            assert(buffered[0] + all_read(received) =~= buffered[0] + all_read(
                received.drop_last(),
            ) + bytes);
        }
        if let Ok(ReadStep::Frame(frame)) = results[n] {
            assert(given + (frame@.wire() + buffered.last()) =~= given + frame@.wire()
                + buffered.last());
        }
    }
}

/// Nothing is held back: a frame comes out as soon as all its bytes are there,
/// and more bytes are asked for only while they are not. A length out of bounds
/// is an error at once. Only frames within the limit come out.
pub proof fn law_a_whole_frame_is_given(
    buffered: Seq<u8>,
    limit: u32,
    received: Option<Seq<u8>>,
    r: Result<ReadStep, Error>,
)
    requires
        read_gives(buffered, limit, received, r),
        !(received matches Some(bytes) && bytes.len() == 0),
    ensures
        ({
            let all = match received {
                Some(bytes) => buffered + bytes,
                None => buffered,
            };
            let n = all[0] * 0x100_0000 + all[1] * 0x1_0000 + all[2] * 0x100 + all[3];
            &&& (r matches Ok(ReadStep::NeedBytes)) <==> all.len() < 4 || (3 <= n <= limit
                && all.len() < 4 + n)
            &&& (r matches Ok(ReadStep::Frame(_))) <==> all.len() >= 4 && 3 <= n <= limit
                && all.len() >= 4 + n
            &&& r matches Ok(ReadStep::Frame(frame)) ==> {
                &&& frame.op == all[4] * 0x100 + all[5]
                &&& frame.content_type == all[6]
                &&& bytes_of(frame.payload) == all.subrange(7, 4 + n)
                &&& read_leaves(buffered, limit, received) == all.skip(4 + n)
            }
            &&& !(r matches Ok(ReadStep::Frame(_))) ==> read_leaves(buffered, limit, received)
                == all
            &&& r matches Err(e) ==> e == if n > limit {
                Error::Frame(FrameError::TooLarge { declared_len: n as u32, limit })
            } else {
                Error::Frame(FrameError::TooShort { declared_len: n as u32 })
            }
        }),
{
    let all = match received {
        Some(bytes) => buffered + bytes,
        None => buffered,
    };
    law_decoding_in_bytes(all, limit);
}

/// A read of no bytes is the end of the stream: it is clean where nothing is
/// left over, and the peer is taken to have gone away in the middle of a frame
/// where something is. What is left over stays.
pub proof fn law_the_end_of_a_stream(buffered: Seq<u8>, limit: u32, r: Result<ReadStep, Error>)
    requires
        read_gives(buffered, limit, Some(Seq::empty()), r),
    ensures
        buffered.len() == 0 ==> (r matches Ok(ReadStep::Closed)),
        buffered.len() > 0 ==> (r matches Err(Error::Io(e)) && e.kind
            == IoErrorKind::ConnectionReset && e.message@ == "connection reset by peer"@),
        read_leaves(buffered, limit, Some(Seq::empty())) == buffered,
{
}

/// What a read gave is the bytes of the read, and no read gives none.
pub proof fn law_reads_are_taken_whole(bytes: &[u8])
    ensures
        read_bytes(Some(bytes)) == Some(bytes@),
        read_bytes(None) is None,
{
}

} // verus!
