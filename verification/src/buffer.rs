//! The byte buffers of the `bytes` crate, as the rest of the library sees them.
//!
//! [`Bytes`] and [`BytesMut`] are opaque to the proofs. What they hold is named
//! by [`bytes_of`] and [`content`], and every operation the library uses is
//! stated over those two names.

use bytes::{BufMut, Bytes, BytesMut};
use vstd::prelude::*;

verus! {

/// `bytes::Bytes`, an immutable shared byte string.
#[verifier::external_type_specification]
#[verifier::external_body]
pub struct ExBytes(bytes::Bytes);

/// `bytes::BytesMut`, a growable byte buffer that is consumed from the front.
#[verifier::external_type_specification]
#[verifier::external_body]
pub struct ExBytesMut(bytes::BytesMut);

/// The bytes that a [`Bytes`] holds, first byte first.
pub uninterp spec fn bytes_of(b: Bytes) -> Seq<u8>;

/// The bytes that a [`BytesMut`] holds and has not given away yet.
pub uninterp spec fn content(b: BytesMut) -> Seq<u8>;

/// The two bytes of `n`, most significant first.
pub open spec fn be16(n: u16) -> Seq<u8> {
    seq![(n / 0x100) as u8, (n % 0x100) as u8]
}

/// The four bytes of `n`, most significant first.
pub open spec fn be32(n: u32) -> Seq<u8> {
    seq![
        (n / 0x100_0000) as u8,
        (n / 0x1_0000 % 0x100) as u8,
        (n / 0x100 % 0x100) as u8,
        (n % 0x100) as u8,
    ]
}

/// The largest size that a buffer can grow to for sure. An allocation has at
/// most `isize::MAX` bytes, and a buffer allocates up to four times what it
/// holds: it keeps room for bytes that were taken from its front, and doubles
/// when it grows.
pub const MAX_BUFFER_BYTES: usize = usize::MAX / 8;

/// Whether `extra` more bytes can be appended to `b`.
pub open spec fn has_room(b: BytesMut, extra: int) -> bool {
    content(b).len() + extra <= MAX_BUFFER_BYTES
}

/// `<Bytes as Clone>::clone`: another handle on the same bytes.
pub assume_specification[ <bytes::Bytes as std::clone::Clone>::clone ](b: &Bytes) -> (r: Bytes)
    ensures
        bytes_of(r) == bytes_of(*b),
;

/// `BytesMut::new`: an empty buffer.
pub assume_specification[ bytes::BytesMut::new ]() -> (r: BytesMut)
    ensures
        content(r) == Seq::<u8>::empty(),
;

/// `BytesMut::with_capacity`: an empty buffer that holds `capacity` bytes before
/// it grows. The call panics when that is more than the largest allocation.
pub assume_specification[ bytes::BytesMut::with_capacity ](capacity: usize) -> (r: BytesMut)
    requires
        capacity <= isize::MAX,
    ensures
        content(r) == Seq::<u8>::empty(),
;

/// `BytesMut::len`: the number of bytes held.
pub assume_specification[ bytes::BytesMut::len ](b: &BytesMut) -> (r: usize)
    ensures
        r == content(*b).len(),
;

/// `BytesMut::is_empty`: whether no byte is held.
pub assume_specification[ bytes::BytesMut::is_empty ](b: &BytesMut) -> (r: bool)
    ensures
        r == (content(*b).len() == 0),
;

/// `BytesMut::split_to`: the first `at` bytes leave the buffer and are
/// returned. The call panics when the buffer holds fewer than `at` bytes.
pub assume_specification[ bytes::BytesMut::split_to ](b: &mut BytesMut, at: usize) -> (r: BytesMut)
    requires
        at <= content(*old(b)).len(),
    ensures
        content(r) == content(*old(b)).take(at as int),
        content(*final(b)) == content(*old(b)).skip(at as int),
;

/// `BytesMut::freeze`: the same bytes as an immutable string.
pub assume_specification[ bytes::BytesMut::freeze ](b: BytesMut) -> (r: Bytes)
    ensures
        bytes_of(r) == content(b),
;

/// `BytesMut::extend_from_slice`: the bytes of `extend` are appended. The call
/// panics when the buffer would outgrow the largest allocation.
pub assume_specification[ bytes::BytesMut::extend_from_slice ](b: &mut BytesMut, extend: &[u8])
    requires
        has_room(*old(b), extend@.len() as int),
    ensures
        content(*final(b)) == content(*old(b)) + extend@,
;

/// `<BytesMut as Deref>::deref`: the bytes held, as a slice.
#[verifier::external_body]
pub(crate) fn as_slice(b: &BytesMut) -> (r: &[u8])
    ensures
        r@ == content(*b),
{
    b
}

/// `<Bytes as Deref>::deref`: the bytes held, as a slice.
#[verifier::external_body]
pub(crate) fn bytes_as_slice(b: &Bytes) -> (r: &[u8])
    ensures
        r@ == bytes_of(*b),
{
    b
}

/// `<Bytes as From<Vec<u8>>>::from`: the bytes of the vector.
#[verifier::external_body]
pub(crate) fn bytes_from(v: Vec<u8>) -> (r: Bytes)
    ensures
        bytes_of(r) == v@,
{
    Bytes::from(v)
}

/// `Bytes::from_static`: the bytes of the slice.
#[verifier::external_body]
pub(crate) fn bytes_from_static(s: &'static [u8]) -> (r: Bytes)
    ensures
        bytes_of(r) == s@,
{
    Bytes::from_static(s)
}

/// `Bytes::slice`: the bytes from `start` on and before `end`. The call panics
/// when they are not all there.
#[verifier::external_body]
pub(crate) fn bytes_slice(b: &Bytes, start: usize, end: usize) -> (r: Bytes)
    requires
        start <= end <= bytes_of(*b).len(),
    ensures
        bytes_of(r) == bytes_of(*b).subrange(start as int, end as int),
{
    b.slice(start..end)
}

/// `<BytesMut as BufMut>::put_u8`: `n` is appended. The call panics when there
/// is no room for it.
#[verifier::external_body]
pub(crate) fn put_u8(b: &mut BytesMut, n: u8)
    requires
        has_room(*old(b), 1),
    ensures
        content(*final(b)) == content(*old(b)).push(n),
{
    b.put_u8(n)
}

/// `<BytesMut as BufMut>::put_u16`: the two bytes of `n` are appended in
/// big-endian order. The call panics when there is no room for them.
#[verifier::external_body]
pub(crate) fn put_u16(b: &mut BytesMut, n: u16)
    requires
        has_room(*old(b), 2),
    ensures
        content(*final(b)) == content(*old(b)) + be16(n),
{
    b.put_u16(n)
}

/// `<BytesMut as BufMut>::put_u32`: the four bytes of `n` are appended in
/// big-endian order. The call panics when there is no room for them.
#[verifier::external_body]
pub(crate) fn put_u32(b: &mut BytesMut, n: u32)
    requires
        has_room(*old(b), 4),
    ensures
        content(*final(b)) == content(*old(b)) + be32(n),
{
    b.put_u32(n)
}

} // verus!
