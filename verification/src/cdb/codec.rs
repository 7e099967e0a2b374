//! Little-endian 32-bit integers, and the byte buffer they are written into.

use bytes::{Buf, BufMut, BytesMut, IntoBuf};
use vstd::prelude::*;

verus! {

/// The four bytes of `v`, least significant first.
pub open spec fn u32_le(v: u32) -> Seq<u8> {
    seq![
        (v % 256) as u8,
        (v / 256 % 256) as u8,
        (v / 65536 % 256) as u8,
        (v / 16777216) as u8,
    ]
}

/// The integer whose little-endian form is the first four bytes of `b`.
pub open spec fn le_u32(b: Seq<u8>) -> u32
    recommends
        b.len() >= 4,
{
    (b[0] + b[1] * 256 + b[2] * 65536 + b[3] * 16777216) as u32
}

/// The integer stored little-endian at offset `off` of `data`.
pub open spec fn u32_at(data: Seq<u8>, off: int) -> u32
    recommends
        0 <= off,
        off + 4 <= data.len(),
{
    le_u32(data.subrange(off, off + 4))
}

/// Decoding undoes encoding.
pub proof fn lemma_le_u32_of_u32_le(v: u32)
    ensures
        u32_le(v).len() == 4,
        le_u32(u32_le(v)) == v,
{
}

/// `bytes::BytesMut`: a byte buffer that is filled from the front. Nothing of
/// its inside is visible here; `written` and `room` stand for what it holds
/// and for how much it was made to hold.
#[verifier::external_type_specification]
#[verifier::external_body]
pub struct ExBytesMut(BytesMut);

/// The bytes written into a buffer so far, in order.
pub uninterp spec fn written(buf: BytesMut) -> Seq<u8>;

/// The number of bytes a buffer was created to hold.
pub uninterp spec fn room(buf: BytesMut) -> nat;

/// `IntoBuf::into_buf` on a byte slice followed by `Buf::get_u32_le`: decodes
/// the first four bytes of the slice as a little-endian integer. The call
/// panics on fewer than four bytes, which the precondition rules out.
#[verifier::external_body]
pub(crate) fn get_u32_le(b: &[u8]) -> (r: u32)
    requires
        b@.len() >= 4,
    ensures
        r == le_u32(b@),
{
    b.into_buf().get_u32_le()
}

/// `BytesMut::with_capacity`: an empty buffer able to take `capacity` bytes.
/// Capacities above `isize::MAX` make the allocation panic and are ruled out.
#[verifier::external_body]
pub(crate) fn with_capacity(capacity: usize) -> (buf: BytesMut)
    requires
        capacity <= isize::MAX,
    ensures
        written(buf) == Seq::<u8>::empty(),
        room(buf) == capacity,
{
    BytesMut::with_capacity(capacity)
}

/// `BytesMut::reserve`: makes sure `additional` more bytes can be taken. The
/// contents stay as they are, and the buffer holds at least what it was
/// created for.
#[verifier::external_body]
pub(crate) fn reserve(buf: &mut BytesMut, additional: usize)
    requires
        written(*old(buf)).len() + additional <= isize::MAX,
    ensures
        written(*final(buf)) == written(*old(buf)),
        room(*final(buf)) == room(*old(buf)),
{
    buf.reserve(additional)
}

/// `BufMut::put_u32_le` on a `BytesMut`: appends the four little-endian bytes
/// of `v`. The call panics when fewer than four bytes of capacity remain, so
/// the bytes must fit in what the buffer was created to hold.
#[verifier::external_body]
pub(crate) fn put_u32_le(buf: &mut BytesMut, v: u32)
    requires
        written(*old(buf)).len() + 4 <= room(*old(buf)),
    ensures
        written(*final(buf)) == written(*old(buf)) + u32_le(v),
        room(*final(buf)) == room(*old(buf)),
{
    buf.put_u32_le(v)
}

/// `BytesMut::as_ref`, copied out: the bytes written into the buffer.
#[verifier::external_body]
pub(crate) fn into_vec(buf: BytesMut) -> (v: Vec<u8>)
    ensures
        v@ == written(buf),
{
    buf.as_ref().to_vec()
}

/// An empty buffer sized for `size` bytes.
pub(crate) fn ready_buf(size: usize) -> (buf: BytesMut)
    requires
        size <= isize::MAX,
    ensures
        written(buf) == Seq::<u8>::empty(),
        room(buf) == size,
{
    let mut b = with_capacity(size);
    reserve(&mut b, size);
    b
}

} // verus!
