//! The output buffer: `bytes::BytesMut`, seen as the sequence of bytes it holds.
use bytes::BufMut;
use bytes::BytesMut;
use vstd::prelude::*;
use crate::wire::{be16_bytes, be32_bytes, be64_bytes};

verus! {

#[verifier::external_type_specification]
#[verifier::external_body]
pub struct ExBytesMut(BytesMut);

/// The bytes that a `BytesMut` holds, first to last.
pub uninterp spec fn bytes_of(b: BytesMut) -> Seq<u8>;

/// Relies on `BytesMut::len`: the number of bytes held.
#[verifier::external_body]
pub(crate) fn buf_len(b: &BytesMut) -> (r: usize)
    ensures
        r == bytes_of(*b).len(),
{
    b.len()
}

/// Relies on `BufMut::put_slice` for `BytesMut` (`extend_from_slice`): appends
/// `src`; it panics only past `isize::MAX` bytes.
#[verifier::external_body]
pub(crate) fn put_slice(b: &mut BytesMut, src: &[u8])
    requires
        bytes_of(*old(b)).len() + src@.len() <= isize::MAX,
    ensures
        bytes_of(*final(b)) == bytes_of(*old(b)) + src@,
{
    b.put_slice(src)
}

/// Relies on `BufMut::put_u8`: appends `n`.
#[verifier::external_body]
pub(crate) fn put_u8(b: &mut BytesMut, n: u8)
    requires
        bytes_of(*old(b)).len() + 1 <= isize::MAX,
    ensures
        bytes_of(*final(b)) == bytes_of(*old(b)).push(n),
{
    b.put_u8(n)
}

/// Relies on `BufMut::put_u16`: appends `n.to_be_bytes()`.
#[verifier::external_body]
pub(crate) fn put_u16(b: &mut BytesMut, n: u16)
    requires
        bytes_of(*old(b)).len() + 2 <= isize::MAX,
    ensures
        bytes_of(*final(b)) == bytes_of(*old(b)) + be16_bytes(n),
{
    b.put_u16(n)
}

/// Relies on `BufMut::put_u32`: appends `n.to_be_bytes()`.
#[verifier::external_body]
pub(crate) fn put_u32(b: &mut BytesMut, n: u32)
    requires
        bytes_of(*old(b)).len() + 4 <= isize::MAX,
    ensures
        bytes_of(*final(b)) == bytes_of(*old(b)) + be32_bytes(n),
{
    b.put_u32(n)
}

/// Relies on `BufMut::put_u64`: appends `n.to_be_bytes()`.
#[verifier::external_body]
pub(crate) fn put_u64(b: &mut BytesMut, n: u64)
    requires
        bytes_of(*old(b)).len() + 8 <= isize::MAX,
    ensures
        bytes_of(*final(b)) == bytes_of(*old(b)) + be64_bytes(n),
{
    b.put_u64(n)
}

/// Relies on `BytesMut::truncate`: keeps the first `len` bytes.
#[verifier::external_body]
pub(crate) fn truncate(b: &mut BytesMut, len: usize)
    requires
        len <= bytes_of(*old(b)).len(),
    ensures
        bytes_of(*final(b)) == bytes_of(*old(b)).subrange(0, len as int),
{
    b.truncate(len)
}

/// Relies on `BytesMut`'s `Deref`: the held bytes as a slice.
#[verifier::external_body]
pub(crate) fn held(b: &BytesMut) -> (r: &[u8])
    ensures
        r@ == bytes_of(*b),
{
    &b[..]
}

/// Relies on `byteorder::BigEndian::write_u16`: overwrites `b[at]` and
/// `b[at + 1]` with `n.to_be_bytes()`.
#[verifier::external_body]
pub(crate) fn overwrite_be16(b: &mut BytesMut, at: usize, n: u16)
    requires
        at + 2 <= bytes_of(*old(b)).len(),
    ensures
        bytes_of(*final(b)) == bytes_of(*old(b)).update(at as int, be16_bytes(n)[0]).update(
            at + 1,
            be16_bytes(n)[1],
        ),
{
    <byteorder::BigEndian as byteorder::ByteOrder>::write_u16(&mut b[at..at + 2], n)
}

} // verus!
