//! The byte buffers of the `bytes` crate, as the codec sees them.
//!
//! `Bytes` and `BytesMut` are opaque to the verifier. What a buffer holds is
//! named by a specification function, and each operation that the codec uses
//! is declared with what it does to those contents. These declarations are
//! taken on trust from the crate's source and documentation; everything
//! built on them, from `has_room` on, is proved.

use super::endian::{be_bytes, twos_complement};
use bytes::{BufMut, Bytes, BytesMut};
use vstd::prelude::*;

verus! {

/// `bytes::Bytes`: an immutable, cheaply cloneable run of bytes.
#[verifier::external_type_specification]
#[verifier::external_body]
pub struct ExBytes(bytes::Bytes);

/// `bytes::BytesMut`: a growable byte buffer.
#[verifier::external_type_specification]
#[verifier::external_body]
pub struct ExBytesMut(bytes::BytesMut);

/// The bytes that a `Bytes` holds, first to last (`&b[..]`).
pub uninterp spec fn bytes_view(b: Bytes) -> Seq<u8>;

/// The bytes written so far to a `BytesMut`, first to last (`&b[..]`).
pub uninterp spec fn bytes_mut_view(b: BytesMut) -> Seq<u8>;

/// Whether `additional` more bytes may be written to a buffer that holds
/// `len`. A `BytesMut` reports `isize::MAX - len` as its remaining capacity,
/// and a write beyond that panics.
pub open spec fn fits(len: nat, additional: nat) -> bool {
    len + additional <= isize::MAX
}

/// `BytesMut::with_capacity`: a buffer with no contents. The capacity only
/// sizes the first allocation; `Vec::with_capacity`, which it calls, panics
/// on one above `isize::MAX`.
#[verifier::external_body]
pub(crate) fn bytes_mut_with_capacity(capacity: usize) -> (buf: BytesMut)
    requires
        capacity <= isize::MAX,
    ensures
        bytes_mut_view(buf) == Seq::<u8>::empty(),
{
    BytesMut::with_capacity(capacity)
}

/// `BytesMut::len`: the number of bytes written so far.
#[verifier::external_body]
pub(crate) fn bytes_mut_len(buf: &BytesMut) -> (n: usize)
    ensures
        n == bytes_mut_view(*buf).len(),
{
    buf.len()
}

/// Tells whether `additional` more bytes may be written to `buf`.
pub fn has_room(buf: &BytesMut, additional: usize) -> (ok: bool)
    ensures
        ok == fits(bytes_mut_view(*buf).len(), additional as nat),
{
    let limit = isize::MAX as usize;
    additional <= limit && bytes_mut_len(buf) <= limit - additional
}

/// `BufMut::put_u8` on a `BytesMut`: appends the byte.
#[verifier::external_body]
pub(crate) fn put_u8(buf: &mut BytesMut, value: u8)
    requires
        fits(bytes_mut_view(*old(buf)).len(), 1),
    ensures
        bytes_mut_view(*final(buf)) == bytes_mut_view(*old(buf)).push(value),
{
    buf.put_u8(value)
}

/// `BufMut::put_i8` on a `BytesMut`: appends the byte that holds `value` in
/// two's complement.
#[verifier::external_body]
pub(crate) fn put_i8(buf: &mut BytesMut, value: i8)
    requires
        fits(bytes_mut_view(*old(buf)).len(), 1),
    ensures
        bytes_mut_view(*final(buf)) == bytes_mut_view(*old(buf)) + be_bytes(
            twos_complement(value as int, 8),
            1,
        ),
{
    buf.put_i8(value)
}

/// `BufMut::put_u16` on a `BytesMut`: appends the two bytes of `value`, most
/// significant first.
#[verifier::external_body]
pub(crate) fn put_u16(buf: &mut BytesMut, value: u16)
    requires
        fits(bytes_mut_view(*old(buf)).len(), 2),
    ensures
        bytes_mut_view(*final(buf)) == bytes_mut_view(*old(buf)) + be_bytes(value as nat, 2),
{
    buf.put_u16(value)
}

/// `BufMut::put_i16` on a `BytesMut`: appends the two bytes of `value` in
/// two's complement, most significant first.
#[verifier::external_body]
pub(crate) fn put_i16(buf: &mut BytesMut, value: i16)
    requires
        fits(bytes_mut_view(*old(buf)).len(), 2),
    ensures
        bytes_mut_view(*final(buf)) == bytes_mut_view(*old(buf)) + be_bytes(
            twos_complement(value as int, 16),
            2,
        ),
{
    buf.put_i16(value)
}

/// `BufMut::put_u32` on a `BytesMut`: appends the four bytes of `value`,
/// most significant first.
#[verifier::external_body]
pub(crate) fn put_u32(buf: &mut BytesMut, value: u32)
    requires
        fits(bytes_mut_view(*old(buf)).len(), 4),
    ensures
        bytes_mut_view(*final(buf)) == bytes_mut_view(*old(buf)) + be_bytes(value as nat, 4),
{
    buf.put_u32(value)
}

/// `BufMut::put_i32` on a `BytesMut`: appends the four bytes of `value` in
/// two's complement, most significant first.
#[verifier::external_body]
pub(crate) fn put_i32(buf: &mut BytesMut, value: i32)
    requires
        fits(bytes_mut_view(*old(buf)).len(), 4),
    ensures
        bytes_mut_view(*final(buf)) == bytes_mut_view(*old(buf)) + be_bytes(
            twos_complement(value as int, 32),
            4,
        ),
{
    buf.put_i32(value)
}

/// `BufMut::put_u64` on a `BytesMut`: appends the eight bytes of `value`,
/// most significant first.
#[verifier::external_body]
pub(crate) fn put_u64(buf: &mut BytesMut, value: u64)
    requires
        fits(bytes_mut_view(*old(buf)).len(), 8),
    ensures
        bytes_mut_view(*final(buf)) == bytes_mut_view(*old(buf)) + be_bytes(value as nat, 8),
{
    buf.put_u64(value)
}

/// `BufMut::put_i64` on a `BytesMut`: appends the eight bytes of `value` in
/// two's complement, most significant first.
#[verifier::external_body]
pub(crate) fn put_i64(buf: &mut BytesMut, value: i64)
    requires
        fits(bytes_mut_view(*old(buf)).len(), 8),
    ensures
        bytes_mut_view(*final(buf)) == bytes_mut_view(*old(buf)) + be_bytes(
            twos_complement(value as int, 64),
            8,
        ),
{
    buf.put_i64(value)
}

/// `BufMut::put_slice` on a `BytesMut`: appends the bytes of `src` in order.
#[verifier::external_body]
pub(crate) fn put_slice(buf: &mut BytesMut, src: &[u8])
    requires
        fits(bytes_mut_view(*old(buf)).len(), src@.len()),
    ensures
        bytes_mut_view(*final(buf)) == bytes_mut_view(*old(buf)) + src@,
{
    buf.put_slice(src)
}

/// `BytesMut::freeze`: the same bytes, now immutable.
#[verifier::external_body]
pub(crate) fn freeze(buf: BytesMut) -> (b: Bytes)
    ensures
        bytes_view(b) == bytes_mut_view(buf),
{
    buf.freeze()
}

/// `Bytes::copy_from_slice`: a `Bytes` that holds a copy of `data`.
#[verifier::external_body]
pub(crate) fn bytes_copy_from_slice(data: &[u8]) -> (b: Bytes)
    ensures
        bytes_view(b) == data@,
{
    Bytes::copy_from_slice(data)
}

/// `Bytes::as_ref`: the bytes it holds, as a slice.
#[verifier::external_body]
pub(crate) fn bytes_as_slice(b: &Bytes) -> (s: &[u8])
    ensures
        s@ == bytes_view(*b),
{
    b.as_ref()
}

} // verus!
