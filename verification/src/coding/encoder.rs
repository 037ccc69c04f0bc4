//! An owned, growable output buffer that is only ever appended to.
//!
//! Every write states the bytes it adds behind what was there before, so
//! nothing written earlier is ever changed. Strings and blobs above the
//! wire format's length limit are refused before a single byte is written.

use super::buffer::{
    bytes_as_slice, bytes_mut_len, bytes_mut_view, bytes_mut_with_capacity, bytes_view, fits,
    freeze, put_i16, put_i32, put_i64, put_i8, put_slice, put_u16, put_u32, put_u64, put_u8,
};
use super::decoder::{spec_read_blob, spec_read_string, spec_read_varint, spec_read_varlong};
use super::endian::{be_bytes, twos_complement};
use super::varint::{
    encode_varint32, encode_varint64, lemma_decode_encode, lemma_encode_shape,
    lemma_len_within_width, spec_encode_varint, varint_len,
};
use crate::types::{DecodeError, EncodeError};
use bytes::{Bytes, BytesMut};
use vstd::arithmetic::power2::lemma2_to64;
use vstd::prelude::*;
use vstd::utf8::encode_utf8;

verus! {

/// The longest string or blob, in bytes, that the wire format carries.
pub const MAX_STRING_LENGTH: usize = 32767;

/// The wire form of a blob: its length as a varint, then its bytes.
pub open spec fn spec_write_blob(body: Seq<u8>) -> Seq<u8> {
    spec_encode_varint(body.len()) + body
}

/// An output buffer. Its view is everything written so far.
#[derive(Debug)]
pub struct Encoder {
    buf: BytesMut,
}

impl View for Encoder {
    type V = Seq<u8>;

    closed spec fn view(&self) -> Seq<u8> {
        bytes_mut_view(self.buf)
    }
}

impl Encoder {
    /// Whether `additional` more bytes may still be written.
    pub open spec fn has_room(&self, additional: nat) -> bool {
        fits(self@.len(), additional)
    }

    /// An encoder that holds nothing yet.
    pub fn new() -> (e: Encoder)
        ensures
            e@ == Seq::<u8>::empty(),
    {
        Encoder { buf: bytes_mut_with_capacity(1024) }
    }

    /// Number of bytes written so far.
    pub fn len(&self) -> (n: usize)
        ensures
            n == self@.len(),
    {
        bytes_mut_len(&self.buf)
    }

    /// Appends `0x01` for `true` and `0x00` for `false`.
    pub fn write_bool(&mut self, value: bool)
        requires
            old(self).has_room(1),
        ensures
            final(self)@ == old(self)@.push(if value { 1u8 } else { 0u8 }),
    {
        match value {
            true => put_u8(&mut self.buf, 0x01),
            false => put_u8(&mut self.buf, 0x00),
        }
    }

    /// Appends a signed byte in two's complement.
    #[inline]
    pub fn write_i8(&mut self, value: i8)
        requires
            old(self).has_room(1),
        ensures
            final(self)@ == old(self)@ + be_bytes(twos_complement(value as int, 8), 1),
    {
        put_i8(&mut self.buf, value)
    }

    /// Appends a byte.
    #[inline]
    pub fn write_u8(&mut self, value: u8)
        requires
            old(self).has_room(1),
        ensures
            final(self)@ == old(self)@.push(value),
    {
        put_u8(&mut self.buf, value)
    }

    /// Appends a signed 16-bit integer, most significant byte first.
    #[inline]
    pub fn write_i16(&mut self, value: i16)
        requires
            old(self).has_room(2),
        ensures
            final(self)@ == old(self)@ + be_bytes(twos_complement(value as int, 16), 2),
    {
        put_i16(&mut self.buf, value);
    }

    /// Appends an unsigned 16-bit integer, most significant byte first.
    #[inline]
    pub fn write_u16(&mut self, value: u16)
        requires
            old(self).has_room(2),
        ensures
            final(self)@ == old(self)@ + be_bytes(value as nat, 2),
    {
        put_u16(&mut self.buf, value);
    }

    /// Appends a signed 32-bit integer, most significant byte first.
    #[inline]
    pub fn write_i32(&mut self, value: i32)
        requires
            old(self).has_room(4),
        ensures
            final(self)@ == old(self)@ + be_bytes(twos_complement(value as int, 32), 4),
    {
        put_i32(&mut self.buf, value);
    }

    /// Appends an unsigned 32-bit integer, most significant byte first.
    #[inline]
    pub fn write_u32(&mut self, value: u32)
        requires
            old(self).has_room(4),
        ensures
            final(self)@ == old(self)@ + be_bytes(value as nat, 4),
    {
        put_u32(&mut self.buf, value);
    }

    /// Appends a signed 64-bit integer, most significant byte first.
    #[inline]
    pub fn write_i64(&mut self, value: i64)
        requires
            old(self).has_room(8),
        ensures
            final(self)@ == old(self)@ + be_bytes(twos_complement(value as int, 64), 8),
    {
        put_i64(&mut self.buf, value);
    }

    /// Appends an unsigned 64-bit integer, most significant byte first.
    #[inline]
    pub fn write_u64(&mut self, value: u64)
        requires
            old(self).has_room(8),
        ensures
            final(self)@ == old(self)@ + be_bytes(value as nat, 8),
    {
        put_u64(&mut self.buf, value);
    }

    /// Appends a string as a blob of its UTF-8 bytes, or refuses it, with
    /// nothing written, if those are more than `MAX_STRING_LENGTH`.
    pub fn write_string(&mut self, value: String) -> (r: Result<(), EncodeError>)
        requires
            encode_utf8(value@).len() <= MAX_STRING_LENGTH ==> old(self).has_room(
                spec_write_blob(encode_utf8(value@)).len(),
            ),
        ensures
            encode_utf8(value@).len() <= MAX_STRING_LENGTH ==> {
                &&& r is Ok
                &&& final(self)@ == old(self)@ + spec_write_blob(encode_utf8(value@))
            },
            encode_utf8(value@).len() > MAX_STRING_LENGTH ==> {
                &&& r == Err::<(), EncodeError>(EncodeError::LengthLimitExceeded)
                &&& final(self)@ == old(self)@
            },
    {
        self.write_string_ref(&value)
    }

    /// Appends a string as a blob of its UTF-8 bytes, or refuses it, with
    /// nothing written, if those are more than `MAX_STRING_LENGTH`.
    pub fn write_string_ref(&mut self, value: &String) -> (r: Result<(), EncodeError>)
        requires
            encode_utf8(value@).len() <= MAX_STRING_LENGTH ==> old(self).has_room(
                spec_write_blob(encode_utf8(value@)).len(),
            ),
        ensures
            encode_utf8(value@).len() <= MAX_STRING_LENGTH ==> {
                &&& r is Ok
                &&& final(self)@ == old(self)@ + spec_write_blob(encode_utf8(value@))
            },
            encode_utf8(value@).len() > MAX_STRING_LENGTH ==> {
                &&& r == Err::<(), EncodeError>(EncodeError::LengthLimitExceeded)
                &&& final(self)@ == old(self)@
            },
    {
        let buffer = value.as_str().as_bytes();
        self.write_blob(buffer)
    }

    /// Appends the bytes of `value` as a blob, or refuses them, with nothing
    /// written, if they are more than `MAX_STRING_LENGTH`.
    pub fn write_bytes(&mut self, value: &Bytes) -> (r: Result<(), EncodeError>)
        requires
            bytes_view(*value).len() <= MAX_STRING_LENGTH ==> old(self).has_room(
                spec_write_blob(bytes_view(*value)).len(),
            ),
        ensures
            bytes_view(*value).len() <= MAX_STRING_LENGTH ==> {
                &&& r is Ok
                &&& final(self)@ == old(self)@ + spec_write_blob(bytes_view(*value))
            },
            bytes_view(*value).len() > MAX_STRING_LENGTH ==> {
                &&& r == Err::<(), EncodeError>(EncodeError::LengthLimitExceeded)
                &&& final(self)@ == old(self)@
            },
    {
        self.write_blob(bytes_as_slice(value))
    }

    /// Appends a length prefix and the bytes, after checking the limit.
    fn write_blob(&mut self, body: &[u8]) -> (r: Result<(), EncodeError>)
        requires
            body@.len() <= MAX_STRING_LENGTH ==> old(self).has_room(
                spec_write_blob(body@).len(),
            ),
        ensures
            body@.len() <= MAX_STRING_LENGTH ==> {
                &&& r is Ok
                &&& final(self)@ == old(self)@ + spec_write_blob(body@)
            },
            body@.len() > MAX_STRING_LENGTH ==> {
                &&& r == Err::<(), EncodeError>(EncodeError::LengthLimitExceeded)
                &&& final(self)@ == old(self)@
            },
    {
        if body.len() > MAX_STRING_LENGTH {
            return Err(EncodeError::LengthLimitExceeded);
        }
        proof {
            lemma_encode_shape(body@.len());
        }
        self.write_varint(body.len() as u32);
        put_slice(&mut self.buf, body);
        assert(self@ =~= old(self)@ + spec_write_blob(body@));
        Ok(())
    }

    /// Appends a 32-bit variable-length integer.
    pub fn write_varint(&mut self, value: u32)
        requires
            old(self).has_room(varint_len(value as nat)),
        ensures
            final(self)@ == old(self)@ + spec_encode_varint(value as nat),
    {
        encode_varint32(value, &mut self.buf);
    }

    /// Appends a 64-bit variable-length integer.
    pub fn write_varlong(&mut self, value: u64)
        requires
            old(self).has_room(varint_len(value as nat)),
        ensures
            final(self)@ == old(self)@ + spec_encode_varint(value as nat),
    {
        encode_varint64(value, &mut self.buf);
    }

    /// Ends the encoding and hands over what was written.
    pub fn take_bytes(self) -> (b: Bytes)
        ensures
            bytes_view(b) == self@,
    {
        freeze(self.buf)
    }
}

/// Reading back a written varint gives the value and moves past exactly its
/// bytes, whatever follows them.
pub proof fn lemma_varint_read_back(value: u32, rest: Seq<u8>)
    ensures
        spec_read_varint(spec_encode_varint(value as nat) + rest) == Ok::<
            (u32, usize),
            DecodeError,
        >((value, varint_len(value as nat) as usize)),
{
    lemma2_to64();
    lemma_encode_shape(value as nat);
    lemma_len_within_width(value as nat, 32);
    lemma_decode_encode(value as nat, 32, rest);
}

/// Reading back a written 64-bit varint gives the value and moves past
/// exactly its bytes, whatever follows them.
pub proof fn lemma_varlong_read_back(value: u64, rest: Seq<u8>)
    ensures
        spec_read_varlong(spec_encode_varint(value as nat) + rest) == Ok::<
            (u64, usize),
            DecodeError,
        >((value, varint_len(value as nat) as usize)),
{
    lemma2_to64();
    lemma_encode_shape(value as nat);
    lemma_len_within_width(value as nat, 64);
    lemma_decode_encode(value as nat, 64, rest);
}

/// Reading back a written blob gives its bytes and moves past exactly what
/// was written, whatever follows.
pub proof fn lemma_blob_read_back(body: Seq<u8>, rest: Seq<u8>)
    requires
        body.len() <= u32::MAX,
    ensures
        spec_read_blob(spec_write_blob(body) + rest) == Ok::<(Seq<u8>, nat), DecodeError>(
            (body, spec_write_blob(body).len()),
        ),
{
    let prefix = spec_encode_varint(body.len());
    let wire = spec_write_blob(body) + rest;
    let used = varint_len(body.len());
    lemma_varint_read_back(body.len() as u32, body + rest);
    lemma_encode_shape(body.len());
    lemma2_to64();
    lemma_len_within_width(body.len(), 32);
    assert(wire =~= prefix + (body + rest));
    assert(spec_read_varint(wire) == Ok::<(u32, usize), DecodeError>(
        (body.len() as u32, used as usize),
    ));
    assert(wire.len() == used + body.len() + rest.len());
    assert(wire.subrange(used as int, (used + body.len()) as int) =~= body);
}

/// Reading back a written string gives its characters.
pub proof fn lemma_string_read_back(text: Seq<char>, rest: Seq<u8>)
    requires
        encode_utf8(text).len() <= u32::MAX,
    ensures
        spec_read_string(spec_write_blob(encode_utf8(text)) + rest) == Ok::<
            (Seq<char>, nat),
            DecodeError,
        >((text, spec_write_blob(encode_utf8(text)).len())),
{
    lemma_blob_read_back(encode_utf8(text), rest);
    vstd::utf8::encode_utf8_valid_utf8(text);
    vstd::utf8::encode_utf8_decode_utf8(text);
}

} // verus!
