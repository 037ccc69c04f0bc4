//! A read-only cursor over borrowed bytes.
//!
//! Every read first checks that the bytes it needs are there. It then either
//! hands out the value and moves past exactly the bytes of that value, or
//! reports a failure and leaves the cursor where it was.

use super::buffer::{bytes_copy_from_slice, bytes_view};
use super::endian::{be_value, signed_value};
use super::varint::{parse_varint32, parse_varint64, spec_decode_varint32, spec_decode_varint64};
use crate::types::DecodeError;
use bytes::Bytes;
use std::string::FromUtf8Error;
use vstd::arithmetic::power2::{lemma2_to64, lemma2_to64_rest};
use vstd::prelude::*;
use vstd::slice::{slice_subrange, slice_to_vec};
use vstd::utf8::{decode_utf8, encode_utf8, encode_utf8_decode_utf8, valid_utf8};

verus! {

/// `std::string::FromUtf8Error`: why `String::from_utf8` refused its input.
#[verifier::external_type_specification]
#[verifier::external_body]
pub struct ExFromUtf8Error(FromUtf8Error);

/// `String::from_utf8`: succeeds exactly on valid UTF-8, and the string it
/// returns has the given bytes as its encoding.
pub assume_specification[ String::from_utf8 ](vec: Vec<u8>) -> (r: Result<String, FromUtf8Error>)
    ensures
        r is Ok <==> valid_utf8(vec@),
        r matches Ok(s) ==> encode_utf8(s@) == vec@,
;

/// What reading a 32-bit varint from the front of `s` yields: the value and
/// the number of bytes it takes. Nothing at all to read is a lack of data,
/// not a malformed integer.
pub open spec fn spec_read_varint(s: Seq<u8>) -> Result<(u32, usize), DecodeError> {
    if s.len() == 0 {
        Err(DecodeError::InsufficientData)
    } else {
        match spec_decode_varint32(s) {
            Ok(found) => Ok(found),
            Err(e) => Err(DecodeError::MalformedVarint(e)),
        }
    }
}

/// What reading a 64-bit varint from the front of `s` yields.
pub open spec fn spec_read_varlong(s: Seq<u8>) -> Result<(u64, usize), DecodeError> {
    if s.len() == 0 {
        Err(DecodeError::InsufficientData)
    } else {
        match spec_decode_varint64(s) {
            Ok(found) => Ok(found),
            Err(e) => Err(DecodeError::MalformedVarint(e)),
        }
    }
}

/// What reading a length-prefixed blob from the front of `s` yields: the
/// bytes of the blob and the number of bytes that prefix and blob take.
pub open spec fn spec_read_blob(s: Seq<u8>) -> Result<(Seq<u8>, nat), DecodeError> {
    match spec_read_varint(s) {
        Err(e) => Err(e),
        Ok((len, used)) => if s.len() - used < len {
            Err(DecodeError::InsufficientData)
        } else {
            Ok((s.subrange(used as int, used + len), (used + len) as nat))
        },
    }
}

/// What reading a length-prefixed string from the front of `s` yields: the
/// characters of the string and the number of bytes read.
pub open spec fn spec_read_string(s: Seq<u8>) -> Result<(Seq<char>, nat), DecodeError> {
    match spec_read_blob(s) {
        Err(e) => Err(e),
        Ok((body, used)) => if valid_utf8(body) {
            Ok((decode_utf8(body), used))
        } else {
            Err(DecodeError::InvalidUtf8)
        },
    }
}

/// A cursor over a borrowed byte sequence. Its view is what is left unread.
#[derive(Debug, Clone, Copy)]
pub struct Decoder<'a> {
    cursor: &'a [u8],
}

impl<'a> View for Decoder<'a> {
    type V = Seq<u8>;

    closed spec fn view(&self) -> Seq<u8> {
        self.cursor@
    }
}

/// The value of two bytes put together with shifts.
proof fn lemma_join2(b0: u8, b1: u8)
    by (bit_vector)
    ensures
        (((b0 as u16) << 8u16) | (b1 as u16)) == b0 * 256 + b1,
{
}

/// The value of four bytes put together with shifts.
proof fn lemma_join4(b0: u8, b1: u8, b2: u8, b3: u8)
    by (bit_vector)
    ensures
        (((b0 as u32) << 24u32) | ((b1 as u32) << 16u32) | ((b2 as u32) << 8u32) | (b3 as u32))
            == ((b0 * 256 + b1) * 256 + b2) * 256 + b3,
{
}

/// The value of eight bytes put together with shifts.
proof fn lemma_join8(b0: u8, b1: u8, b2: u8, b3: u8, b4: u8, b5: u8, b6: u8, b7: u8)
    by (bit_vector)
    ensures
        (((b0 as u64) << 56u64) | ((b1 as u64) << 48u64) | ((b2 as u64) << 40u64) | ((b3 as u64)
            << 32u64) | ((b4 as u64) << 24u64) | ((b5 as u64) << 16u64) | ((b6 as u64) << 8u64) | (
        b7 as u64)) == ((((((b0 * 256 + b1) * 256 + b2) * 256 + b3) * 256 + b4) * 256 + b5) * 256
            + b6) * 256 + b7,
{
}

/// Reinterpreting an unsigned pattern as signed, for each width.
proof fn lemma_reinterpret(byte: u8, short: u16, word: u32, long: u64)
    by (bit_vector)
    ensures
        (byte as i8) == (if byte >= 0x80 { byte - 0x100 } else { byte as int }),
        (short as i16) == (if short >= 0x8000 { short - 0x1_0000 } else { short as int }),
        (word as i32) == (if word >= 0x8000_0000 { word - 0x1_0000_0000 } else { word as int }),
        (long as i64) == (if long >= 0x8000_0000_0000_0000 {
            long - 0x1_0000_0000_0000_0000
        } else {
            long as int
        }),
{
}

/// The big-endian value of the first `n` bytes, from that of the first
/// `n - 1`.
proof fn lemma_be_value_take(s: Seq<u8>, n: int)
    requires
        0 < n <= s.len(),
    ensures
        be_value(s.take(n)) == be_value(s.take(n - 1)) * 256 + s[n - 1],
{
    assert(s.take(n).drop_last() =~= s.take(n - 1));
}

/// The big-endian value of the first one, two, four and eight bytes.
proof fn lemma_be_value_front(s: Seq<u8>)
    ensures
        s.len() >= 1 ==> be_value(s.take(1)) == s[0],
        s.len() >= 2 ==> be_value(s.take(2)) == s[0] * 256 + s[1],
        s.len() >= 4 ==> be_value(s.take(4)) == ((s[0] * 256 + s[1]) * 256 + s[2]) * 256 + s[3],
        s.len() >= 8 ==> be_value(s.take(8)) == ((((((s[0] * 256 + s[1]) * 256 + s[2]) * 256
            + s[3]) * 256 + s[4]) * 256 + s[5]) * 256 + s[6]) * 256 + s[7],
{
    assert(be_value(s.take(0)) == 0);
    if s.len() >= 1 {
        lemma_be_value_take(s, 1);
    }
    if s.len() >= 2 {
        lemma_be_value_take(s, 2);
    }
    if s.len() >= 4 {
        lemma_be_value_take(s, 3);
        lemma_be_value_take(s, 4);
    }
    if s.len() >= 8 {
        lemma_be_value_take(s, 5);
        lemma_be_value_take(s, 6);
        lemma_be_value_take(s, 7);
        lemma_be_value_take(s, 8);
    }
}

/// A blob lies right behind its length prefix.
proof fn lemma_blob_split(s: Seq<u8>)
    ensures
        spec_read_varint(s) matches Ok((len, used)) ==> s.len() - used >= len ==> s.skip(
            used as int,
        ).subrange(0, len as int) == s.subrange(used as int, used + len) && s.skip(
            used as int,
        ).skip(len as int) == s.skip(used + len),
{
    if let Ok((len, used)) = spec_read_varint(s) {
        if s.len() - used >= len {
            assert(s.skip(used as int).subrange(0, len as int) =~= s.subrange(
                used as int,
                used + len,
            ));
            assert(s.skip(used as int).skip(len as int) =~= s.skip(used + len));
        }
    }
}

impl<'a> Decoder<'a> {
    /// A cursor at the start of `cursor`.
    pub fn new(cursor: &'a [u8]) -> (d: Self)
        ensures
            d@ == cursor@,
    {
        Decoder { cursor }
    }

    /// Number of bytes left unread.
    pub fn remaining(&self) -> (n: usize)
        ensures
            n == self@.len(),
    {
        self.cursor.len()
    }

    /// Moves past the first `n` bytes.
    fn advance(&mut self, n: usize)
        requires
            n <= old(self)@.len(),
        ensures
            final(self)@ == old(self)@.skip(n as int),
    {
        let cursor = self.cursor;
        self.cursor = slice_subrange(cursor, n, cursor.len());
    }

    /// Reads one byte.
    pub fn read_u8(&mut self) -> (r: Result<u8, DecodeError>)
        ensures
            old(self)@.len() >= 1 ==> r == Ok::<u8, DecodeError>(old(self)@[0]) && final(self)@
                == old(self)@.skip(1),
            old(self)@.len() < 1 ==> r == Err::<u8, DecodeError>(DecodeError::InsufficientData)
                && final(self)@ == old(self)@,
    {
        if self.cursor.len() > 0 {
            let value = self.cursor[0];
            self.advance(1);
            return Ok(value);
        }
        Err(DecodeError::InsufficientData)
    }

    /// Reads an unsigned 16-bit integer, most significant byte first.
    pub fn read_u16(&mut self) -> (r: Result<u16, DecodeError>)
        ensures
            old(self)@.len() >= 2 ==> r is Ok && r->Ok_0 == be_value(old(self)@.take(2))
                && final(self)@ == old(self)@.skip(2),
            old(self)@.len() < 2 ==> r == Err::<u16, DecodeError>(DecodeError::InsufficientData)
                && final(self)@ == old(self)@,
    {
        if self.cursor.len() > 1 {
            let c = self.cursor;
            let value = ((c[0] as u16) << 8) | (c[1] as u16);
            proof {
                lemma_be_value_front(self@);
                lemma_join2(c[0], c[1]);
            }
            self.advance(2);
            return Ok(value);
        }
        Err(DecodeError::InsufficientData)
    }

    /// Reads an unsigned 32-bit integer, most significant byte first.
    pub fn read_u32(&mut self) -> (r: Result<u32, DecodeError>)
        ensures
            old(self)@.len() >= 4 ==> r is Ok && r->Ok_0 == be_value(old(self)@.take(4))
                && final(self)@ == old(self)@.skip(4),
            old(self)@.len() < 4 ==> r == Err::<u32, DecodeError>(DecodeError::InsufficientData)
                && final(self)@ == old(self)@,
    {
        if self.cursor.len() > 3 {
            let c = self.cursor;
            let value = ((c[0] as u32) << 24) | ((c[1] as u32) << 16) | ((c[2] as u32) << 8) | (
            c[3] as u32);
            proof {
                lemma_be_value_front(self@);
                lemma_join4(c[0], c[1], c[2], c[3]);
            }
            self.advance(4);
            return Ok(value);
        }
        Err(DecodeError::InsufficientData)
    }

    /// Reads an unsigned 64-bit integer, most significant byte first.
    pub fn read_u64(&mut self) -> (r: Result<u64, DecodeError>)
        ensures
            old(self)@.len() >= 8 ==> r is Ok && r->Ok_0 == be_value(old(self)@.take(8))
                && final(self)@ == old(self)@.skip(8),
            old(self)@.len() < 8 ==> r == Err::<u64, DecodeError>(DecodeError::InsufficientData)
                && final(self)@ == old(self)@,
    {
        if self.cursor.len() > 7 {
            let c = self.cursor;
            let value = ((c[0] as u64) << 56) | ((c[1] as u64) << 48) | ((c[2] as u64) << 40) | ((
            c[3] as u64) << 32) | ((c[4] as u64) << 24) | ((c[5] as u64) << 16) | ((c[6] as u64)
                << 8) | (c[7] as u64);
            proof {
                lemma_be_value_front(self@);
                lemma_join8(c[0], c[1], c[2], c[3], c[4], c[5], c[6], c[7]);
            }
            self.advance(8);
            return Ok(value);
        }
        Err(DecodeError::InsufficientData)
    }

    /// Reads a signed 8-bit integer in two's complement.
    pub fn read_i8(&mut self) -> (r: Result<i8, DecodeError>)
        ensures
            old(self)@.len() >= 1 ==> r is Ok && r->Ok_0 == signed_value(old(self)@[0] as nat, 8)
                && final(self)@ == old(self)@.skip(1),
            old(self)@.len() < 1 ==> r == Err::<i8, DecodeError>(DecodeError::InsufficientData)
                && final(self)@ == old(self)@,
    {
        match self.read_u8() {
            Ok(pattern) => {
                proof {
                    lemma2_to64();
                    lemma_reinterpret(pattern, 0, 0, 0);
                }
                Ok(#[verifier::truncate] (pattern as i8))
            },
            Err(e) => Err(e),
        }
    }

    /// Reads a signed 16-bit integer in two's complement, most significant
    /// byte first.
    pub fn read_i16(&mut self) -> (r: Result<i16, DecodeError>)
        ensures
            old(self)@.len() >= 2 ==> r is Ok && r->Ok_0 == signed_value(
                be_value(old(self)@.take(2)),
                16,
            ) && final(self)@ == old(self)@.skip(2),
            old(self)@.len() < 2 ==> r == Err::<i16, DecodeError>(DecodeError::InsufficientData)
                && final(self)@ == old(self)@,
    {
        match self.read_u16() {
            Ok(pattern) => {
                proof {
                    lemma2_to64();
                    lemma_be_value_front(old(self)@);
                    lemma_reinterpret(0, pattern, 0, 0);
                }
                Ok(#[verifier::truncate] (pattern as i16))
            },
            Err(e) => Err(e),
        }
    }

    /// Reads a signed 32-bit integer in two's complement, most significant
    /// byte first.
    pub fn read_i32(&mut self) -> (r: Result<i32, DecodeError>)
        ensures
            old(self)@.len() >= 4 ==> r is Ok && r->Ok_0 == signed_value(
                be_value(old(self)@.take(4)),
                32,
            ) && final(self)@ == old(self)@.skip(4),
            old(self)@.len() < 4 ==> r == Err::<i32, DecodeError>(DecodeError::InsufficientData)
                && final(self)@ == old(self)@,
    {
        match self.read_u32() {
            Ok(pattern) => {
                proof {
                    lemma2_to64();
                    lemma_be_value_front(old(self)@);
                    lemma_reinterpret(0, 0, pattern, 0);
                }
                Ok(#[verifier::truncate] (pattern as i32))
            },
            Err(e) => Err(e),
        }
    }

    /// Reads a signed 64-bit integer in two's complement, most significant
    /// byte first.
    pub fn read_i64(&mut self) -> (r: Result<i64, DecodeError>)
        ensures
            old(self)@.len() >= 8 ==> r is Ok && r->Ok_0 == signed_value(
                be_value(old(self)@.take(8)),
                64,
            ) && final(self)@ == old(self)@.skip(8),
            old(self)@.len() < 8 ==> r == Err::<i64, DecodeError>(DecodeError::InsufficientData)
                && final(self)@ == old(self)@,
    {
        match self.read_u64() {
            Ok(pattern) => {
                proof {
                    lemma2_to64();
                    lemma2_to64_rest();
                    lemma_be_value_front(old(self)@);
                    lemma_reinterpret(0, 0, 0, pattern);
                }
                Ok(#[verifier::truncate] (pattern as i64))
            },
            Err(e) => Err(e),
        }
    }

    /// Reads a boolean: the byte `0x01` is `true` and `0x00` is `false`; any
    /// other byte is refused and stays unread.
    pub fn read_bool(&mut self) -> (r: Result<bool, DecodeError>)
        ensures
            old(self)@.len() == 0 ==> r == Err::<bool, DecodeError>(DecodeError::InsufficientData)
                && final(self)@ == old(self)@,
            old(self)@.len() > 0 && old(self)@[0] <= 1 ==> r == Ok::<bool, DecodeError>(
                old(self)@[0] == 1,
            ) && final(self)@ == old(self)@.skip(1),
            old(self)@.len() > 0 && old(self)@[0] > 1 ==> r == Err::<bool, DecodeError>(
                DecodeError::InvalidBoolEncoding,
            ) && final(self)@ == old(self)@,
    {
        if self.cursor.len() > 0 {
            let byte = self.cursor[0];
            if byte > 1 {
                return Err(DecodeError::InvalidBoolEncoding);
            }
            self.advance(1);
            return Ok(byte == 1);
        }
        Err(DecodeError::InsufficientData)
    }

    /// Reads a 32-bit variable-length integer.
    pub fn read_varint(&mut self) -> (r: Result<u32, DecodeError>)
        ensures
            match spec_read_varint(old(self)@) {
                Ok((value, used)) => {
                    &&& r == Ok::<u32, DecodeError>(value)
                    &&& final(self)@ == old(self)@.skip(used as int)
                },
                Err(e) => r == Err::<u32, DecodeError>(e) && final(self)@ == old(self)@,
            },
    {
        if self.cursor.len() == 0 {
            return Err(DecodeError::InsufficientData);
        }
        match parse_varint32(self.cursor) {
            Ok((value, used)) => {
                self.advance(used);
                Ok(value)
            },
            Err(e) => Err(DecodeError::MalformedVarint(e)),
        }
    }

    /// Reads a 64-bit variable-length integer.
    pub fn read_varlong(&mut self) -> (r: Result<u64, DecodeError>)
        ensures
            match spec_read_varlong(old(self)@) {
                Ok((value, used)) => {
                    &&& r == Ok::<u64, DecodeError>(value)
                    &&& final(self)@ == old(self)@.skip(used as int)
                },
                Err(e) => r == Err::<u64, DecodeError>(e) && final(self)@ == old(self)@,
            },
    {
        if self.cursor.len() == 0 {
            return Err(DecodeError::InsufficientData);
        }
        match parse_varint64(self.cursor) {
            Ok((value, used)) => {
                self.advance(used);
                Ok(value)
            },
            Err(e) => Err(DecodeError::MalformedVarint(e)),
        }
    }

    /// Reads a blob: a varint length, then that many bytes, which are
    /// copied out.
    pub fn read_bytes(&mut self) -> (r: Result<Bytes, DecodeError>)
        ensures
            match spec_read_blob(old(self)@) {
                Ok((body, used)) => {
                    &&& r is Ok
                    &&& bytes_view(r->Ok_0) == body
                    &&& final(self)@ == old(self)@.skip(used as int)
                },
                Err(e) => r == Err::<Bytes, DecodeError>(e) && final(self)@ == old(self)@,
            },
    {
        let start = self.cursor;
        match self.read_varint() {
            Ok(len) => {
                let len = len as usize;
                if self.cursor.len() < len {
                    self.cursor = start;
                    return Err(DecodeError::InsufficientData);
                }
                let body = bytes_copy_from_slice(slice_subrange(self.cursor, 0, len));
                proof {
                    lemma_blob_split(old(self)@);
                }
                self.advance(len);
                Ok(body)
            },
            Err(e) => Err(e),
        }
    }

    /// Reads a string: a varint length, then that many bytes of UTF-8.
    pub fn read_string(&mut self) -> (r: Result<String, DecodeError>)
        ensures
            match spec_read_string(old(self)@) {
                Ok((text, used)) => {
                    &&& r is Ok
                    &&& r->Ok_0@ == text
                    &&& final(self)@ == old(self)@.skip(used as int)
                },
                Err(e) => r == Err::<String, DecodeError>(e) && final(self)@ == old(self)@,
            },
    {
        let start = self.cursor;
        match self.read_varint() {
            Ok(len) => {
                let len = len as usize;
                if self.cursor.len() < len {
                    self.cursor = start;
                    return Err(DecodeError::InsufficientData);
                }
                proof {
                    lemma_blob_split(old(self)@);
                }
                match String::from_utf8(slice_to_vec(slice_subrange(self.cursor, 0, len))) {
                    Ok(text) => {
                        proof {
                            encode_utf8_decode_utf8(text@);
                        }
                        self.advance(len);
                        Ok(text)
                    },
                    Err(_) => {
                        self.cursor = start;
                        Err(DecodeError::InvalidUtf8)
                    },
                }
            },
            Err(e) => Err(e),
        }
    }
}

} // verus!
