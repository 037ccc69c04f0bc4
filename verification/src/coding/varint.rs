//! Variable-length unsigned integers: seven payload bits per byte, least
//! significant group first, the high bit of a byte set when more bytes follow.
//!
//! A 32-bit value takes at most five bytes and a 64-bit value at most ten.
//! Decoding tells apart an encoding that is cut short from one that runs on
//! past the width of its target.

use super::buffer::{bytes_mut_view, fits, put_u8};
use bytes::BytesMut;
use vstd::arithmetic::power2::{lemma2_to64, pow2};
use vstd::prelude::*;

verus! {

/// Why a byte sequence is not the encoding of an integer.
#[derive(Debug, Clone, Copy, PartialEq, Eq, Structural)]
pub enum VarintError {
    /// The input ends before a byte without the continuation bit: more
    /// input may complete it.
    Incomplete,
    /// The continuation bits run on past the width of the target.
    TooLarge,
}

/// Number of bytes in the encoding of `value`.
pub open spec fn varint_len(value: nat) -> nat
    decreases value,
{
    if value < 128 {
        1
    } else {
        1 + varint_len(value / 128)
    }
}

/// The encoding of `value`: its seven-bit groups from the least significant
/// up, each but the last with the high bit set.
pub open spec fn spec_encode_varint(value: nat) -> Seq<u8>
    decreases value,
{
    if value < 128 {
        seq![value as u8]
    } else {
        seq![(value % 128 + 128) as u8] + spec_encode_varint(value / 128)
    }
}

/// The longest encoding that a target of `bits` bits accepts.
pub open spec fn varint_max_len(bits: nat) -> nat {
    (bits + 6) / 7
}

/// `128` to the power `n`: the weight of the seven-bit group at index `n`.
pub open spec fn group_weight(n: nat) -> nat
    decreases n,
{
    if n == 0 {
        1
    } else {
        128 * group_weight((n - 1) as nat)
    }
}

/// The number spelled by the low seven bits of each byte of `s`, the first
/// byte least significant.
pub open spec fn varint_payload(s: Seq<u8>) -> nat
    decreases s.len(),
{
    if s.len() == 0 {
        0
    } else {
        (s[0] % 128) as nat + 128 * varint_payload(s.drop_first())
    }
}

/// Index of the first byte of `s` without the continuation bit, or
/// `s.len()` if every byte has it.
pub open spec fn terminator_index(s: Seq<u8>) -> nat
    decreases s.len(),
{
    if s.len() == 0 || s[0] < 128 {
        0
    } else {
        1 + terminator_index(s.drop_first())
    }
}

/// What decoding the front of `s` into a target of `bits` bits yields: the
/// value and the number of bytes it took, or the reason for failure. Groups
/// that reach past the target's width lose their high bits.
pub open spec fn spec_decode_varint(s: Seq<u8>, bits: nat) -> Result<(nat, nat), VarintError> {
    let k = terminator_index(s);
    if k < s.len() && k < varint_max_len(bits) {
        Ok((varint_payload(s.take(k + 1 as int)) % pow2(bits), k + 1))
    } else if s.len() >= varint_max_len(bits) {
        Err(VarintError::TooLarge)
    } else {
        Err(VarintError::Incomplete)
    }
}

/// The result that a 32-bit decoder owes for `s`.
pub open spec fn spec_decode_varint32(s: Seq<u8>) -> Result<(u32, usize), VarintError> {
    match spec_decode_varint(s, 32) {
        Ok((value, used)) => Ok((value as u32, used as usize)),
        Err(e) => Err(e),
    }
}

/// The result that a 64-bit decoder owes for `s`.
pub open spec fn spec_decode_varint64(s: Seq<u8>) -> Result<(u64, usize), VarintError> {
    match spec_decode_varint(s, 64) {
        Ok((value, used)) => Ok((value as u64, used as usize)),
        Err(e) => Err(e),
    }
}

/// Where the terminator of `s` is: not before `k` if the bytes before `k`
/// all continue, and at `k` if `k` is the end of `s` or a byte that does not.
proof fn lemma_terminator_at(s: Seq<u8>, k: nat)
    requires
        k <= s.len(),
        forall|j: int| 0 <= j < k ==> s[j] >= 128,
    ensures
        terminator_index(s) >= k,
        k == s.len() || s[k as int] < 128 ==> terminator_index(s) == k,
    decreases k,
{
    if k > 0 {
        let tail = s.drop_first();
        assert forall|j: int| 0 <= j < k - 1 implies tail[j] >= 128 by {
            assert(tail[j] == s[j + 1]);
        }
        lemma_terminator_at(tail, (k - 1) as nat);
    }
}

/// Appending a byte adds its seven-bit group at the next weight.
proof fn lemma_payload_push(s: Seq<u8>, b: u8)
    ensures
        varint_payload(s.push(b)) == varint_payload(s) + (b % 128) * group_weight(s.len()),
    decreases s.len(),
{
    let t = s.push(b);
    let group = (b % 128) as nat;
    if s.len() == 0 {
        assert(t[0] == b);
        assert(t.drop_first() =~= Seq::<u8>::empty());
        assert(varint_payload(t.drop_first()) == 0);
        assert(group * group_weight(0) == group) by (nonlinear_arith)
            requires
                group_weight(0) == 1,
        ;
    } else {
        let tail = s.drop_first();
        assert(t[0] == s[0]);
        assert(t.drop_first() =~= tail.push(b));
        lemma_payload_push(tail, b);
        assert(128 * (group * group_weight(tail.len())) == group * group_weight(s.len()))
            by (nonlinear_arith)
            requires
                group_weight(s.len()) == 128 * group_weight(tail.len()),
        ;
    }
}

/// The payload of `n` bytes is below `128` to the `n`.
proof fn lemma_payload_bound(s: Seq<u8>)
    ensures
        varint_payload(s) < group_weight(s.len()),
    decreases s.len(),
{
    if s.len() > 0 {
        lemma_payload_bound(s.drop_first());
    }
}

/// The shape of an encoding: its length, its continuation bits, its payload.
pub proof fn lemma_encode_shape(value: nat)
    ensures
        spec_encode_varint(value).len() == varint_len(value),
        forall|j: int|
            0 <= j < varint_len(value) - 1 ==> #[trigger] spec_encode_varint(value)[j] >= 128,
        spec_encode_varint(value).last() < 128,
        varint_payload(spec_encode_varint(value)) == value,
    decreases value,
{
    let e = spec_encode_varint(value);
    if value < 128 {
        assert(e.drop_first() =~= Seq::<u8>::empty());
        assert(varint_payload(e.drop_first()) == 0);
    } else {
        let rest = spec_encode_varint(value / 128);
        lemma_encode_shape(value / 128);
        assert(e.drop_first() =~= rest);
        assert(e[0] == (value % 128 + 128) as u8);
        assert(e.last() == rest.last());
        assert forall|j: int| 0 <= j < varint_len(value) - 1 implies #[trigger] e[j] >= 128 by {
            if j > 0 {
                assert(e[j] == rest[j - 1]);
            }
        }
    }
}

/// A value below `128` to the `n` takes at most `n` bytes.
proof fn lemma_len_bound(value: nat, n: nat)
    requires
        n >= 1,
        value < group_weight(n),
    ensures
        varint_len(value) <= n,
    decreases n,
{
    if value >= 128 {
        assert(n >= 2) by {
            reveal_with_fuel(group_weight, 2);
        }
        lemma_len_bound(value / 128, (n - 1) as nat);
    }
}

/// A value of `bits` bits, for the two widths in use, needs no more bytes
/// than a decoder of that width accepts.
pub proof fn lemma_len_within_width(value: nat, bits: nat)
    requires
        bits == 32 || bits == 64,
        value < pow2(bits),
    ensures
        1 <= varint_len(value) <= varint_max_len(bits),
{
    lemma2_to64();
    reveal_with_fuel(group_weight, 11);
    if bits == 32 {
        lemma_len_bound(value, 5);
    } else {
        lemma_len_bound(value, 10);
    }
}

/// Decoding an encoding gives back the value and the encoding's length,
/// whatever bytes follow it.
pub proof fn lemma_decode_encode(value: nat, bits: nat, rest: Seq<u8>)
    requires
        bits == 32 || bits == 64,
        value < pow2(bits),
    ensures
        spec_decode_varint(spec_encode_varint(value) + rest, bits) == Ok::<
            (nat, nat),
            VarintError,
        >((value, varint_len(value))),
{
    let e = spec_encode_varint(value);
    let s = e + rest;
    let k = (varint_len(value) - 1) as nat;
    lemma_encode_shape(value);
    lemma_len_within_width(value, bits);
    assert forall|j: int| 0 <= j < k implies s[j] >= 128 by {
        assert(s[j] == e[j]);
    }
    assert(s[k as int] == e.last());
    lemma_terminator_at(s, k);
    assert(s.take(k + 1 as int) =~= e);
    vstd::arithmetic::div_mod::lemma_small_mod(value, pow2(bits));
}

/// Round trip of the 32-bit codec: for every `u32`, decoding its encoding
/// yields the value and the length of the encoding.
pub proof fn lemma_varint32_round_trip(value: u32)
    ensures
        spec_decode_varint32(spec_encode_varint(value as nat)) == Ok::<(u32, usize), VarintError>(
            (value, varint_len(value as nat) as usize),
        ),
        spec_encode_varint(value as nat).len() == varint_len(value as nat),
        varint_len(value as nat) <= 5,
{
    lemma2_to64();
    lemma_encode_shape(value as nat);
    lemma_len_within_width(value as nat, 32);
    lemma_decode_encode(value as nat, 32, Seq::<u8>::empty());
    assert(spec_encode_varint(value as nat) + Seq::<u8>::empty() =~= spec_encode_varint(
        value as nat,
    ));
}

/// Round trip of the 64-bit codec: for every `u64`, decoding its encoding
/// yields the value and the length of the encoding.
pub proof fn lemma_varint64_round_trip(value: u64)
    ensures
        spec_decode_varint64(spec_encode_varint(value as nat)) == Ok::<(u64, usize), VarintError>(
            (value, varint_len(value as nat) as usize),
        ),
        spec_encode_varint(value as nat).len() == varint_len(value as nat),
        varint_len(value as nat) <= 10,
{
    lemma2_to64();
    lemma_encode_shape(value as nat);
    lemma_len_within_width(value as nat, 64);
    lemma_decode_encode(value as nat, 64, Seq::<u8>::empty());
    assert(spec_encode_varint(value as nat) + Seq::<u8>::empty() =~= spec_encode_varint(
        value as nat,
    ));
}

/// A strict prefix of an encoding decodes to `Incomplete`, never to a value.
pub proof fn lemma_prefix_incomplete(value: nat, bits: nat, n: nat)
    requires
        bits == 32 || bits == 64,
        value < pow2(bits),
        n < varint_len(value),
    ensures
        spec_decode_varint(spec_encode_varint(value).take(n as int), bits) == Err::<
            (nat, nat),
            VarintError,
        >(VarintError::Incomplete),
{
    let e = spec_encode_varint(value);
    let p = e.take(n as int);
    lemma_encode_shape(value);
    lemma_len_within_width(value, bits);
    assert forall|j: int| 0 <= j < n implies p[j] >= 128 by {
        assert(p[j] == e[j]);
    }
    lemma_terminator_at(p, n);
}

/// Every strict prefix of the encoding of a `u32` is `Incomplete` to the
/// 32-bit decoder.
pub proof fn lemma_varint32_prefix_incomplete(value: u32, n: nat)
    requires
        n < varint_len(value as nat),
    ensures
        spec_decode_varint32(spec_encode_varint(value as nat).take(n as int)) == Err::<
            (u32, usize),
            VarintError,
        >(VarintError::Incomplete),
{
    lemma2_to64();
    lemma_prefix_incomplete(value as nat, 32, n);
}

/// Every strict prefix of the encoding of a `u64` is `Incomplete` to the
/// 64-bit decoder.
pub proof fn lemma_varint64_prefix_incomplete(value: u64, n: nat)
    requires
        n < varint_len(value as nat),
    ensures
        spec_decode_varint64(spec_encode_varint(value as nat).take(n as int)) == Err::<
            (u64, usize),
            VarintError,
        >(VarintError::Incomplete),
{
    lemma2_to64();
    lemma_prefix_incomplete(value as nat, 64, n);
}

/// One decoding step on a 32-bit accumulator: or-ing a group in above the
/// bits already set adds it at its weight, modulo the accumulator's width.
proof fn lemma_group_or32(value: u32, byte: u8, shift: u32, weight: u64)
    by (bit_vector)
    requires
        shift <= 28,
        weight == 1u64 << shift,
        (value as u64) < weight,
    ensures
        (value | (((byte & 0x7f) as u32) << shift)) as u64 == (value as u64 + (byte % 128) as u64
            * weight) % 0x1_0000_0000,
        (byte & 0x80 == 0) == (byte < 128),
        (1u64 << ((shift + 7) as u32)) == weight * 128,
{
}

/// One decoding step on a 64-bit accumulator.
proof fn lemma_group_or64(value: u64, byte: u8, shift: u32, weight: u64)
    by (bit_vector)
    requires
        shift <= 63,
        weight == 1u64 << shift,
        value < weight,
    ensures
        (value | (((byte & 0x7f) as u64) << shift)) as u128 == (value as u128 + (byte % 128) as u128
            * (weight as u128)) % 0x1_0000_0000_0000_0000,
        (byte & 0x80 == 0) == (byte < 128),
        shift <= 56 ==> (1u64 << ((shift + 7) as u32)) == weight * 128,
{
}

/// Decodes a 32-bit integer from the front of `buf`: the value and the
/// number of bytes it took, or why there is none.
pub fn parse_varint32(buf: &[u8]) -> (r: Result<(u32, usize), VarintError>)
    ensures
        r == spec_decode_varint32(buf@),
{
    let mut value: u32 = 0;
    let mut shift: u32 = 0;
    let mut len: usize = 0;
    proof {
        lemma2_to64();
        assert(1u64 << 0u32 == 1) by (bit_vector);
    }
    while len < buf.len()
        invariant
            len <= buf@.len(),
            len <= 4,
            shift == 7 * len,
            (1u64 << shift) == group_weight(len as nat),
            forall|j: int| 0 <= j < len ==> buf@[j] >= 128,
            value == varint_payload(buf@.take(len as int)),
            pow2(32) == 0x1_0000_0000,
        decreases buf@.len() - len,
    {
        let byte = buf[len];
        proof {
            let front = buf@.take(len as int);
            assert(buf@.take(len + 1) =~= front.push(byte));
            lemma_payload_push(front, byte);
            lemma_payload_bound(front);
            lemma_payload_bound(front.push(byte));
            lemma_group_or32(value, byte, shift, 1u64 << shift);
            reveal_with_fuel(group_weight, 6);
            assert((byte % 128) as u64 * (1u64 << shift) == (byte % 128) * group_weight(len as nat))
                by (nonlinear_arith)
                requires
                    (1u64 << shift) == group_weight(len as nat),
                    (byte % 128) * group_weight(len as nat) < 0x1_0000_0000_0000,
            ;
        }
        value |= ((byte & 0x7f) as u32) << shift;
        len += 1;
        if byte & 0x80 == 0 {
            proof {
                lemma_terminator_at(buf@, (len - 1) as nat);
            }
            return Ok((value, len));
        }
        shift += 7;
        if shift >= 32 {
            proof {
                lemma_terminator_at(buf@, len as nat);
            }
            return Err(VarintError::TooLarge);
        }
        proof {
            vstd::arithmetic::div_mod::lemma_small_mod(
                varint_payload(buf@.take(len as int)),
                0x1_0000_0000,
            );
        }
    }
    proof {
        lemma_terminator_at(buf@, len as nat);
    }
    Err(VarintError::Incomplete)
}

/// Decodes a 32-bit integer from the front of `buf`; `None` where
/// `parse_varint32` fails, for either reason.
pub fn decode_varint32(buf: &[u8]) -> (r: Option<(u32, usize)>)
    ensures
        r == match spec_decode_varint32(buf@) {
            Ok(found) => Some(found),
            Err(_) => None,
        },
{
    match parse_varint32(buf) {
        Ok(found) => Some(found),
        Err(_) => None,
    }
}

/// Decodes a 64-bit integer from the front of `buf`: the value and the
/// number of bytes it took, or why there is none.
pub fn parse_varint64(buf: &[u8]) -> (r: Result<(u64, usize), VarintError>)
    ensures
        r == spec_decode_varint64(buf@),
{
    let mut value: u64 = 0;
    let mut shift: u32 = 0;
    let mut len: usize = 0;
    proof {
        lemma2_to64();
        assert(1u64 << 0u32 == 1) by (bit_vector);
    }
    while len < buf.len()
        invariant
            len <= buf@.len(),
            len <= 9,
            shift == 7 * len,
            (1u64 << shift) == group_weight(len as nat),
            forall|j: int| 0 <= j < len ==> buf@[j] >= 128,
            value == varint_payload(buf@.take(len as int)),
            pow2(64) == 0x1_0000_0000_0000_0000,
        decreases buf@.len() - len,
    {
        let byte = buf[len];
        proof {
            let front = buf@.take(len as int);
            assert(buf@.take(len + 1) =~= front.push(byte));
            lemma_payload_push(front, byte);
            lemma_payload_bound(front);
            lemma_payload_bound(front.push(byte));
            lemma_group_or64(value, byte, shift, 1u64 << shift);
            reveal_with_fuel(group_weight, 11);
            assert((byte % 128) as u128 * ((1u64 << shift) as u128) == (byte % 128) * group_weight(
                len as nat,
            )) by (nonlinear_arith)
                requires
                    (1u64 << shift) == group_weight(len as nat),
                    (byte % 128) * group_weight(len as nat) < 0x1_0000_0000_0000_0000_0000,
            ;
        }
        value |= ((byte & 0x7f) as u64) << shift;
        len += 1;
        if byte & 0x80 == 0 {
            proof {
                lemma_terminator_at(buf@, (len - 1) as nat);
            }
            return Ok((value, len));
        }
        shift += 7;
        if shift >= 64 {
            proof {
                lemma_terminator_at(buf@, len as nat);
            }
            return Err(VarintError::TooLarge);
        }
        proof {
            vstd::arithmetic::div_mod::lemma_small_mod(
                varint_payload(buf@.take(len as int)),
                0x1_0000_0000_0000_0000,
            );
        }
    }
    proof {
        lemma_terminator_at(buf@, len as nat);
    }
    Err(VarintError::Incomplete)
}

/// Decodes a 64-bit integer from the front of `buf`; `None` where
/// `parse_varint64` fails, for either reason.
pub fn decode_varint64(buf: &[u8]) -> (r: Option<(u64, usize)>)
    ensures
        r == match spec_decode_varint64(buf@) {
            Ok(found) => Some(found),
            Err(_) => None,
        },
{
    match parse_varint64(buf) {
        Ok(found) => Some(found),
        Err(_) => None,
    }
}

/// What one encoding step on a 32-bit value emits and leaves.
proof fn lemma_split_group32(value: u32)
    by (bit_vector)
    ensures
        ((value as u8) | 0x80u8) == ((value % 128 + 128) as u8),
        value >> 7u32 == value / 128,
        value < 0x80 ==> (value as u8) == value,
{
}

/// What one encoding step on a 64-bit value emits and leaves.
proof fn lemma_split_group64(value: u64)
    by (bit_vector)
    ensures
        ((value as u8) | 0x80u8) == ((value % 128 + 128) as u8),
        value >> 7u64 == value / 128,
        value < 0x80 ==> (value as u8) == value,
{
}

/// Appends the encoding of `value` to `buf` and returns its length.
pub fn encode_varint32(value: u32, buf: &mut BytesMut) -> (n: usize)
    requires
        fits(bytes_mut_view(*old(buf)).len(), varint_len(value as nat)),
    ensures
        bytes_mut_view(*final(buf)) == bytes_mut_view(*old(buf)) + spec_encode_varint(value as nat),
        n == varint_len(value as nat),
        1 <= n <= 5,
{
    let mut value = value;
    let mut len: usize = 0;
    let ghost whole = value;
    proof {
        lemma_varint32_round_trip(whole);
    }
    while value >= 0x80
        invariant
            bytes_mut_view(*buf) + spec_encode_varint(value as nat) == bytes_mut_view(*old(buf))
                + spec_encode_varint(whole as nat),
            bytes_mut_view(*buf).len() == bytes_mut_view(*old(buf)).len() + len,
            len + varint_len(value as nat) == varint_len(whole as nat),
            varint_len(whole as nat) <= 5,
            fits(bytes_mut_view(*old(buf)).len(), varint_len(whole as nat)),
        decreases value,
    {
        proof {
            lemma_split_group32(value);
            lemma_encode_shape(value as nat);
            lemma_encode_shape(whole as nat);
        }
        let ghost before = bytes_mut_view(*buf);
        put_u8(buf, (#[verifier::truncate] (value as u8)) | 0x80);
        proof {
            let rest = spec_encode_varint((value / 128) as nat);
            assert(before.push(((value % 128 + 128) as u8)) + rest =~= before + (seq![
                ((value % 128 + 128) as u8),
            ] + rest));
        }
        value >>= 7;
        len += 1;
    }
    proof {
        lemma_split_group32(value);
        lemma_encode_shape(value as nat);
        lemma_encode_shape(whole as nat);
        assert(bytes_mut_view(*buf).push(value as u8) =~= bytes_mut_view(*buf) + seq![value as u8]);
    }
    put_u8(buf, value as u8);
    len + 1
}

/// Appends the encoding of `value` to `buf` and returns its length.
pub fn encode_varint64(value: u64, buf: &mut BytesMut) -> (n: usize)
    requires
        fits(bytes_mut_view(*old(buf)).len(), varint_len(value as nat)),
    ensures
        bytes_mut_view(*final(buf)) == bytes_mut_view(*old(buf)) + spec_encode_varint(value as nat),
        n == varint_len(value as nat),
        1 <= n <= 10,
{
    let mut value = value;
    let mut len: usize = 0;
    let ghost whole = value;
    proof {
        lemma_varint64_round_trip(whole);
    }
    while value >= 0x80
        invariant
            bytes_mut_view(*buf) + spec_encode_varint(value as nat) == bytes_mut_view(*old(buf))
                + spec_encode_varint(whole as nat),
            bytes_mut_view(*buf).len() == bytes_mut_view(*old(buf)).len() + len,
            len + varint_len(value as nat) == varint_len(whole as nat),
            varint_len(whole as nat) <= 10,
            fits(bytes_mut_view(*old(buf)).len(), varint_len(whole as nat)),
        decreases value,
    {
        proof {
            lemma_split_group64(value);
            lemma_encode_shape(value as nat);
            lemma_encode_shape(whole as nat);
        }
        let ghost before = bytes_mut_view(*buf);
        put_u8(buf, (#[verifier::truncate] (value as u8)) | 0x80);
        proof {
            let rest = spec_encode_varint((value / 128) as nat);
            assert(before.push(((value % 128 + 128) as u8)) + rest =~= before + (seq![
                ((value % 128 + 128) as u8),
            ] + rest));
        }
        value >>= 7;
        len += 1;
    }
    proof {
        lemma_split_group64(value);
        lemma_encode_shape(value as nat);
        lemma_encode_shape(whole as nat);
        assert(bytes_mut_view(*buf).push(value as u8) =~= bytes_mut_view(*buf) + seq![value as u8]);
    }
    put_u8(buf, value as u8);
    len + 1
}

} // verus!
