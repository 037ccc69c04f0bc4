//! Fixed-width integers on the wire: big-endian, signed values in two's
//! complement.

use vstd::arithmetic::power2::{lemma2_to64, pow2};
use vstd::prelude::*;

verus! {

/// The number that the bytes of `s` spell, most significant byte first.
pub open spec fn be_value(s: Seq<u8>) -> nat
    decreases s.len(),
{
    if s.len() == 0 {
        0
    } else {
        be_value(s.drop_last()) * 256 + s.last() as nat
    }
}

/// The `width` low-order bytes of `value`, most significant first.
pub open spec fn be_bytes(value: nat, width: nat) -> Seq<u8>
    decreases width,
{
    if width == 0 {
        Seq::<u8>::empty()
    } else {
        be_bytes(value / 256, (width - 1) as nat).push((value % 256) as u8)
    }
}

/// The unsigned number with the same `bits`-bit pattern as `value`.
pub open spec fn twos_complement(value: int, bits: nat) -> nat {
    if value < 0 {
        (value + pow2(bits)) as nat
    } else {
        value as nat
    }
}

/// The signed number with the same `bits`-bit pattern as `pattern`.
pub open spec fn signed_value(pattern: nat, bits: nat) -> int {
    if pattern >= pow2((bits - 1) as nat) {
        pattern - pow2(bits)
    } else {
        pattern as int
    }
}

/// The value of `n` bytes is below `256` to the `n`.
pub proof fn lemma_be_value_bound(s: Seq<u8>)
    ensures
        be_value(s) < pow2(8 * s.len()),
    decreases s.len(),
{
    lemma2_to64();
    if s.len() > 0 {
        let front = s.drop_last();
        lemma_be_value_bound(front);
        vstd::arithmetic::power2::lemma_pow2_adds(8 * front.len(), 8);
        assert(be_value(s) < pow2(8 * front.len()) * 256) by (nonlinear_arith)
            requires
                be_value(s) == be_value(front) * 256 + s.last() as nat,
                be_value(front) < pow2(8 * front.len()),
                s.last() < 256,
        ;
    }
}

/// `be_bytes` yields exactly `width` bytes.
pub proof fn lemma_be_bytes_len(value: nat, width: nat)
    ensures
        be_bytes(value, width).len() == width,
    decreases width,
{
    if width > 0 {
        lemma_be_bytes_len(value / 256, (width - 1) as nat);
    }
}

/// Reading back what `be_bytes` wrote gives the value, reduced to `width`
/// bytes.
pub proof fn lemma_be_round_trip(value: nat, width: nat)
    ensures
        be_value(be_bytes(value, width)) == value % pow2(8 * width),
    decreases width,
{
    lemma2_to64();
    if width == 0 {
        assert(be_bytes(value, width).len() == 0);
    } else {
        let rest = be_bytes(value / 256, (width - 1) as nat);
        let all = be_bytes(value, width);
        lemma_be_round_trip(value / 256, (width - 1) as nat);
        assert(all.drop_last() =~= rest);
        assert(all.last() == (value % 256) as u8);
        let m = pow2(8 * ((width - 1) as nat));
        vstd::arithmetic::power2::lemma_pow2_adds(8 * ((width - 1) as nat), 8);
        vstd::arithmetic::power2::lemma_pow2_pos(8 * ((width - 1) as nat));
        assert(pow2(8 * width) == m * 256);
        lemma_mod_step(value, m);
    }
}

/// Splitting off the low byte commutes with reduction modulo `m * 256`.
proof fn lemma_mod_step(value: nat, m: nat)
    requires
        m > 0,
    ensures
        ((value / 256) % m) * 256 + value % 256 == value % (m * 256),
{
    let q = value / 256;
    let r = value % 256;
    assert(value == q * 256 + r) by {
        vstd::arithmetic::div_mod::lemma_fundamental_div_mod(value as int, 256);
    }
    let qq = q / m;
    let qr = q % m;
    assert(q == qq * m + qr) by {
        vstd::arithmetic::div_mod::lemma_fundamental_div_mod(q as int, m as int);
        assert(m * qq == qq * m) by (nonlinear_arith);
    }
    assert(0 <= qr < m) by {
        vstd::arithmetic::div_mod::lemma_mod_bound(q as int, m as int);
    }
    let low = qr * 256 + r;
    assert(0 <= low < m * 256) by (nonlinear_arith)
        requires
            0 <= qr < m,
            0 <= r < 256,
            low == qr * 256 + r,
    ;
    assert(value == qq * (m * 256) + low) by (nonlinear_arith)
        requires
            value == q * 256 + r,
            q == qq * m + qr,
            low == qr * 256 + r,
    ;
    vstd::arithmetic::div_mod::lemma_fundamental_div_mod_converse(
        value as int,
        (m * 256) as int,
        qq as int,
        low as int,
    );
}

/// A signed value and its bit pattern determine each other.
pub proof fn lemma_signed_round_trip(value: int, bits: nat)
    requires
        bits > 0,
        -pow2((bits - 1) as nat) <= value < pow2((bits - 1) as nat),
    ensures
        twos_complement(value, bits) < pow2(bits),
        signed_value(twos_complement(value, bits), bits) == value,
{
    vstd::arithmetic::power2::lemma_pow2_unfold(bits);
}

/// What was written as `width` bytes is read back from the front of the
/// stream, whatever follows: an unsigned value as itself.
pub proof fn lemma_unsigned_read_back(value: nat, width: nat, rest: Seq<u8>)
    requires
        value < pow2(8 * width),
    ensures
        be_value((be_bytes(value, width) + rest).take(width as int)) == value,
        (be_bytes(value, width) + rest).skip(width as int) == rest,
{
    lemma_be_bytes_len(value, width);
    lemma_be_round_trip(value, width);
    vstd::arithmetic::div_mod::lemma_small_mod(value, pow2(8 * width));
    assert((be_bytes(value, width) + rest).take(width as int) =~= be_bytes(value, width));
    assert((be_bytes(value, width) + rest).skip(width as int) =~= rest);
}

/// What was written as `width` bytes is read back from the front of the
/// stream, whatever follows: a signed value as itself.
pub proof fn lemma_signed_read_back(value: int, width: nat, rest: Seq<u8>)
    requires
        width > 0,
        -pow2((8 * width - 1) as nat) <= value < pow2((8 * width - 1) as nat),
    ensures
        ({
            let written = be_bytes(twos_complement(value, 8 * width), width);
            &&& signed_value(be_value((written + rest).take(width as int)), 8 * width) == value
            &&& (written + rest).skip(width as int) == rest
        }),
{
    lemma_signed_round_trip(value, 8 * width);
    lemma_unsigned_read_back(twos_complement(value, 8 * width), width, rest);
}

} // verus!
