//! The 80-bit extended precision floats of the AIFF family.
//!
//! AIFF and AIFC files give the sample rate as an IEEE 754 extended precision
//! float: a sign bit, an exponent of 15 bits biased by 16383, and a mantissa of
//! 64 bits, all in big-endian order. A number is its mantissa times two to the
//! power of the exponent, both freed of their bias: `m * 2^(e - 16383 - 63)`.
use vstd::prelude::*;
use vstd::arithmetic::power2::pow2;
use crate::bytes::{be_bytes, be_value, law_be_round_trip, word_byte};

verus! {

/// The number of binary digits of `v`.
pub open spec fn bit_length(v: nat) -> nat
    decreases v,
{
    if v == 0 {
        0
    } else {
        1 + bit_length(v / 2)
    }
}

/// The mantissa that stands for `v`: its digits, from the highest of the 64 bits
/// downwards.
pub open spec fn extended_mantissa(v: u32) -> nat {
    v as nat * pow2((64 - bit_length(v as nat)) as nat)
}

/// The biased exponent that stands for `v`.
pub open spec fn extended_exponent(v: u32) -> nat {
    16382 + bit_length(v as nat)
}

/// The extended precision float for the whole number `v`.
pub open spec fn extended_bytes(v: u32) -> Seq<u8> {
    if v == 0 {
        Seq::new(10, |i: int| 0u8)
    } else {
        be_bytes(extended_exponent(v) as int, 2) + be_bytes(
            (extended_mantissa(v) / 0x1_0000_0000) as int,
            4,
        ) + be_bytes((extended_mantissa(v) % 0x1_0000_0000) as int, 4)
    }
}

/// The exponent field of an extended precision float, with its sign bit.
pub open spec fn exponent_field(b: Seq<u8>) -> int {
    be_value(b.subrange(0, 2))
}

/// The mantissa field of an extended precision float.
pub open spec fn mantissa_field(b: Seq<u8>) -> int {
    be_value(b.subrange(2, 6)) * 0x1_0000_0000 + be_value(b.subrange(6, 10))
}

/// A number lies between the powers of two that its length gives.
proof fn lemma_bit_length(v: nat)
    requires
        v > 0,
    ensures
        bit_length(v) >= 1,
        pow2((bit_length(v) - 1) as nat) <= v < pow2(bit_length(v)),
    decreases v,
{
    vstd::arithmetic::power2::lemma2_to64();
    if v >= 2 {
        lemma_bit_length(v / 2);
        let n = bit_length(v / 2);
        vstd::arithmetic::power2::lemma_pow2_unfold(n);
        vstd::arithmetic::power2::lemma_pow2_unfold(n + 1);
    } else {
        assert(bit_length(1) == 1 + bit_length(0)) by {
            reveal_with_fuel(bit_length, 3);
        }
    }
}

/// A number of 32 bits has at most 32 digits, and its mantissa takes up all of 64
/// bits.
proof fn lemma_mantissa_range(v: u32)
    requires
        v > 0,
    ensures
        1 <= bit_length(v as nat) <= 32,
        0x8000_0000_0000_0000 <= extended_mantissa(v) < 0x1_0000_0000_0000_0000,
        extended_mantissa(v) * pow2((bit_length(v as nat) - 1) as nat) == v * pow2(63),
{
    let n = bit_length(v as nat);
    vstd::arithmetic::power2::lemma2_to64();
    vstd::arithmetic::power2::lemma2_to64_rest();
    lemma_bit_length(v as nat);
    if n > 32 {
        if n - 1 > 32 {
            vstd::arithmetic::power2::lemma_pow2_strictly_increases(32, (n - 1) as nat);
        }
        assert(false);
    }
    let k = (64 - n) as nat;
    vstd::arithmetic::power2::lemma_pow2_adds(k, n);
    vstd::arithmetic::power2::lemma_pow2_adds(k, (n - 1) as nat);
    vstd::arithmetic::power2::lemma_pow2_pos(k);
    let p = pow2(k) as int;
    let q = pow2(n) as int;
    let h = pow2((n - 1) as nat) as int;
    assert(v * p < p * q) by (nonlinear_arith)
        requires
            v < q,
            p > 0,
    ;
    assert(p * h <= v * p) by (nonlinear_arith)
        requires
            h <= v,
            p > 0,
    ;
    assert((v * p) * h == v * (p * h)) by (nonlinear_arith);
}

/// The float stands for the number: its mantissa, scaled by its exponent, is the
/// number. It is normalized: the highest bit of the mantissa is set. Zero has a
/// mantissa of zero.
pub proof fn law_extended_value(v: u32)
    ensures
        extended_bytes(v).len() == 10,
        v == 0 ==> mantissa_field(extended_bytes(v)) == 0,
        v > 0 ==> {
            let e = exponent_field(extended_bytes(v));
            &&& 16383 <= e < 0x8000
            &&& mantissa_field(extended_bytes(v)) * pow2((e - 16383) as nat) == v * pow2(63)
            &&& mantissa_field(extended_bytes(v)) >= 0x8000_0000_0000_0000
        },
{
    let b = extended_bytes(v);
    if v == 0 {
        assert(b.subrange(2, 6) =~= be_bytes(0, 4));
        assert(b.subrange(6, 10) =~= be_bytes(0, 4));
        law_be_round_trip(0, 4);
    } else {
        lemma_mantissa_range(v);
        let m = extended_mantissa(v);
        assert(b.subrange(0, 2) =~= be_bytes(extended_exponent(v) as int, 2));
        assert(b.subrange(2, 6) =~= be_bytes((m / 0x1_0000_0000) as int, 4));
        assert(b.subrange(6, 10) =~= be_bytes((m % 0x1_0000_0000) as int, 4));
        law_be_round_trip(extended_exponent(v) as int, 2);
        law_be_round_trip((m / 0x1_0000_0000) as int, 4);
        law_be_round_trip((m % 0x1_0000_0000) as int, 4);
    }
}

/// Encodes `value` as an 80-bit IEEE 754 extended-precision float, as used by
/// the AIFF `COMM` chunk's sample rate field.
pub fn encode_extended(value: u32, buffer: &mut [u8; 10])
    ensures
        final(buffer)@ == extended_bytes(value),
{
    if value == 0 {
        *buffer = [0; 10];
        assert(buffer@ =~= extended_bytes(value));
        return;
    }
    proof {
        lemma_mantissa_range(value);
        vstd::arithmetic::power2::lemma2_to64();
    }
    let mut rest: u32 = value;
    let mut exponent: u32 = 16382;
    while rest > 0
        invariant
            exponent + bit_length(rest as nat) == extended_exponent(value),
            extended_exponent(value) <= 16414,
        decreases rest,
    {
        rest = rest / 2;
        exponent = exponent + 1;
    }
    let doublings: u32 = 16446 - exponent;
    let mut mantissa: u64 = value as u64;
    let mut k: u32 = 0;
    assert(mantissa == value * pow2(0)) by {
        assert(value * 1 == value);
    }
    while k < doublings
        invariant
            k <= doublings,
            doublings == 64 - bit_length(value as nat),
            mantissa == value * pow2(k as nat),
            extended_mantissa(value) < 0x1_0000_0000_0000_0000,
        decreases doublings - k,
    {
        proof {
            let p = pow2(k as nat) as int;
            vstd::arithmetic::power2::lemma_pow2_unfold((k + 1) as nat);
            assert(value * (2 * p) == 2 * (value * p)) by (nonlinear_arith);
            if k + 1 < doublings {
                vstd::arithmetic::power2::lemma_pow2_strictly_increases(
                    (k + 1) as nat,
                    doublings as nat,
                );
            }
            let d = pow2(doublings as nat) as int;
            assert(value * (2 * p) <= value * d) by (nonlinear_arith)
                requires
                    2 * p <= d,
                    value >= 0,
            ;
        }
        mantissa = mantissa * 2;
        k = k + 1;
    }
    let high: u32 = (mantissa / 0x1_0000_0000) as u32;
    let low: u32 = (mantissa % 0x1_0000_0000) as u32;
    *buffer = [
        word_byte(exponent, 1),
        word_byte(exponent, 0),
        word_byte(high, 3),
        word_byte(high, 2),
        word_byte(high, 1),
        word_byte(high, 0),
        word_byte(low, 3),
        word_byte(low, 2),
        word_byte(low, 1),
        word_byte(low, 0),
    ];
    assert(buffer@ =~= extended_bytes(value));
}

} // verus!
