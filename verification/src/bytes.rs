//! Byte order: how integers and text become the bytes of a file.
//!
//! Every multi-byte number in this library is written from the same view of an
//! integer: its two's complement representation, of which `byte_at` gives the
//! bytes one by one. Little and big endian differ only in the order in which
//! those bytes are laid down.
use vstd::prelude::*;
use vstd::arithmetic::div_mod::{lemma_hoist_over_denominator, lemma_mod_multiples_vanish};
use vstd::string::StringSliceAdditionalSpecFns;

verus! {

/// 256 to the power `k`, for the byte positions of a 32-bit word.
pub open spec fn weight(k: int) -> int {
    if k == 0 {
        1
    } else if k == 1 {
        0x100
    } else if k == 2 {
        0x1_0000
    } else if k == 3 {
        0x100_0000
    } else {
        0x1_0000_0000
    }
}

/// Byte `k` of the two's complement representation of `v`; byte 0 is the least
/// significant one.
pub open spec fn byte_at(v: int, k: int) -> u8 {
    ((v / weight(k)) % 0x100) as u8
}

/// The low `n` bytes of `v`, least significant first.
pub open spec fn le_bytes(v: int, n: nat) -> Seq<u8> {
    Seq::new(n, |k: int| byte_at(v, k))
}

/// The low `n` bytes of `v`, most significant first.
pub open spec fn be_bytes(v: int, n: nat) -> Seq<u8> {
    Seq::new(n, |k: int| byte_at(v, n - 1 - k))
}

/// The number that little-endian bytes stand for.
pub open spec fn le_value(s: Seq<u8>) -> int
    decreases s.len(),
{
    if s.len() == 0 {
        0
    } else {
        le_value(s.drop_last()) + s.last() * weight(s.len() - 1)
    }
}

/// The number that big-endian bytes stand for.
pub open spec fn be_value(s: Seq<u8>) -> int {
    le_value(s.reverse())
}

/// The bytes of an ASCII text.
pub open spec fn ascii(s: Seq<char>) -> Seq<u8> {
    Seq::new(s.len(), |i: int| s[i] as u8)
}

/// Reading back what was written little-endian gives the number, reduced to the
/// width of the field.
pub proof fn law_le_round_trip(v: int, n: nat)
    requires
        n <= 4,
    ensures
        le_value(le_bytes(v, n)) == v % weight(n as int),
    decreases n,
{
    if n > 0 {
        let m = (n - 1) as nat;
        law_le_round_trip(v, m);
        assert(le_bytes(v, n).drop_last() =~= le_bytes(v, m));
        assert(le_bytes(v, n).last() == byte_at(v, m as int));
        assert(m == 0 || m == 1 || m == 2 || m == 3);
    }
}

/// Reading back what was written big-endian gives the number, reduced to the
/// width of the field.
pub proof fn law_be_round_trip(v: int, n: nat)
    requires
        n <= 4,
    ensures
        be_value(be_bytes(v, n)) == v % weight(n as int),
{
    assert(be_bytes(v, n).reverse() =~= le_bytes(v, n));
    law_le_round_trip(v, n);
}

/// Adding a multiple of 2^32 does not change the low four bytes.
proof fn lemma_byte_shift(v: int, q: int, k: int)
    requires
        0 <= k < 4,
    ensures
        byte_at(v + q * 0x1_0000_0000, k) == byte_at(v, k),
{
    let d = weight(k) as nat;
    let m: int = if k == 0 {
        0x100_0000
    } else if k == 1 {
        0x1_0000
    } else if k == 2 {
        0x100
    } else {
        1
    };
    lemma_hoist_over_denominator(v, q * m * 0x100, d);
    assert((q * m * 0x100) * d == q * 0x1_0000_0000) by (nonlinear_arith)
        requires
            m * d == 0x100_0000,
    ;
    lemma_mod_multiples_vanish(q * m, v / d as int, 0x100);
}

/// Numbers that agree modulo 2^32 have the same low four bytes.
pub proof fn lemma_bytes_congruent(v: int, w: int, n: nat)
    requires
        n <= 4,
        (w - v) % 0x1_0000_0000 == 0,
    ensures
        le_bytes(w, n) == le_bytes(v, n),
        be_bytes(w, n) == be_bytes(v, n),
{
    let q = (w - v) / 0x1_0000_0000;
    assert forall|k: int| 0 <= k < 4 implies byte_at(w, k) == byte_at(v, k) by {
        lemma_byte_shift(v, q, k);
    }
    assert(le_bytes(w, n) =~= le_bytes(v, n));
    assert(be_bytes(w, n) =~= be_bytes(v, n));
}

/// Byte `k` of a word.
pub fn word_byte(v: u32, k: usize) -> (b: u8)
    requires
        k < 4,
    ensures
        b == byte_at(v as int, k as int),
{
    if k == 0 {
        (v % 0x100) as u8
    } else if k == 1 {
        ((v / 0x100) % 0x100) as u8
    } else if k == 2 {
        ((v / 0x1_0000) % 0x100) as u8
    } else {
        (v / 0x100_0000) as u8
    }
}

/// The 32-bit word with the two's complement representation of `v`.
pub fn word_of(v: i32) -> (w: u32)
    ensures
        w == v || w == v + 0x1_0000_0000,
        w == v as u32,
        forall|n: nat| n <= 4 ==> #[trigger] le_bytes(w as int, n) == le_bytes(v as int, n),
        forall|n: nat| n <= 4 ==> #[trigger] be_bytes(w as int, n) == be_bytes(v as int, n),
{
    let w: u32 = v as u32;
    proof {
        assert(v < 0 ==> (v as u32) == v + 0x1_0000_0000) by (bit_vector);
        assert(v >= 0 ==> (v as u32) == v) by (bit_vector);
        assert forall|n: nat| n <= 4 implies #[trigger] le_bytes(w as int, n) == le_bytes(
            v as int,
            n,
        ) by {
            lemma_bytes_congruent(v as int, w as int, n);
        }
        assert forall|n: nat| n <= 4 implies #[trigger] be_bytes(w as int, n) == be_bytes(
            v as int,
            n,
        ) by {
            lemma_bytes_congruent(v as int, w as int, n);
        }
    }
    w
}

/// The low 32 bits of `v`.
pub fn low_word(v: u64) -> (w: u32)
    ensures
        w == v as int % 0x1_0000_0000,
        forall|n: nat| n <= 4 ==> #[trigger] le_bytes(w as int, n) == le_bytes(v as int, n),
        forall|n: nat| n <= 4 ==> #[trigger] be_bytes(w as int, n) == be_bytes(v as int, n),
{
    let w: u32 = (v % 0x1_0000_0000) as u32;
    proof {
        assert forall|n: nat| n <= 4 implies #[trigger] le_bytes(w as int, n) == le_bytes(
            v as int,
            n,
        ) by {
            lemma_bytes_congruent(v as int, w as int, n);
        }
        assert forall|n: nat| n <= 4 implies #[trigger] be_bytes(w as int, n) == be_bytes(
            v as int,
            n,
        ) by {
            lemma_bytes_congruent(v as int, w as int, n);
        }
    }
    w
}

/// Appends the low `n` bytes of `v`, least significant first.
pub fn push_le(buf: &mut Vec<u8>, v: u32, n: usize)
    requires
        n <= 4,
    ensures
        final(buf)@ == old(buf)@ + le_bytes(v as int, n as nat),
{
    let ghost start = buf@;
    let mut k: usize = 0;
    while k < n
        invariant
            k <= n <= 4,
            buf@ == start + le_bytes(v as int, k as nat),
        decreases n - k,
    {
        buf.push(word_byte(v, k));
        k = k + 1;
        assert(buf@ =~= start + le_bytes(v as int, k as nat));
    }
}

/// Appends the low `n` bytes of `v`, most significant first.
pub fn push_be(buf: &mut Vec<u8>, v: u32, n: usize)
    requires
        n <= 4,
    ensures
        final(buf)@ == old(buf)@ + be_bytes(v as int, n as nat),
{
    let ghost start = buf@;
    let mut k: usize = 0;
    while k < n
        invariant
            k <= n <= 4,
            buf@ == start + be_bytes(v as int, n as nat).take(k as int),
        decreases n - k,
    {
        buf.push(word_byte(v, n - 1 - k));
        k = k + 1;
        assert(buf@ =~= start + be_bytes(v as int, n as nat).take(k as int));
    }
    assert(be_bytes(v as int, n as nat).take(n as int) =~= be_bytes(v as int, n as nat));
}

/// Appends an ASCII text, one byte a character.
pub fn push_ascii(buf: &mut Vec<u8>, s: &str)
    requires
        vstd::utf8::is_ascii_chars(s@),
    ensures
        final(buf)@ == old(buf)@ + ascii(s@),
{
    broadcast use vstd::string::is_ascii_spec_bytes;

    assert(s.is_ascii());
    assert(s.spec_bytes() =~= ascii(s@));
    buf.extend_from_slice(s.as_bytes());
    assert(buf@ =~= old(buf)@ + ascii(s@));
}

/// Appends `n` zero bytes.
pub fn push_zeros(buf: &mut Vec<u8>, n: usize)
    ensures
        final(buf)@ == old(buf)@ + Seq::new(n as nat, |i: int| 0u8),
{
    let ghost start = buf@;
    let mut k: usize = 0;
    while k < n
        invariant
            k <= n,
            buf@ == start + Seq::new(k as nat, |i: int| 0u8),
        decreases n - k,
    {
        buf.push(0);
        k = k + 1;
        assert(buf@ =~= start + Seq::new(k as nat, |i: int| 0u8));
    }
}

} // verus!
