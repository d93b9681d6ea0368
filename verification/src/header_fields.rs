//! What a reader finds in the header of a file: every field, at its place, read byte
//! by byte.
use vstd::prelude::*;
use vstd::arithmetic::power2::pow2;
use crate::bytes::{
    ascii, be_bytes, be_value, law_be_round_trip, law_le_round_trip, le_bytes, le_value, weight,
};
use crate::container::{
    aifc_filler_bytes, aifc_prefix, aifc_suffix, aifc_type, aifc_type_bytes, aifc_type_name,
    aiff_prefix, aiff_suffix, form_header, full_header, lemma_aifc_lengths, lemma_aiff_lengths,
    lemma_wav_lengths, open_header, wav_format, wav_header,
};
use crate::extended::{
    exponent_field, extended_bytes, law_extended_value,
};
use crate::samples::{encoded, known_bits, StreamKind};
use crate::stream_model::{
    law_stream_is_whole_file, lemma_pushed_len, pushed, streamed_file, unwritten, valid_steps, Step,
};

verus! {

/// The number in two bytes, the least significant first.
pub open spec fn le16(b: Seq<u8>, at: int) -> int {
    b[at] + 0x100 * b[at + 1]
}

/// The number in four bytes, the least significant first.
pub open spec fn le32(b: Seq<u8>, at: int) -> int {
    b[at] + 0x100 * b[at + 1] + 0x1_0000 * b[at + 2] + 0x100_0000 * b[at + 3]
}

/// The number in two bytes, the most significant first.
pub open spec fn be16(b: Seq<u8>, at: int) -> int {
    0x100 * b[at] + b[at + 1]
}

/// The number in four bytes, the most significant first.
pub open spec fn be32(b: Seq<u8>, at: int) -> int {
    0x100_0000 * b[at] + 0x1_0000 * b[at + 1] + 0x100 * b[at + 2] + b[at + 3]
}

/// Whether four bytes are those of four ASCII characters.
pub open spec fn spells(b: Seq<u8>, at: int, c0: char, c1: char, c2: char, c3: char) -> bool {
    b[at] == c0 as u8 && b[at + 1] == c1 as u8 && b[at + 2] == c2 as u8 && b[at + 3] == c3 as u8
}

/// The bytes that a sample takes up: two for 16 bits, three for 20 and 24 bits, four
/// for the floats of 32 bits.
pub open spec fn bytes_of_depth(bits: usize) -> int {
    if bits == 16 {
        2
    } else if bits == 32 {
        4
    } else {
        3
    }
}

/// The numbers that bytes in either order stand for: every byte counts 256 times as
/// much as the next less significant one.
pub proof fn law_byte_weights(b: Seq<u8>)
    ensures
        b.len() == 1 ==> le_value(b) == b[0] && be_value(b) == b[0],
        b.len() == 2 ==> le_value(b) == le16(b, 0) && be_value(b) == be16(b, 0),
        b.len() == 3 ==> le_value(b) == b[0] + 0x100 * b[1] + 0x1_0000 * b[2] && be_value(b)
            == 0x1_0000 * b[0] + 0x100 * b[1] + b[2],
        b.len() == 4 ==> le_value(b) == le32(b, 0) && be_value(b) == be32(b, 0),
{
    reveal_with_fuel(le_value, 5);
    let r = b.reverse();
    if b.len() == 1 {
        assert(b.drop_last().len() == 0);
        assert(r.drop_last().len() == 0);
    }
    assert(weight(0) == 1 && weight(1) == 0x100 && weight(2) == 0x1_0000 && weight(3)
        == 0x100_0000);
}

/// Reading bytes that were written in either order.
proof fn lemma_read_bytes(v: int)
    ensures
        le16(le_bytes(v, 2), 0) == v % 0x1_0000,
        be16(be_bytes(v, 2), 0) == v % 0x1_0000,
        le32(le_bytes(v, 4), 0) == v % 0x1_0000_0000,
        be32(be_bytes(v, 4), 0) == v % 0x1_0000_0000,
{
    law_le_round_trip(v, 2);
    law_be_round_trip(v, 2);
    law_le_round_trip(v, 4);
    law_be_round_trip(v, 4);
    law_byte_weights(le_bytes(v, 2));
    law_byte_weights(be_bytes(v, 2));
    law_byte_weights(le_bytes(v, 4));
    law_byte_weights(be_bytes(v, 4));
}

/// Reading two bytes, the least significant first.
proof fn lemma_read_le16(b: Seq<u8>, at: int, v: int)
    requires
        0 <= at,
        at + 2 <= b.len(),
        b.subrange(at, at + 2) == le_bytes(v, 2),
    ensures
        le16(b, at) == v % 0x1_0000,
{
    lemma_read_bytes(v);
    let p = b.subrange(at, at + 2);
    assert(p[0] == b[at] && p[1] == b[at + 1]);
}

/// Reading four bytes, the least significant first.
proof fn lemma_read_le32(b: Seq<u8>, at: int, v: int)
    requires
        0 <= at,
        at + 4 <= b.len(),
        b.subrange(at, at + 4) == le_bytes(v, 4),
    ensures
        le32(b, at) == v % 0x1_0000_0000,
{
    lemma_read_bytes(v);
    let p = b.subrange(at, at + 4);
    assert(p[0] == b[at] && p[1] == b[at + 1] && p[2] == b[at + 2] && p[3] == b[at + 3]);
}

/// Reading two bytes, the most significant first.
proof fn lemma_read_be16(b: Seq<u8>, at: int, v: int)
    requires
        0 <= at,
        at + 2 <= b.len(),
        b.subrange(at, at + 2) == be_bytes(v, 2),
    ensures
        be16(b, at) == v % 0x1_0000,
{
    lemma_read_bytes(v);
    let p = b.subrange(at, at + 2);
    assert(p[0] == b[at] && p[1] == b[at + 1]);
}

/// Reading four bytes, the most significant first.
proof fn lemma_read_be32(b: Seq<u8>, at: int, v: int)
    requires
        0 <= at,
        at + 4 <= b.len(),
        b.subrange(at, at + 4) == be_bytes(v, 4),
    ensures
        be32(b, at) == v % 0x1_0000_0000,
{
    lemma_read_bytes(v);
    let p = b.subrange(at, at + 4);
    assert(p[0] == b[at] && p[1] == b[at + 1] && p[2] == b[at + 2] && p[3] == b[at + 3]);
}

/// Whether a header says that it is that of a WAV file with a rate, a bit depth and
/// a number of channels: the format is 3 for floats and 1 for integers.
pub open spec fn wav_fields(b: Seq<u8>, rate: u32, bits: usize, channels: nat) -> bool {
    let frame = channels * bytes_of_depth(bits);
    &&& b.len() >= 44
    &&& spells(b, 0, 'R', 'I', 'F', 'F')
    &&& spells(b, 8, 'W', 'A', 'V', 'E')
    &&& spells(b, 12, 'f', 'm', 't', ' ')
    &&& le32(b, 16) == 16
    &&& le16(b, 20) == 3 <==> bits == 32
    &&& le16(b, 20) == 1 <==> bits != 32
    &&& le16(b, 22) == channels % 0x1_0000
    &&& le32(b, 24) == rate
    &&& le32(b, 28) == (rate * frame) % 0x1_0000_0000
    &&& le16(b, 32) == frame % 0x1_0000
    &&& le16(b, 34) == bits
    &&& spells(b, 36, 'd', 'a', 't', 'a')
}

/// Whether ten bytes are an extended precision float that stands for a rate: without
/// a sign, and with a mantissa that fills its 64 bits. Zero is all zeros.
pub open spec fn rate_field(b: Seq<u8>, at: int, rate: u32) -> bool {
    let exponent = be16(b, at);
    let mantissa = 0x1_0000_0000 * be32(b, at + 2) + be32(b, at + 6);
    &&& rate == 0 ==> exponent == 0 && mantissa == 0
    &&& rate > 0 ==> {
        &&& 0x3FFF <= exponent < 0x8000
        &&& mantissa >= 0x8000_0000_0000_0000
        &&& mantissa * pow2((exponent - 0x3FFF) as nat) == rate * pow2(63)
    }
}

/// Whether a header says that it is that of an AIFF file with a rate, a bit depth
/// and a number of channels.
pub open spec fn aiff_fields(b: Seq<u8>, rate: u32, bits: usize, channels: nat) -> bool {
    &&& b.len() >= 54
    &&& spells(b, 0, 'F', 'O', 'R', 'M')
    &&& spells(b, 8, 'A', 'I', 'F', 'F')
    &&& spells(b, 12, 'C', 'O', 'M', 'M')
    &&& be32(b, 16) == 18
    &&& be16(b, 20) == channels % 0x1_0000
    &&& be16(b, 26) == bits
    &&& rate_field(b, 28, rate)
    &&& spells(b, 38, 'S', 'S', 'N', 'D')
    &&& be32(b, 46) == 0
    &&& be32(b, 50) == 0
}

/// Whether a header says that it is that of an AIFC file with a rate, a bit depth
/// and a number of channels: the compression type is `fl32` for floats, `twos` for
/// 16-bit integers and `NONE` for other integers, and its name says so too. A
/// filler of zeros brings the samples to byte 4096.
pub open spec fn aifc_fields(b: Seq<u8>, rate: u32, bits: usize, channels: nat) -> bool {
    &&& b.len() >= 4096
    &&& spells(b, 0, 'F', 'O', 'R', 'M')
    &&& spells(b, 8, 'A', 'I', 'F', 'C')
    &&& spells(b, 12, 'F', 'V', 'E', 'R')
    &&& be32(b, 16) == 4
    &&& be32(b, 20) == 0xA280_5140
    &&& spells(b, 24, 'C', 'O', 'M', 'M')
    &&& be32(b, 28) == 68
    &&& be16(b, 32) == channels % 0x1_0000
    &&& be16(b, 38) == bits
    &&& rate_field(b, 40, rate)
    &&& bits == 32 ==> spells(b, 50, 'f', 'l', '3', '2')
    &&& bits == 16 ==> spells(b, 50, 't', 'w', 'o', 's')
    &&& bits == 20 || bits == 24 ==> spells(b, 50, 'N', 'O', 'N', 'E')
    &&& b[54] == 44
    &&& bits == 32 ==> b.subrange(55, 99) == ascii(
        "Linear PCM, 32 bit big-endian floating point"@,
    )
    &&& bits == 16 ==> b.subrange(55, 99) == ascii(
        "Linear PCM, 16 bit big-endian signed integer"@,
    )
    &&& bits == 20 || bits == 24 ==> b.subrange(55, 99) == ascii(
        "Linear PCM, 24 bit big-endian signed integer"@,
    )
    &&& b[99] == 0
    &&& spells(b, 100, 'F', 'L', 'L', 'R')
    &&& be32(b, 104) == 3972
    &&& forall|i: int| 108 <= i < 4080 ==> #[trigger] b[i] == 0
    &&& spells(b, 4080, 'S', 'S', 'N', 'D')
    &&& be32(b, 4088) == 0
    &&& be32(b, 4092) == 0
}

/// The numbers in the part of a WAV header between its sizes.
#[verifier::spinoff_prover]
proof fn lemma_wav_numbers(rate: u32, bits: usize, channels: nat)
    requires
        known_bits(bits),
    ensures
        ({
            let f = wav_format(rate, bits, channels);
            let frame = channels * bytes_of_depth(bits);
            &&& f.len() == 32
            &&& le32(f, 8) == 16
            &&& le16(f, 12) == if bits == 32 {
                3int
            } else {
                1
            }
            &&& le16(f, 14) == channels % 0x1_0000
            &&& le32(f, 16) == rate
            &&& le32(f, 20) == (rate * frame) % 0x1_0000_0000
            &&& le16(f, 24) == frame % 0x1_0000
            &&& le16(f, 26) == bits
        }),
{
    let f = wav_format(rate, bits, channels);
    let frame = channels * bytes_of_depth(bits);
    let tag: int = if bits == 32 {
        3
    } else {
        1
    };
    lemma_wav_lengths(rate, bits, channels, 0, 0);
    assert(ascii("WAVE"@).len() == 4 && ascii("fmt "@).len() == 4) by {
        reveal_strlit("WAVE");
        reveal_strlit("fmt ");
    }
    assert(f.subrange(8, 12) =~= le_bytes(16, 4));
    assert(f.subrange(12, 14) =~= le_bytes(tag, 2));
    assert(f.subrange(14, 16) =~= le_bytes(channels as int, 2));
    assert(f.subrange(16, 20) =~= le_bytes(rate as int, 4));
    assert(f.subrange(20, 24) =~= le_bytes(rate * frame, 4));
    assert(f.subrange(24, 26) =~= le_bytes(frame, 2));
    assert(f.subrange(26, 28) =~= le_bytes(bits as int, 2));
    lemma_read_le32(f, 8, 16);
    lemma_read_le16(f, 12, tag);
    lemma_read_le16(f, 14, channels as int);
    lemma_read_le32(f, 16, rate as int);
    lemma_read_le32(f, 20, rate * frame);
    lemma_read_le16(f, 24, frame);
    lemma_read_le16(f, 26, bits as int);
}

/// The words in the part of a WAV header between its sizes.
#[verifier::spinoff_prover]
proof fn lemma_wav_words(rate: u32, bits: usize, channels: nat)
    ensures
        ({
            let f = wav_format(rate, bits, channels);
            &&& spells(f, 0, 'W', 'A', 'V', 'E')
            &&& spells(f, 4, 'f', 'm', 't', ' ')
            &&& spells(f, 28, 'd', 'a', 't', 'a')
        }),
{
    reveal_strlit("WAVE");
    reveal_strlit("fmt ");
    reveal_strlit("data");
}

/// Numbers and words that stand eight bytes further on.
proof fn lemma_shifted(b: Seq<u8>, f: Seq<u8>)
    requires
        b.len() >= 40,
        b.subrange(8, 40) == f,
    ensures
        le32(b, 16) == le32(f, 8),
        le16(b, 20) == le16(f, 12),
        le16(b, 22) == le16(f, 14),
        le32(b, 24) == le32(f, 16),
        le32(b, 28) == le32(f, 20),
        le16(b, 32) == le16(f, 24),
        le16(b, 34) == le16(f, 26),
        spells(f, 0, 'W', 'A', 'V', 'E') ==> spells(b, 8, 'W', 'A', 'V', 'E'),
        spells(f, 4, 'f', 'm', 't', ' ') ==> spells(b, 12, 'f', 'm', 't', ' '),
        spells(f, 28, 'd', 'a', 't', 'a') ==> spells(b, 36, 'd', 'a', 't', 'a'),
{
    assert forall|i: int| 8 <= i < 40 implies #[trigger] b[i] == f[i - 8] by {
        assert(b.subrange(8, 40)[i - 8] == b[i]);
    }
}

/// What a WAV header begins with.
proof fn lemma_wav_start(rate: u32, bits: usize, channels: nat, riff: int, data: int)
    ensures
        ({
            let b = wav_header(rate, bits, channels, riff, data);
            &&& b.len() == 44
            &&& spells(b, 0, 'R', 'I', 'F', 'F')
            &&& b.subrange(8, 40) == wav_format(rate, bits, channels)
        }),
{
    let b = wav_header(rate, bits, channels, riff, data);
    lemma_wav_lengths(rate, bits, channels, riff, data);
    reveal_strlit("RIFF");
    assert(b.subrange(8, 40) =~= wav_format(rate, bits, channels));
}

/// The fields of a WAV header.
#[verifier::spinoff_prover]
proof fn lemma_wav_fields(rate: u32, bits: usize, channels: nat, b: Seq<u8>)
    requires
        known_bits(bits),
        b.len() == 44,
        spells(b, 0, 'R', 'I', 'F', 'F'),
        b.subrange(8, 40) == wav_format(rate, bits, channels),
    ensures
        wav_fields(b, rate, bits, channels),
{
    lemma_wav_numbers(rate, bits, channels);
    lemma_wav_words(rate, bits, channels);
    lemma_shifted(b, wav_format(rate, bits, channels));
}

/// The rate in a header of the AIFF family.
proof fn lemma_rate_field(b: Seq<u8>, at: int, rate: u32)
    requires
        0 <= at,
        at + 10 <= b.len(),
        b.subrange(at, at + 10) == extended_bytes(rate),
    ensures
        rate_field(b, at, rate),
{
    let x = extended_bytes(rate);
    law_extended_value(rate);
    law_byte_weights(x.subrange(0, 2));
    law_byte_weights(x.subrange(2, 6));
    law_byte_weights(x.subrange(6, 10));
    assert forall|i: int| 0 <= i < 10 implies #[trigger] x[i] == b[at + i] by {}
    assert(be16(b, at) == exponent_field(x)) by {
        assert(x.subrange(0, 2)[0] == x[0] && x.subrange(0, 2)[1] == x[1]);
    }
    assert(be32(b, at + 2) == be_value(x.subrange(2, 6))) by {
        assert(x.subrange(2, 6)[0] == x[2] && x.subrange(2, 6)[1] == x[3]);
        assert(x.subrange(2, 6)[2] == x[4] && x.subrange(2, 6)[3] == x[5]);
    }
    assert(be32(b, at + 6) == be_value(x.subrange(6, 10))) by {
        assert(x.subrange(6, 10)[0] == x[6] && x.subrange(6, 10)[1] == x[7]);
        assert(x.subrange(6, 10)[2] == x[8] && x.subrange(6, 10)[3] == x[9]);
    }
    if rate == 0 {
        assert(x[0] == 0 && x[1] == 0);
    }
}

/// The fields of an AIFF header.
#[verifier::spinoff_prover]
proof fn lemma_aiff_fields(
    rate: u32,
    bits: usize,
    channels: nat,
    form: int,
    frames: int,
    sound: int,
)
    requires
        known_bits(bits),
    ensures
        aiff_fields(
            form_header(aiff_prefix(channels), aiff_suffix(rate, bits), form, frames, sound),
            rate,
            bits,
            channels,
        ),
{
    let (p, x) = (aiff_prefix(channels), aiff_suffix(rate, bits));
    let b = form_header(p, x, form, frames, sound);
    lemma_aiff_lengths(rate, bits, channels);
    reveal_strlit("FORM");
    reveal_strlit("AIFF");
    reveal_strlit("COMM");
    reveal_strlit("SSND");
    law_extended_value(rate);
    assert(b.subrange(8, 22) =~= p);
    assert(b.subrange(26, 42) =~= x);
    assert forall|i: int| 8 <= i < 22 implies #[trigger] b[i] == p[i - 8] by {
        assert(b.subrange(8, 22)[i - 8] == b[i]);
    }
    assert forall|i: int| 26 <= i < 42 implies #[trigger] b[i] == x[i - 26] by {
        assert(b.subrange(26, 42)[i - 26] == b[i]);
    }
    assert(b.subrange(16, 20) =~= be_bytes(18, 4));
    assert(b.subrange(20, 22) =~= be_bytes(channels as int, 2));
    assert(b.subrange(26, 28) =~= be_bytes(bits as int, 2));
    assert(b.subrange(28, 38) =~= extended_bytes(rate));
    assert(b.subrange(46, 50) =~= be_bytes(0, 4));
    assert(b.subrange(50, 54) =~= be_bytes(0, 4));
    lemma_read_be32(b, 16, 18);
    lemma_read_be16(b, 20, channels as int);
    lemma_read_be16(b, 26, bits as int);
    lemma_rate_field(b, 28, rate);
    lemma_read_be32(b, 46, 0);
    lemma_read_be32(b, 50, 0);
}

/// The compression type in an AIFC header.
proof fn lemma_aifc_type_fields(bits: usize)
    requires
        known_bits(bits),
    ensures
        ({
            let t = aifc_type_bytes(bits);
            &&& t.len() == 50
            &&& bits == 32 ==> spells(t, 0, 'f', 'l', '3', '2')
            &&& bits == 16 ==> spells(t, 0, 't', 'w', 'o', 's')
            &&& bits == 20 || bits == 24 ==> spells(t, 0, 'N', 'O', 'N', 'E')
            &&& t[4] == 44
            &&& bits == 32 ==> t.subrange(5, 49) == ascii(
                "Linear PCM, 32 bit big-endian floating point"@,
            )
            &&& bits == 16 ==> t.subrange(5, 49) == ascii(
                "Linear PCM, 16 bit big-endian signed integer"@,
            )
            &&& bits == 20 || bits == 24 ==> t.subrange(5, 49) == ascii(
                "Linear PCM, 24 bit big-endian signed integer"@,
            )
            &&& t[49] == 0
        }),
{
    let t = aifc_type_bytes(bits);
    lemma_aifc_lengths(0, bits, 0);
    reveal_strlit("fl32");
    reveal_strlit("twos");
    reveal_strlit("NONE");
    let id = aifc_type(bits);
    assert forall|i: int| 0 <= i < 4 implies #[trigger] t[i] == id[i] as u8 by {}
    assert(t[4] == be_bytes(44, 1)[0]);
    assert(t.subrange(5, 49) =~= ascii(aifc_type_name(bits)));
}

/// The fields of an AIFC header before the number of frames.
#[verifier::spinoff_prover]
proof fn lemma_aifc_prefix_fields(bits: usize, channels: nat)
    ensures
        ({
            let p = aifc_prefix(bits, channels);
            &&& p.len() == 26
            &&& spells(p, 0, 'A', 'I', 'F', 'C')
            &&& spells(p, 4, 'F', 'V', 'E', 'R')
            &&& be32(p, 8) == 4
            &&& be32(p, 12) == 0xA280_5140
            &&& spells(p, 16, 'C', 'O', 'M', 'M')
            &&& be32(p, 20) == 68
            &&& be16(p, 24) == channels % 0x1_0000
        }),
{
    let p = aifc_prefix(bits, channels);
    lemma_aifc_lengths(0, bits, channels);
    reveal_strlit("AIFC");
    reveal_strlit("FVER");
    reveal_strlit("COMM");
    assert(p.subrange(8, 12) =~= be_bytes(4, 4));
    assert(p.subrange(12, 16) =~= be_bytes(0xA280_5140, 4));
    assert(p.subrange(20, 24) =~= be_bytes(68, 4));
    assert(p.subrange(24, 26) =~= be_bytes(channels as int, 2));
    lemma_read_be32(p, 8, 4);
    lemma_read_be32(p, 12, 0xA280_5140);
    lemma_read_be32(p, 20, 68);
    lemma_read_be16(p, 24, channels as int);
}

/// The fields of an AIFC header after the number of frames.
#[verifier::spinoff_prover]
proof fn lemma_aifc_suffix_fields(rate: u32, bits: usize)
    requires
        known_bits(bits),
    ensures
        ({
            let x = aifc_suffix(rate, bits);
            &&& x.len() == 4046
            &&& be16(x, 0) == bits
            &&& x.subrange(2, 12) == extended_bytes(rate)
            &&& x.subrange(12, 62) == aifc_type_bytes(bits)
            &&& spells(x, 62, 'F', 'L', 'L', 'R')
            &&& be32(x, 66) == 3972
            &&& forall|i: int| 70 <= i < 4042 ==> #[trigger] x[i] == 0
            &&& spells(x, 4042, 'S', 'S', 'N', 'D')
        }),
{
    let x = aifc_suffix(rate, bits);
    let f = aifc_filler_bytes(bits);
    lemma_aifc_lengths(rate, bits, 0);
    law_extended_value(rate);
    reveal_strlit("FLLR");
    reveal_strlit("SSND");
    assert(f.len() == 3980);
    assert(x.subrange(0, 2) =~= be_bytes(bits as int, 2));
    assert(x.subrange(2, 12) =~= extended_bytes(rate));
    assert(x.subrange(12, 62) =~= aifc_type_bytes(bits));
    assert(x.subrange(62, 4042) =~= f);
    assert forall|i: int| 62 <= i < 4042 implies #[trigger] x[i] == f[i - 62] by {
        assert(x.subrange(62, 4042)[i - 62] == x[i]);
    }
    assert(x.subrange(66, 70) =~= be_bytes(3972, 4)) by {
        assert(f.subrange(4, 8) =~= be_bytes(3972, 4));
        assert(x.subrange(66, 70) =~= f.subrange(4, 8));
    }
    lemma_read_be16(x, 0, bits as int);
    lemma_read_be32(x, 66, 3972);
}

/// The fields of an AIFC header.
#[verifier::spinoff_prover]
proof fn lemma_aifc_fields(
    rate: u32,
    bits: usize,
    channels: nat,
    form: int,
    frames: int,
    sound: int,
)
    requires
        known_bits(bits),
    ensures
        aifc_fields(
            form_header(aifc_prefix(bits, channels), aifc_suffix(rate, bits), form, frames, sound),
            rate,
            bits,
            channels,
        ),
{
    let (p, x) = (aifc_prefix(bits, channels), aifc_suffix(rate, bits));
    let b = form_header(p, x, form, frames, sound);
    let t = aifc_type_bytes(bits);
    lemma_aifc_lengths(rate, bits, channels);
    lemma_aifc_prefix_fields(bits, channels);
    lemma_aifc_suffix_fields(rate, bits);
    lemma_aifc_type_fields(bits);
    reveal_strlit("FORM");
    assert(b.subrange(8, 34) =~= p);
    assert(b.subrange(38, 4084) =~= x);
    assert forall|i: int| 8 <= i < 34 implies #[trigger] b[i] == p[i - 8] by {
        assert(b.subrange(8, 34)[i - 8] == b[i]);
    }
    assert forall|i: int| 38 <= i < 4084 implies #[trigger] b[i] == x[i - 38] by {
        assert(b.subrange(38, 4084)[i - 38] == b[i]);
    }
    assert forall|i: int| 50 <= i < 100 implies #[trigger] b[i] == t[i - 50] by {
        assert(x.subrange(12, 62)[i - 50] == x[i - 38]);
    }
    assert(b.subrange(40, 50) =~= x.subrange(2, 12));
    lemma_rate_field(b, 40, rate);
    assert(b.subrange(55, 99) =~= t.subrange(5, 49));
    assert forall|i: int| 108 <= i < 4080 implies #[trigger] b[i] == 0 by {
        assert(x[i - 38] == 0);
    }
    assert(b.subrange(4088, 4092) =~= be_bytes(0, 4));
    assert(b.subrange(4092, 4096) =~= be_bytes(0, 4));
    lemma_read_be32(b, 4088, 0);
    lemma_read_be32(b, 4092, 0);
}

/// Whether a header says what it is to say of the format, the rate, the bit depth and
/// the number of channels. The header of a FLAC file is the FLAC encoder's affair.
pub open spec fn header_says(
    kind: StreamKind,
    b: Seq<u8>,
    rate: u32,
    bits: usize,
    channels: nat,
) -> bool {
    match kind {
        StreamKind::Flac => true,
        StreamKind::Aiff => aiff_fields(b, rate, bits, channels),
        StreamKind::Aifc => aifc_fields(b, rate, bits, channels),
        StreamKind::Wav => wav_fields(b, rate, bits, channels),
    }
}

/// The header that a WAV file begins with, and the one that it ends up with, give its
/// rate, bit depth, channels and format at their places.
pub proof fn law_wav_header_fields(
    rate: u32,
    bits: usize,
    channels: nat,
    frames: nat,
    data: nat,
)
    requires
        known_bits(bits),
    ensures
        wav_fields(open_header(StreamKind::Wav, rate, bits, channels), rate, bits, channels),
        wav_fields(
            full_header(StreamKind::Wav, rate, bits, channels, frames, data),
            rate,
            bits,
            channels,
        ),
{
    let (d, r) = (data as int, 36 + data as int);
    lemma_wav_start(rate, bits, channels, 0, 0);
    lemma_wav_start(rate, bits, channels, r, d);
    lemma_wav_fields(rate, bits, channels, wav_header(rate, bits, channels, 0, 0));
    lemma_wav_fields(rate, bits, channels, wav_header(rate, bits, channels, r, d));
}

/// The same of AIFF files.
pub proof fn law_aiff_header_fields(
    rate: u32,
    bits: usize,
    channels: nat,
    frames: nat,
    data: nat,
)
    requires
        known_bits(bits),
    ensures
        aiff_fields(open_header(StreamKind::Aiff, rate, bits, channels), rate, bits, channels),
        aiff_fields(
            full_header(StreamKind::Aiff, rate, bits, channels, frames, data),
            rate,
            bits,
            channels,
        ),
{
    lemma_aiff_fields(rate, bits, channels, 0, 0, 0);
    lemma_aiff_fields(rate, bits, channels, data as int + 46, frames as int, data as int);
}

/// The same of AIFC files.
pub proof fn law_aifc_header_fields(
    rate: u32,
    bits: usize,
    channels: nat,
    frames: nat,
    data: nat,
)
    requires
        known_bits(bits),
    ensures
        aifc_fields(open_header(StreamKind::Aifc, rate, bits, channels), rate, bits, channels),
        aifc_fields(
            full_header(StreamKind::Aifc, rate, bits, channels, frames, data),
            rate,
            bits,
            channels,
        ),
{
    lemma_aifc_lengths(rate, bits, channels);
    lemma_aifc_fields(rate, bits, channels, 0, 0, 0);
    lemma_aifc_fields(
        rate,
        bits,
        channels,
        4088 + data as int,
        frames as int,
        data as int + 8,
    );
}

/// What follows a header does not change what it says.
proof fn lemma_header_before(
    kind: StreamKind,
    header: Seq<u8>,
    rest: Seq<u8>,
    rate: u32,
    bits: usize,
    channels: nat,
)
    requires
        header_says(kind, header, rate, bits, channels),
    ensures
        header_says(kind, header + rest, rate, bits, channels),
{
    let file = header + rest;
    assert forall|i: int| 0 <= i < header.len() implies #[trigger] file[i] == header[i] by {}
    if kind == StreamKind::Aifc {
        assert(file.subrange(55, 99) =~= header.subrange(55, 99));
    }
}

/// A finished file says, at their places, the format, the rate, the bit depth and the
/// number of channels that it was opened with, whatever was written to it.
pub proof fn law_finished_file_says(
    kind: StreamKind,
    rate: u32,
    bits: usize,
    channels: nat,
    steps: Seq<Step>,
)
    requires
        known_bits(bits),
        valid_steps(channels, steps),
    ensures
        streamed_file(kind, rate, bits, channels, steps) matches Ok(file) ==> header_says(
            kind,
            file,
            rate,
            bits,
            channels,
        ),
{
    law_stream_is_whole_file(kind, rate, bits, channels, steps);
    let chans = pushed(channels, steps);
    lemma_pushed_len(channels, steps);
    let m = unwritten(kind, bits, chans);
    let (frames, data) = (m.total(), m.data_size(m.total()));
    match kind {
        StreamKind::Flac => {},
        StreamKind::Aiff => law_aiff_header_fields(rate, bits, channels, frames, data),
        StreamKind::Aifc => law_aifc_header_fields(rate, bits, channels, frames, data),
        StreamKind::Wav => law_wav_header_fields(rate, bits, channels, frames, data),
    }
    lemma_header_before(
        kind,
        full_header(kind, rate, bits, channels, frames, data),
        encoded(kind, bits, chans, frames),
        rate,
        bits,
        channels,
    );
}

} // verus!
