//! The layout of the files that samples are streamed to.
//!
//! A streamed file begins with a header that holds sizes which are known only
//! at the end. The header is first written with zeros in their place; once the
//! last frame is written, the real sizes are patched in. This module says what
//! the headers are, with the sizes as parameters, and which bytes to patch.
use vstd::prelude::*;
use crate::bytes::{
    ascii, be_bytes, le_bytes, lemma_bytes_congruent, low_word, push_ascii, push_be, push_le, push_zeros,
};
use crate::extended::{encode_extended, extended_bytes, law_extended_value};
use crate::samples::{sample_width, StreamKind};

verus! {

/// What can go wrong with a stream, but for the input and output itself.
#[derive(Copy, Clone, PartialEq, Eq, Debug, Structural)]
pub enum StreamError {
    /// A bit depth that FLAC files cannot have
    FlacBits,
    /// A bit depth that AIFF files cannot have
    AiffBits,
    /// A bit depth that AIFC files cannot have
    AifcBits,
    /// A bit depth that WAV files cannot have
    WavBits,
    /// The samples take up more bytes than a chunk can hold
    AiffChunkSize,
    /// The file is longer than its own size field can say
    AiffFormSize,
    /// The samples take up more bytes than a chunk can hold
    AifcChunkSize,
    /// The file is longer than its own size field can say
    AifcFormSize,
    /// The file is longer than its own size field can say
    WavTooLarge,
}

/// The text that tells a user about an error.
pub open spec fn error_text(e: StreamError) -> Seq<char> {
    match e {
        StreamError::FlacBits => "FLAC: only 16, 20, or 24-bit supported"@,
        StreamError::AiffBits => "AIFF: only 16, 20, or 24-bit supported"@,
        StreamError::AifcBits => "AIFC: only 16, 20, 24, or 32-bit supported"@,
        StreamError::WavBits => "WAV: only 16, 20, 24, or 32-bit supported"@,
        StreamError::AiffChunkSize => "AIFF stream too large for 32-bit AIFF chunk sizes"@,
        StreamError::AiffFormSize => "AIFF stream too large for 32-bit AIFF FORM size"@,
        StreamError::AifcChunkSize => "AIFC stream too large for 32-bit AIFF/AIFC chunk sizes"@,
        StreamError::AifcFormSize => "AIFC stream too large for 32-bit AIFF/AIFC FORM size"@,
        StreamError::WavTooLarge => "File too large for standard WAV (4GB limit)"@,
    }
}

impl StreamError {
    /// The text that tells a user about this error.
    pub fn message(&self) -> (r: String)
        ensures
            r@ == error_text(*self),
    {
        let s: &str = match self {
            StreamError::FlacBits => "FLAC: only 16, 20, or 24-bit supported",
            StreamError::AiffBits => "AIFF: only 16, 20, or 24-bit supported",
            StreamError::AifcBits => "AIFC: only 16, 20, 24, or 32-bit supported",
            StreamError::WavBits => "WAV: only 16, 20, 24, or 32-bit supported",
            StreamError::AiffChunkSize => "AIFF stream too large for 32-bit AIFF chunk sizes",
            StreamError::AiffFormSize => "AIFF stream too large for 32-bit AIFF FORM size",
            StreamError::AifcChunkSize => "AIFC stream too large for 32-bit AIFF/AIFC chunk sizes",
            StreamError::AifcFormSize => "AIFC stream too large for 32-bit AIFF/AIFC FORM size",
            StreamError::WavTooLarge => "File too large for standard WAV (4GB limit)",
        };
        s.to_owned()
    }
}

/// Bytes to put in the place of those that are at `offset` of a file.
pub struct Patch {
    pub offset: u64,
    pub bytes: Vec<u8>,
}

impl View for Patch {
    type V = (nat, Seq<u8>);

    open spec fn view(&self) -> (nat, Seq<u8>) {
        (self.offset as nat, self.bytes@)
    }
}

/// What a list of patches says.
pub open spec fn patch_views(v: Seq<Patch>) -> Seq<(nat, Seq<u8>)> {
    Seq::new(v.len(), |i: int| v[i]@)
}

/// `file`, with `b` in the place of the bytes at `offset`.
pub open spec fn overwrite(file: Seq<u8>, offset: nat, b: Seq<u8>) -> Seq<u8> {
    file.subrange(0, offset as int) + b + file.subrange(
        offset as int + b.len(),
        file.len() as int,
    )
}

/// `file`, after the patches were made one by one.
pub open spec fn patched(file: Seq<u8>, patches: Seq<(nat, Seq<u8>)>) -> Seq<u8>
    decreases patches.len(),
{
    if patches.len() == 0 {
        file
    } else {
        overwrite(patched(file, patches.drop_last()), patches.last().0, patches.last().1)
    }
}

/// The part of a WAV header between its two sizes.
pub open spec fn wav_format(rate: u32, bits: usize, channels: nat) -> Seq<u8> {
    let align = channels * sample_width(bits);
    ascii("WAVE"@) + ascii("fmt "@) + le_bytes(16, 4) + le_bytes(
        if bits == 32 {
            3
        } else {
            1
        },
        2,
    ) + le_bytes(channels as int, 2) + le_bytes(rate as int, 4) + le_bytes(
        (rate * align) as int,
        4,
    ) + le_bytes(align as int, 2) + le_bytes(bits as int, 2) + ascii("data"@)
}

/// A WAV header: `riff` is the size of all that follows it, `data` the size of
/// the samples.
pub open spec fn wav_header(rate: u32, bits: usize, channels: nat, riff: int, data: int) -> Seq<
    u8,
> {
    ascii("RIFF"@) + le_bytes(riff, 4) + wav_format(rate, bits, channels) + le_bytes(data, 4)
}

/// The part of an AIFF header between its size and its number of frames.
pub open spec fn aiff_prefix(channels: nat) -> Seq<u8> {
    ascii("AIFF"@) + ascii("COMM"@) + be_bytes(18, 4) + be_bytes(channels as int, 2)
}

/// The part of an AIFF header between its number of frames and the size of its
/// sound chunk.
pub open spec fn aiff_suffix(rate: u32, bits: usize) -> Seq<u8> {
    be_bytes(bits as int, 2) + extended_bytes(rate) + ascii("SSND"@)
}

/// A header of the AIFF family: `form` is the size of all that follows it,
/// `frames` the number of frames, `sound` the size of the sound chunk.
pub open spec fn form_header(
    prefix: Seq<u8>,
    suffix: Seq<u8>,
    form: int,
    frames: int,
    sound: int,
) -> Seq<u8> {
    ascii("FORM"@) + be_bytes(form, 4) + prefix + be_bytes(frames, 4) + suffix + be_bytes(
        sound,
        4,
    ) + (be_bytes(0, 4) + be_bytes(0, 4))
}

/// The compression type of an AIFC file.
pub open spec fn aifc_type(bits: usize) -> Seq<char> {
    if bits == 32 {
        "fl32"@
    } else if bits == 16 {
        "twos"@
    } else {
        "NONE"@
    }
}

/// The name of the compression type of an AIFC file.
pub open spec fn aifc_type_name(bits: usize) -> Seq<char> {
    if bits == 32 {
        "Linear PCM, 32 bit big-endian floating point"@
    } else if bits == 16 {
        "Linear PCM, 16 bit big-endian signed integer"@
    } else {
        "Linear PCM, 24 bit big-endian signed integer"@
    }
}

/// The size of what the COMM chunk of an AIFC file holds: channels, frames, bit
/// depth, rate, compression type, and its name with a length byte before it.
pub open spec fn aifc_comm_size(bits: usize) -> nat {
    22 + 1 + aifc_type_name(bits).len()
}

/// That size, made even.
pub open spec fn aifc_comm_padded(bits: usize) -> nat {
    aifc_comm_size(bits) + aifc_comm_size(bits) % 2
}

/// The size of the filler that brings the samples of an AIFC file to a multiple
/// of 4096. What stands before it takes 32 bytes and the COMM chunk, what stands
/// between it and the samples 24 bytes.
pub open spec fn aifc_filler(bits: usize) -> nat {
    let r = (32 + aifc_comm_padded(bits) + 24) % 4096;
    if r == 0 {
        0
    } else {
        (4096 - r) as nat
    }
}

/// The bytes that the filler takes up with its own header.
pub open spec fn aifc_filler_chunk(bits: usize) -> nat {
    if aifc_filler(bits) > 0 {
        8 + aifc_filler(bits)
    } else {
        0
    }
}

/// Where the number of frames stands in an AIFC file.
pub open spec fn aifc_frames_offset() -> nat {
    12 + 12 + 8 + 2
}

/// Where the size of the sound chunk stands in an AIFC file.
pub open spec fn aifc_sound_offset(bits: usize) -> nat {
    12 + 12 + 8 + aifc_comm_padded(bits) + aifc_filler_chunk(bits) + 4
}

/// The part of an AIFC header between its size and its number of frames.
pub open spec fn aifc_prefix(bits: usize, channels: nat) -> Seq<u8> {
    ascii("AIFC"@) + ascii("FVER"@) + be_bytes(4, 4) + be_bytes(0xA280_5140, 4) + ascii("COMM"@)
        + be_bytes(aifc_comm_padded(bits) as int, 4) + be_bytes(channels as int, 2)
}

/// The filler chunk of an AIFC file.
pub open spec fn aifc_filler_bytes(bits: usize) -> Seq<u8> {
    if aifc_filler(bits) > 0 {
        ascii("FLLR"@) + be_bytes(aifc_filler(bits) as int, 4) + Seq::new(
            aifc_filler(bits),
            |i: int| 0u8,
        )
    } else {
        Seq::empty()
    }
}

/// The compression type of an AIFC file with its name, padded to an even size.
pub open spec fn aifc_type_bytes(bits: usize) -> Seq<u8> {
    ascii(aifc_type(bits)) + be_bytes(aifc_type_name(bits).len() as int, 1) + ascii(
        aifc_type_name(bits),
    ) + Seq::new(aifc_comm_size(bits) % 2, |i: int| 0u8)
}

/// The part of an AIFC header between its number of frames and the size of its
/// sound chunk.
pub open spec fn aifc_suffix(rate: u32, bits: usize) -> Seq<u8> {
    be_bytes(bits as int, 2) + extended_bytes(rate) + aifc_type_bytes(bits) + aifc_filler_bytes(
        bits,
    ) + ascii("SSND"@)
}

/// The header of a file with `frames` frames, of which the samples take up
/// `data` bytes. What a FLAC file begins with is the FLAC encoder's affair.
pub open spec fn full_header(
    kind: StreamKind,
    rate: u32,
    bits: usize,
    channels: nat,
    frames: nat,
    data: nat,
) -> Seq<u8> {
    match kind {
        StreamKind::Flac => Seq::empty(),
        StreamKind::Aiff => form_header(
            aiff_prefix(channels),
            aiff_suffix(rate, bits),
            data as int + 46,
            frames as int,
            data as int,
        ),
        StreamKind::Aifc => form_header(
            aifc_prefix(bits, channels),
            aifc_suffix(rate, bits),
            aifc_sound_offset(bits) + 4 + data as int,
            frames as int,
            data as int + 8,
        ),
        StreamKind::Wav => wav_header(rate, bits, channels, 36 + data as int, data as int),
    }
}

/// The header that a file begins with while its sizes are not known.
pub open spec fn open_header(kind: StreamKind, rate: u32, bits: usize, channels: nat) -> Seq<u8> {
    match kind {
        StreamKind::Flac => Seq::empty(),
        StreamKind::Aiff => form_header(aiff_prefix(channels), aiff_suffix(rate, bits), 0, 0, 0),
        StreamKind::Aifc => form_header(
            aifc_prefix(bits, channels),
            aifc_suffix(rate, bits),
            0,
            0,
            0,
        ),
        StreamKind::Wav => wav_header(rate, bits, channels, 0, 0),
    }
}

/// The patches that turn the one header into the other.
pub open spec fn size_patches(kind: StreamKind, bits: usize, frames: nat, data: nat) -> Seq<
    (nat, Seq<u8>),
> {
    match kind {
        StreamKind::Flac => Seq::empty(),
        StreamKind::Aiff => seq![
            (4nat, be_bytes(data as int + 46, 4)),
            (22nat, be_bytes(frames as int, 4)),
            (42nat, be_bytes(data as int, 4)),
        ],
        StreamKind::Aifc => seq![
            (4nat, be_bytes(aifc_sound_offset(bits) + 4 + data as int, 4)),
            (aifc_frames_offset(), be_bytes(frames as int, 4)),
            (aifc_sound_offset(bits), be_bytes(data as int + 8, 4)),
        ],
        StreamKind::Wav => seq![
            (4nat, le_bytes(36 + data as int, 4)),
            (40nat, le_bytes(data as int, 4)),
        ],
    }
}

/// Replacing what stands between two parts of a file.
proof fn lemma_overwrite(a: Seq<u8>, x: Seq<u8>, b: Seq<u8>, y: Seq<u8>)
    requires
        x.len() == y.len(),
    ensures
        overwrite(a + x + b, a.len(), y) == a + y + b,
{
    assert(overwrite(a + x + b, a.len(), y) =~= a + y + b);
}

/// The lengths of the parts of a WAV header.
pub proof fn lemma_wav_lengths(rate: u32, bits: usize, channels: nat, riff: int, data: int)
    ensures
        ascii("RIFF"@).len() == 4,
        wav_format(rate, bits, channels).len() == 32,
        wav_header(rate, bits, channels, riff, data).len() == 44,
{
    reveal_strlit("RIFF");
    reveal_strlit("WAVE");
    reveal_strlit("fmt ");
    reveal_strlit("data");
}

/// The lengths of the parts of an AIFF header.
pub proof fn lemma_aiff_lengths(rate: u32, bits: usize, channels: nat)
    ensures
        ascii("FORM"@).len() == 4,
        aiff_prefix(channels).len() == 14,
        aiff_suffix(rate, bits).len() == 16,
{
    reveal_strlit("FORM");
    reveal_strlit("AIFF");
    reveal_strlit("COMM");
    reveal_strlit("SSND");
    law_extended_value(rate);
}

/// The sizes of the parts of an AIFC header.
pub proof fn lemma_aifc_lengths(rate: u32, bits: usize, channels: nat)
    ensures
        ascii("FORM"@).len() == 4,
        aifc_type(bits).len() == 4,
        aifc_type_name(bits).len() == 44,
        aifc_comm_padded(bits) == 68,
        aifc_filler(bits) == 3972,
        aifc_sound_offset(bits) == 4084,
        aifc_prefix(bits, channels).len() == 26,
        aifc_type_bytes(bits).len() == 50,
        aifc_suffix(rate, bits).len() == 4046,
{
    reveal_strlit("FORM");
    reveal_strlit("AIFC");
    reveal_strlit("FVER");
    reveal_strlit("COMM");
    reveal_strlit("FLLR");
    reveal_strlit("SSND");
    reveal_strlit("fl32");
    reveal_strlit("twos");
    reveal_strlit("NONE");
    reveal_strlit("Linear PCM, 32 bit big-endian floating point");
    reveal_strlit("Linear PCM, 16 bit big-endian signed integer");
    reveal_strlit("Linear PCM, 24 bit big-endian signed integer");
    law_extended_value(rate);
}

/// The samples of an AIFC file begin on a boundary of 4096 bytes.
pub proof fn law_aifc_samples_aligned(rate: u32, bits: usize, channels: nat)
    ensures
        open_header(StreamKind::Aifc, rate, bits, channels).len() == 4096,
{
    lemma_aifc_lengths(rate, bits, channels);
}

/// The patches fill in the sizes of a header of the AIFF family.
proof fn lemma_form_patched(
    prefix: Seq<u8>,
    suffix: Seq<u8>,
    samples: Seq<u8>,
    form: int,
    frames: int,
    sound: int,
)
    ensures
        patched(
            form_header(prefix, suffix, 0, 0, 0) + samples,
            seq![
                (4nat, be_bytes(form, 4)),
                (8 + prefix.len(), be_bytes(frames, 4)),
                (12 + prefix.len() + suffix.len(), be_bytes(sound, 4)),
            ],
        ) == form_header(prefix, suffix, form, frames, sound) + samples,
{
    reveal_strlit("FORM");
    reveal_with_fuel(patched, 4);
    let id = ascii("FORM"@);
    let tail = be_bytes(0, 4) + be_bytes(0, 4);
    let zero = be_bytes(0, 4);
    let f = be_bytes(form, 4);
    let n = be_bytes(frames, 4);
    let s = be_bytes(sound, 4);
    let ps = seq![
        (4nat, f),
        (8 + prefix.len(), n),
        (12 + prefix.len() + suffix.len(), s),
    ];
    let file = form_header(prefix, suffix, 0, 0, 0) + samples;
    let file1 = form_header(prefix, suffix, form, 0, 0) + samples;
    let file2 = form_header(prefix, suffix, form, frames, 0) + samples;
    let file3 = form_header(prefix, suffix, form, frames, sound) + samples;

    let rest1 = prefix + zero + suffix + zero + tail + samples;
    assert(file =~= id + zero + rest1);
    assert(file1 =~= id + f + rest1);
    lemma_overwrite(id, zero, rest1, f);

    let head2 = id + f + prefix;
    let rest2 = suffix + zero + tail + samples;
    assert(file1 =~= head2 + zero + rest2);
    assert(file2 =~= head2 + n + rest2);
    lemma_overwrite(head2, zero, rest2, n);

    let head3 = id + f + prefix + n + suffix;
    let rest3 = tail + samples;
    assert(file2 =~= head3 + zero + rest3);
    assert(file3 =~= head3 + s + rest3);
    lemma_overwrite(head3, zero, rest3, s);

    let p2 = ps.drop_last();
    let p1 = p2.drop_last();
    let p0 = p1.drop_last();
    assert(p0.len() == 0);
    assert(patched(file, p0) == file);
    assert(patched(file, p1) == file1);
    assert(patched(file, p2) == file2);
}

/// The patches fill in the sizes of a WAV header.
proof fn lemma_wav_patched(
    rate: u32,
    bits: usize,
    channels: nat,
    samples: Seq<u8>,
    riff: int,
    data: int,
)
    ensures
        patched(
            wav_header(rate, bits, channels, 0, 0) + samples,
            seq![(4nat, le_bytes(riff, 4)), (40nat, le_bytes(data, 4))],
        ) == wav_header(rate, bits, channels, riff, data) + samples,
{
    lemma_wav_lengths(rate, bits, channels, 0, 0);
    let id = ascii("RIFF"@);
    let format = wav_format(rate, bits, channels);
    let zero = le_bytes(0, 4);
    let r = le_bytes(riff, 4);
    let d = le_bytes(data, 4);
    let ps = seq![(4nat, r), (40nat, d)];
    let file = wav_header(rate, bits, channels, 0, 0) + samples;
    let file1 = wav_header(rate, bits, channels, riff, 0) + samples;
    let file2 = wav_header(rate, bits, channels, riff, data) + samples;

    let rest1 = format + zero + samples;
    assert(file =~= id + zero + rest1);
    assert(file1 =~= id + r + rest1);
    lemma_overwrite(id, zero, rest1, r);

    let head2 = id + r + format;
    assert(file1 =~= head2 + zero + samples);
    assert(file2 =~= head2 + d + samples);
    lemma_overwrite(head2, zero, samples, d);

    let p1 = ps.drop_last();
    let p0 = p1.drop_last();
    assert(p0.len() == 0);
    assert(patched(file, p0) == file);
    assert(patched(file, p1) == file1);
}

/// Patching an open file of any format makes its header complete and leaves the
/// samples alone.
pub proof fn law_patches_complete_header(
    kind: StreamKind,
    rate: u32,
    bits: usize,
    channels: nat,
    samples: Seq<u8>,
    frames: nat,
    data: nat,
)
    ensures
        patched(
            open_header(kind, rate, bits, channels) + samples,
            size_patches(kind, bits, frames, data),
        ) == full_header(kind, rate, bits, channels, frames, data) + samples,
{
    match kind {
        StreamKind::Flac => {},
        StreamKind::Aiff => {
            lemma_aiff_lengths(rate, bits, channels);
            lemma_form_patched(
                aiff_prefix(channels),
                aiff_suffix(rate, bits),
                samples,
                data as int + 46,
                frames as int,
                data as int,
            );
        },
        StreamKind::Aifc => {
            lemma_aifc_lengths(rate, bits, channels);
            lemma_form_patched(
                aifc_prefix(bits, channels),
                aifc_suffix(rate, bits),
                samples,
                aifc_sound_offset(bits) + 4 + data as int,
                frames as int,
                data as int + 8,
            );
        },
        StreamKind::Wav => {
            lemma_wav_patched(rate, bits, channels, samples, 36 + data as int, data as int);
        },
    }
}

/// The bytes one sample takes up.
pub fn width_of(bits: usize) -> (r: usize)
    ensures
        r == sample_width(bits),
{
    if bits == 20 {
        3
    } else {
        bits / 8
    }
}

/// Whether the numbers in the header of a WAV file can be computed.
pub open spec fn wav_header_fits(rate: u32, bits: usize, channels_num: usize) -> bool {
    let align = channels_num * sample_width(bits);
    align <= usize::MAX && rate * (align % 0x1_0000_0000) <= u32::MAX
}

/// Whether the numbers in the header of a WAV file can be computed.
pub fn wav_header_is_fitting(rate: u32, bits: usize, channels_num: usize) -> (r: bool)
    ensures
        r == wav_header_fits(rate, bits, channels_num),
{
    match channels_num.checked_mul(width_of(bits)) {
        Some(align) => {
            let low: u64 = align as u64 % 0x1_0000_0000;
            assert(rate * low <= 0xffff_ffff * 0xffff_ffff) by (nonlinear_arith)
                requires
                    rate <= 0xffff_ffff,
                    low <= 0xffff_ffff,
            ;
            rate as u64 * low <= 0xffff_ffff
        },
        None => false,
    }
}

/// The header that a WAV file begins with.
pub fn wav_open_header(rate: u32, bits: usize, channels_num: usize) -> (r: Vec<u8>)
    requires
        wav_header_fits(rate, bits, channels_num),
    ensures
        r@ == open_header(StreamKind::Wav, rate, bits, channels_num as nat),
{
    proof {
        reveal_strlit("RIFF");
        reveal_strlit("WAVE");
        reveal_strlit("fmt ");
        reveal_strlit("data");
    }
    let align: usize = channels_num * width_of(bits);
    let align_word: u32 = low_word(align as u64);
    let byte_rate: u32 = rate * align_word;
    proof {
        let q = align as int / 0x1_0000_0000;
        assert(align == align_word + q * 0x1_0000_0000);
        assert((rate * align - rate * align_word) == (rate * q) * 0x1_0000_0000)
            by (nonlinear_arith)
            requires
                align == align_word + q * 0x1_0000_0000,
        ;
        lemma_bytes_congruent(rate * align, byte_rate as int, 4);
    }
    let mut b: Vec<u8> = Vec::new();
    push_ascii(&mut b, "RIFF");
    push_le(&mut b, 0, 4);
    let ghost head = b@;
    push_ascii(&mut b, "WAVE");
    push_ascii(&mut b, "fmt ");
    push_le(&mut b, 16, 4);
    push_le(
        &mut b,
        if bits == 32 {
            3
        } else {
            1
        },
        2,
    );
    push_le(&mut b, low_word(channels_num as u64), 2);
    push_le(&mut b, rate, 4);
    push_le(&mut b, byte_rate, 4);
    push_le(&mut b, align_word, 2);
    push_le(&mut b, low_word(bits as u64), 2);
    push_ascii(&mut b, "data");
    assert(b@ =~= head + wav_format(rate, bits, channels_num as nat));
    push_le(&mut b, 0, 4);
    assert(b@ =~= open_header(StreamKind::Wav, rate, bits, channels_num as nat));
    b
}

/// Appends the sample rate of an AIFF header.
fn push_extended(b: &mut Vec<u8>, rate: u32)
    ensures
        final(b)@ == old(b)@ + extended_bytes(rate),
{
    let mut field: [u8; 10] = [0; 10];
    encode_extended(rate, &mut field);
    let mut k: usize = 0;
    let ghost start = b@;
    while k < 10
        invariant
            k <= 10,
            field@ == extended_bytes(rate),
            field@.len() == 10,
            b@ == start + extended_bytes(rate).take(k as int),
        decreases 10 - k,
    {
        b.push(field[k]);
        k = k + 1;
        assert(b@ =~= start + extended_bytes(rate).take(k as int));
    }
    assert(extended_bytes(rate).take(10) =~= extended_bytes(rate));
}

/// Appends what a header of the AIFF family ends with.
fn push_sound_header(b: &mut Vec<u8>)
    ensures
        final(b)@ == old(b)@ + be_bytes(0, 4) + (be_bytes(0, 4) + be_bytes(0, 4)),
{
    let ghost start = b@;
    push_be(b, 0, 4);
    push_be(b, 0, 4);
    push_be(b, 0, 4);
    assert(b@ =~= start + be_bytes(0, 4) + (be_bytes(0, 4) + be_bytes(0, 4)));
}

/// The header that an AIFF file begins with.
pub fn aiff_open_header(rate: u32, bits: usize, channels_num: usize) -> (r: Vec<u8>)
    ensures
        r@ == open_header(StreamKind::Aiff, rate, bits, channels_num as nat),
{
    proof {
        reveal_strlit("FORM");
        reveal_strlit("AIFF");
        reveal_strlit("COMM");
        reveal_strlit("SSND");
    }
    let mut b: Vec<u8> = Vec::new();
    push_ascii(&mut b, "FORM");
    push_be(&mut b, 0, 4);
    let ghost head = b@;
    push_ascii(&mut b, "AIFF");
    push_ascii(&mut b, "COMM");
    push_be(&mut b, 18, 4);
    push_be(&mut b, low_word(channels_num as u64), 2);
    assert(b@ =~= head + aiff_prefix(channels_num as nat));
    push_be(&mut b, 0, 4);
    let ghost mid = b@;
    push_be(&mut b, low_word(bits as u64), 2);
    push_extended(&mut b, rate);
    push_ascii(&mut b, "SSND");
    assert(b@ =~= mid + aiff_suffix(rate, bits));
    push_sound_header(&mut b);
    assert(b@ =~= open_header(StreamKind::Aiff, rate, bits, channels_num as nat));
    b
}

/// Appends the compression type of an AIFC file and its name.
fn push_aifc_type(b: &mut Vec<u8>, bits: usize)
    ensures
        final(b)@ == old(b)@ + aifc_type_bytes(bits),
{
    let kind: &str = if bits == 32 {
        "fl32"
    } else if bits == 16 {
        "twos"
    } else {
        "NONE"
    };
    let name: &str = if bits == 32 {
        "Linear PCM, 32 bit big-endian floating point"
    } else if bits == 16 {
        "Linear PCM, 16 bit big-endian signed integer"
    } else {
        "Linear PCM, 24 bit big-endian signed integer"
    };
    proof {
        lemma_aifc_lengths(0, bits, 0);
        reveal_strlit("fl32");
        reveal_strlit("twos");
        reveal_strlit("NONE");
        reveal_strlit("Linear PCM, 32 bit big-endian floating point");
        reveal_strlit("Linear PCM, 16 bit big-endian signed integer");
        reveal_strlit("Linear PCM, 24 bit big-endian signed integer");
    }
    let ghost start = b@;
    push_ascii(b, kind);
    push_be(b, 44, 1);
    push_ascii(b, name);
    push_zeros(b, 1);
    assert(b@ =~= start + aifc_type_bytes(bits));
}

/// Appends the filler of an AIFC file.
fn push_aifc_filler(b: &mut Vec<u8>, bits: usize)
    ensures
        final(b)@ == old(b)@ + aifc_filler_bytes(bits),
{
    proof {
        lemma_aifc_lengths(0, bits, 0);
        reveal_strlit("FLLR");
    }
    let ghost start = b@;
    push_ascii(b, "FLLR");
    push_be(b, 3972, 4);
    push_zeros(b, 3972);
    assert(b@ =~= start + aifc_filler_bytes(bits));
}

/// The header that an AIFC file begins with.
pub fn aifc_open_header(rate: u32, bits: usize, channels_num: usize) -> (r: Vec<u8>)
    ensures
        r@ == open_header(StreamKind::Aifc, rate, bits, channels_num as nat),
{
    proof {
        lemma_aifc_lengths(rate, bits, channels_num as nat);
        reveal_strlit("FORM");
        reveal_strlit("AIFC");
        reveal_strlit("FVER");
        reveal_strlit("COMM");
        reveal_strlit("SSND");
    }
    let mut b: Vec<u8> = Vec::with_capacity(4096);
    push_ascii(&mut b, "FORM");
    push_be(&mut b, 0, 4);
    let ghost head = b@;
    push_ascii(&mut b, "AIFC");
    push_ascii(&mut b, "FVER");
    push_be(&mut b, 4, 4);
    push_be(&mut b, 0xA280_5140, 4);
    push_ascii(&mut b, "COMM");
    push_be(&mut b, 68, 4);
    push_be(&mut b, low_word(channels_num as u64), 2);
    assert(b@ =~= head + aifc_prefix(bits, channels_num as nat));
    push_be(&mut b, 0, 4);
    let ghost mid = b@;
    push_be(&mut b, low_word(bits as u64), 2);
    push_extended(&mut b, rate);
    push_aifc_type(&mut b, bits);
    push_aifc_filler(&mut b, bits);
    push_ascii(&mut b, "SSND");
    assert(b@ =~= mid + aifc_suffix(rate, bits));
    push_sound_header(&mut b);
    assert(b@ =~= open_header(StreamKind::Aifc, rate, bits, channels_num as nat));
    b
}

/// A patch of four bytes, least significant first.
fn le_patch(offset: u64, v: u32) -> (r: Patch)
    ensures
        r@ == (offset as nat, le_bytes(v as int, 4)),
{
    let mut bytes: Vec<u8> = Vec::new();
    push_le(&mut bytes, v, 4);
    assert(bytes@ =~= le_bytes(v as int, 4));
    Patch { offset, bytes }
}

/// A patch of four bytes, most significant first.
fn be_patch(offset: u64, v: u32) -> (r: Patch)
    ensures
        r@ == (offset as nat, be_bytes(v as int, 4)),
{
    let mut bytes: Vec<u8> = Vec::new();
    push_be(&mut bytes, v, 4);
    assert(bytes@ =~= be_bytes(v as int, 4));
    Patch { offset, bytes }
}

/// The patches for the sizes of a WAV file.
pub fn wav_patches(bits: usize, data: u32) -> (r: Vec<Patch>)
    requires
        36 + data <= u32::MAX,
    ensures
        forall|frames: nat| #[trigger]
            size_patches(StreamKind::Wav, bits, frames, data as nat) == patch_views(r@),
{
    let mut r: Vec<Patch> = Vec::new();
    r.push(le_patch(4, 36 + data));
    r.push(le_patch(40, data));
    proof {
        assert forall|frames: nat| #[trigger]
            size_patches(StreamKind::Wav, bits, frames, data as nat) == patch_views(r@) by {
            assert(size_patches(StreamKind::Wav, bits, frames, data as nat) =~= patch_views(r@));
        }
    }
    r
}

/// The patches for the sizes of an AIFF file.
pub fn aiff_patches(bits: usize, frames: u64, data: u32) -> (r: Vec<Patch>)
    requires
        data + 46 <= u32::MAX,
    ensures
        patch_views(r@) == size_patches(StreamKind::Aiff, bits, frames as nat, data as nat),
{
    let mut r: Vec<Patch> = Vec::new();
    r.push(be_patch(4, data + 46));
    r.push(be_patch(22, low_word(frames)));
    r.push(be_patch(42, data));
    assert(patch_views(r@) =~= size_patches(StreamKind::Aiff, bits, frames as nat, data as nat));
    r
}

/// The patches for the sizes of an AIFC file.
pub fn aifc_patches(bits: usize, frames: u64, data: u32) -> (r: Vec<Patch>)
    requires
        aifc_sound_offset(bits) + 4 + data <= u32::MAX,
    ensures
        patch_views(r@) == size_patches(StreamKind::Aifc, bits, frames as nat, data as nat),
{
    proof {
        lemma_aifc_lengths(0, bits, 0);
    }
    let mut r: Vec<Patch> = Vec::new();
    r.push(be_patch(4, 4088 + data));
    r.push(be_patch(34, low_word(frames)));
    r.push(be_patch(4084, data + 8));
    assert(patch_views(r@) =~= size_patches(StreamKind::Aifc, bits, frames as nat, data as nat));
    r
}

} // verus!
