//! What a writer promises as a whole: which arguments it takes, what it begins a file
//! with, where samples go, and when a file is too large.
use vstd::prelude::*;
use vstd::arithmetic::power2::pow2;
use crate::audio_file::flac_bits;
use crate::bytes::{law_le_round_trip, le_value};
use crate::clipping::{law_quantized, quantized_all, ClipModel};
use crate::container::{
    error_text, full_header, lemma_aifc_lengths, lemma_aiff_lengths, lemma_wav_lengths,
    wav_header_fits, StreamError,
};
use crate::header_fields::{
    header_says, law_aifc_header_fields, law_aiff_header_fields, law_wav_header_fields,
};
use crate::pcm_writer::{
    buffer_fits, float_samples, int_bytes, int_packed, law_block_appended, new_error, new_model, pcm_error_text, peak_of,
    sample_offset, stream_kind, Block, OutPath, PcmErrorModel, PcmModel, StreamStart,
};
use crate::samples::{
    encoded, known_bits, lemma_encoded_len, lemma_min_len, min_len, sample_width, StreamKind,
};
use crate::stdout_layout::{
    blocks_written, float_channels, law_stdout_interleaves_floats,
};
use crate::stream_model::{unwritten, whole_file, StreamModel};
use crate::types::OutputType;

verus! {

/// Which arguments a new writer takes. The bit depth is 16, 20, 24 or 32; there is no
/// path with standard output; the floats of 32 bits do not go to AIFF and FLAC
/// files; and a path that is given is there and can be resolved. Of several errors
/// the first of these is given.
pub proof fn law_new_writer(bits: usize, output: OutputType, path: OutPath)
    ensures
        ({
            let depth = bits == 16 || bits == 20 || bits == 24 || bits == 32;
            let stdout = output == OutputType::Stdout && !(path is Absent);
            let float = bits == 32 && (output == OutputType::Aiff || output == OutputType::Flac);
            let e = new_error(bits, output, path);
            &&& !depth <==> e == Some(PcmErrorModel::BitDepth)
            &&& depth && stdout <==> e == Some(PcmErrorModel::PathWithStdout)
            &&& depth && !stdout && float <==> e == Some(PcmErrorModel::FloatFormat)
            &&& depth && !stdout && !float ==> match path {
                OutPath::Absent => e is None,
                OutPath::Missing(p) => e == Some(PcmErrorModel::PathMissing(p@)),
                OutPath::Unresolved(t) => e == Some(PcmErrorModel::PathUnresolved(t@)),
                OutPath::Resolved(_) => e is None,
            }
        }),
{
}

/// A new writer has counted no clips and has no stream open; its buffer is zeros, and
/// has room for the frames it was made for.
pub proof fn law_fresh_writer(
    bits: usize,
    output: OutputType,
    rate: u32,
    path: OutPath,
    frames: usize,
    channels: usize,
)
    requires
        bits == 16 || bits == 20 || bits == 24 || bits == 32,
    ensures
        ({
            let m = new_model(bits, output, rate, path, frames, channels);
            &&& m.bits == bits && m.output == output && m.rate == rate && m.channels == channels
            &&& m.clip.clips == 0 && m.clip.low == 0 && m.clip.high == 0
            &&& m.stream is None
            &&& bits == 16 ==> m.buf.len() == frames * channels * 2
            &&& bits == 20 || bits == 24 ==> m.buf.len() == frames * channels * 3
            &&& bits == 32 ==> m.buf.len() == frames * channels * 4
            &&& forall|i: int| 0 <= i < m.buf.len() ==> #[trigger] m.buf[i] == 0
            &&& bits != 32 ==> m.peak == pow2((bits - 1) as nat)
        }),
{
    law_peaks(bits);
    assert(frames * channels * sample_width(bits) >= 0) by (nonlinear_arith)
        requires
            frames >= 0,
            channels >= 0,
            sample_width(bits) >= 0,
    ;
}

/// The lowest integer sample of a bit depth is minus half the numbers of that many
/// bits.
pub proof fn law_peaks(bits: usize)
    requires
        bits == 16 || bits == 20 || bits == 24 || bits == 32,
    ensures
        bits != 32 ==> peak_of(bits) == pow2((bits - 1) as nat),
{
    vstd::arithmetic::power2::lemma2_to64();
}

/// Every kind of file output has a format of its own, the one of its name.
pub proof fn law_output_formats(output: OutputType)
    ensures
        output == OutputType::Flac <==> stream_kind(output) == StreamKind::Flac,
        output == OutputType::Aiff <==> stream_kind(output) == StreamKind::Aiff,
        output == OutputType::Aifc <==> stream_kind(output) == StreamKind::Aifc,
        output == OutputType::Wav ==> stream_kind(output) == StreamKind::Wav,
{
}

/// What a stream begins with says the format of the output, and the rate, the bit depth
/// and the channels of the writer.
pub proof fn law_stream_begins(
    m: PcmModel,
    start: StreamStart,
    tag: Option<id3::Tag>,
    version: Seq<char>,
    unix_seconds: nat,
)
    requires
        known_bits(m.bits),
        m.output != OutputType::Stdout,
        m.begins_with(start, tag, version, unix_seconds),
    ensures
        match start {
            StreamStart::Flac(s) => {
                &&& m.output == OutputType::Flac
                &&& s.rate == m.rate
                &&& s.bits_per_sample == m.bits
                &&& s.channels == m.channels
                &&& s.metadata is Some <==> tag is Some
            },
            StreamStart::Header(header) => match m.output {
                OutputType::Aiff => header_says(
                    StreamKind::Aiff,
                    header@,
                    m.rate,
                    m.bits,
                    m.channels,
                ),
                OutputType::Aifc => header_says(
                    StreamKind::Aifc,
                    header@,
                    m.rate,
                    m.bits,
                    m.channels,
                ),
                OutputType::Wav => header_says(
                    StreamKind::Wav,
                    header@,
                    m.rate,
                    m.bits,
                    m.channels,
                ),
                _ => false,
            },
        },
{
    law_wav_header_fields(m.rate, m.bits, m.channels, 0, 0);
    law_aiff_header_fields(m.rate, m.bits, m.channels, 0, 0);
    law_aifc_header_fields(m.rate, m.bits, m.channels, 0, 0);
}

/// A stream that is opened is empty, has the format of the output, and the bit depth and
/// the channels of the writer. The tag is kept for its end, but for FLAC files.
pub proof fn law_opened_stream(m: PcmModel, tag: Option<id3::Tag>)
    requires
        m.output != OutputType::Stdout,
    ensures
        m.new_stream(tag) matches Some(s) && {
            &&& m.output == OutputType::Flac <==> s.0.kind == StreamKind::Flac
            &&& m.output == OutputType::Aiff <==> s.0.kind == StreamKind::Aiff
            &&& m.output == OutputType::Aifc <==> s.0.kind == StreamKind::Aifc
            &&& m.output == OutputType::Wav <==> s.0.kind == StreamKind::Wav
            &&& s.0.bits == m.bits
            &&& s.0.written == 0
            &&& s.0.chans.len() == m.channels
            &&& forall|c: int| 0 <= c < m.channels ==> (#[trigger] s.0.chans[c]).len() == 0
            &&& m.output == OutputType::Flac ==> s.1 is None
            &&& m.output != OutputType::Flac ==> s.1 == tag
        },
{
}

/// Closing a stream changes nothing else of a writer.
pub proof fn law_closing_keeps(m: PcmModel)
    ensures
        ({
            let c = m.stream_closed();
            &&& c.stream is None
            &&& c.bits == m.bits && c.channels == m.channels && c.rate == m.rate
            &&& c.output == m.output && c.path == m.path && c.peak == m.peak
            &&& c.clip == m.clip && c.buf == m.buf
        }),
{
}

/// Writing a block to a file: its samples go, clipped, to the end of their channel of
/// the open stream, and to no other. The buffer for standard output stays as it is.
pub proof fn law_block_to_stream(m: PcmModel, values: Vec<i64>, chan: nat, i: int)
    requires
        m.stream matches Some(s) && chan < s.0.chans.len(),
        m.output != OutputType::Stdout,
        1 <= m.peak <= i32::MAX,
        0 <= i < values@.len(),
        i32::MIN <= values@[i] <= i32::MAX,
    ensures
        ({
            let before = m.stream->0;
            let after = m.written(Block::Rounded(values), chan).stream->0;
            let c = chan as int;
            let place = before.0.chans[c].len() + i;
            &&& m.written(Block::Rounded(values), chan).stream is Some
            &&& m.written(Block::Rounded(values), chan).buf == m.buf
            &&& after.1 == before.1
            &&& after.0.written == before.0.written
            &&& after.0.chans.len() == before.0.chans.len()
            &&& after.0.chans[c].len() == before.0.chans[c].len() + values@.len()
            &&& after.0.chans[c].take(before.0.chans[c].len() as int) == before.0.chans[c]
            &&& values@[i] < -m.peak ==> after.0.chans[c][place] == -m.peak
            &&& values@[i] >= m.peak ==> after.0.chans[c][place] == m.peak - 1
            &&& -m.peak <= values@[i] < m.peak ==> after.0.chans[c][place] == values@[i]
            &&& forall|d: int|
                0 <= d < before.0.chans.len() && d != c ==> #[trigger] after.0.chans[d]
                    == before.0.chans[d]
        }),
{
    let (before, _) = m.stream->0;
    let q = quantized_all(m.peak, values@);
    let c = chan as int;
    law_block_appended(before, c, q);
    law_quantized(m.peak as i32, values@, i);
    assert((before.chans[c] + q).take(before.chans[c].len() as int) =~= before.chans[c]);
}

/// Floats go to the end of their channel bit by bit, and are not counted as clips.
pub proof fn law_floats_to_stream(m: PcmModel, values: Vec<u32>, chan: nat, i: int)
    requires
        m.stream matches Some(s) && chan < s.0.chans.len(),
        m.output != OutputType::Stdout,
        0 <= i < values@.len(),
    ensures
        ({
            let before = m.stream->0;
            let after = m.written(Block::Floats(values), chan);
            let c = chan as int;
            &&& after.clip == m.clip
            &&& after.buf == m.buf
            &&& after.stream matches Some(s) && {
                &&& s.0.chans[c].len() == before.0.chans[c].len() + values@.len()
                &&& s.0.chans[c].take(before.0.chans[c].len() as int) == before.0.chans[c]
                &&& s.0.chans[c][before.0.chans[c].len() + i] as u32 == values@[i]
                &&& forall|d: int|
                    0 <= d < before.0.chans.len() && d != c ==> #[trigger] s.0.chans[d]
                        == before.0.chans[d]
            }
        }),
{
    let (before, _) = m.stream->0;
    let q = float_samples(values@);
    let c = chan as int;
    law_block_appended(before, c, q);
    assert((before.chans[c] + q).take(before.chans[c].len() as int) =~= before.chans[c]);
    let u = values@[i];
    assert((u as i32) as u32 == u) by (bit_vector);
}

/// Writing a block keeps what the writer is.
pub proof fn law_writing_keeps(m: PcmModel, block: Block, chan: nat)
    ensures
        ({
            let w = m.written(block, chan);
            &&& w.bits == m.bits && w.channels == m.channels && w.rate == m.rate
            &&& w.output == m.output && w.path == m.path && w.peak == m.peak
            &&& w.stream is Some <==> m.stream is Some
            &&& m.output != OutputType::Stdout ==> w.buf == m.buf
        }),
{
}

/// The bytes of an integer sample on standard output: the least significant comes
/// first, and the 20-bit samples fill the upper 20 of 24 bits.
pub proof fn law_stdout_bytes(bits: usize, value: i32)
    ensures
        bits == 16 ==> int_bytes(bits, value).len() == 2 && le_value(int_bytes(bits, value))
            == value as int % 0x1_0000,
        bits == 20 ==> int_bytes(bits, value).len() == 3 && le_value(int_bytes(bits, value)) == (16
            * value) % 0x100_0000,
        bits == 24 ==> int_bytes(bits, value).len() == 3 && le_value(int_bytes(bits, value))
            == value as int % 0x100_0000,
{
    law_le_round_trip(value as int, 2);
    law_le_round_trip(value as int, 3);
    law_le_round_trip(16 * value, 3);
}

/// On standard output sample `s` of a channel follows those of the channels before it
/// in frame `s`, and all frames before that.
pub proof fn law_stdout_place(bits: usize, channels: nat, chan: nat, s: nat)
    ensures
        bits == 16 ==> sample_offset(bits, channels, chan, s) == (s * channels + chan) * 2,
        bits == 20 || bits == 24 ==> sample_offset(bits, channels, chan, s) == (s * channels
            + chan) * 3,
        bits == 32 ==> sample_offset(bits, channels, chan, s) == (s * channels + chan) * 4,
{
    let w = sample_width(bits);
    assert(chan * w + s * (channels * w) == (s * channels + chan) * w) by (nonlinear_arith);
}

/// The bit patterns in a block.
pub open spec fn patterns(block: Block) -> Seq<u32> {
    match block {
        Block::Floats(v) => v@,
        Block::Rounded(_) => Seq::empty(),
    }
}

/// Writing blocks of floats is packing them.
proof fn lemma_float_blocks(m: PcmModel, blocks: Seq<Block>, n: nat)
    requires
        m.output == OutputType::Stdout,
        m.channels == blocks.len(),
        n <= blocks.len(),
        forall|c: int| 0 <= c < blocks.len() ==> (#[trigger] blocks[c]) is Floats,
    ensures
        ({
            let after = blocks_written(m, blocks, n);
            let chans = Seq::new(blocks.len(), |c: int| patterns(blocks[c]));
            &&& after.buf == float_channels(m.buf, chans, n)
            &&& after.channels == m.channels && after.output == m.output
            &&& after.clip == m.clip
        }),
    decreases n,
{
    if n > 0 {
        lemma_float_blocks(m, blocks, (n - 1) as nat);
        assert(blocks[n - 1] is Floats);
    }
}

/// When a block of as many floats was written for every channel, what goes to standard
/// output is their frames, interleaved, and no clips are counted.
pub proof fn law_stdout_float_blocks(m: PcmModel, blocks: Seq<Block>, frames: nat)
    requires
        m.output == OutputType::Stdout,
        m.channels == blocks.len(),
        forall|c: int|
            0 <= c < blocks.len() ==> (#[trigger] blocks[c]) is Floats && blocks[c].count()
                == frames,
        frames * blocks.len() * 4 <= m.buf.len(),
    ensures
        blocks_written(m, blocks, blocks.len()).clip == m.clip,
        blocks_written(m, blocks, blocks.len()).buf.take((frames * blocks.len() * 4) as int)
            == encoded(
            StreamKind::Wav,
            32,
            Seq::new(blocks.len(), |c: int| float_samples(patterns(blocks[c]))),
            frames,
        ),
{
    let chans = Seq::new(blocks.len(), |c: int| patterns(blocks[c]));
    lemma_float_blocks(m, blocks, blocks.len());
    assert forall|c: int| 0 <= c < chans.len() implies (#[trigger] chans[c]).len() == frames by {
        assert(blocks[c] is Floats && blocks[c].count() == frames);
    }
    law_stdout_interleaves_floats(m.buf, chans, frames);
    assert(Seq::new(chans.len(), |c: int| float_samples(chans[c])) =~= Seq::new(
        blocks.len(),
        |c: int| float_samples(patterns(blocks[c])),
    ));
}

/// How long a file is, and when it is too large. The header takes up 44 bytes in WAV
/// files, 54 in AIFF files and 4096 in AIFC files, the samples as many bytes as there
/// are samples in whole frames, times their width. A file is too large when what
/// follows its size field is too long for 32 bits; a WAV file also when it is just
/// as long as that.
pub proof fn law_size_limits(kind: StreamKind, rate: u32, bits: usize, chans: Seq<Seq<i32>>)
    requires
        bits == 16 || bits == 20 || bits == 24 || bits == 32,
    ensures
        ({
            let file = whole_file(kind, rate, bits, chans).len() as int;
            let width = if bits == 16 {
                2int
            } else if bits == 32 {
                4
            } else {
                3
            };
            let data = min_len(chans) * (chans.len() * width);
            let e = unwritten(kind, bits, chans).size_error();
            match kind {
                StreamKind::Flac => file == data && e is None,
                StreamKind::Wav => {
                    &&& file == 44 + data
                    &&& file - 8 >= 0xffff_ffff <==> e == Some(StreamError::WavTooLarge)
                    &&& file - 8 < 0xffff_ffff <==> e is None
                },
                StreamKind::Aiff => {
                    &&& file == 54 + data
                    &&& data > 0xffff_ffff <==> e == Some(StreamError::AiffChunkSize)
                    &&& data <= 0xffff_ffff && file - 8 > 0xffff_ffff <==> e == Some(
                        StreamError::AiffFormSize,
                    )
                    &&& file - 8 <= 0xffff_ffff <==> e is None
                },
                StreamKind::Aifc => {
                    &&& file == 4096 + data
                    &&& data > 0xffff_ffff <==> e == Some(StreamError::AifcChunkSize)
                    &&& data <= 0xffff_ffff && file - 8 > 0xffff_ffff <==> e == Some(
                        StreamError::AifcFormSize,
                    )
                    &&& file - 8 <= 0xffff_ffff <==> e is None
                },
            }
        }),
{
    let n = chans.len();
    let m = unwritten(kind, bits, chans);
    let frames = min_len(chans);
    let data = m.data_size(m.total());
    assert(m.total() == frames);
    lemma_encoded_len(kind, bits, chans, frames);
    lemma_wav_lengths(rate, bits, n, 36 + data as int, data as int);
    lemma_aiff_lengths(rate, bits, n);
    lemma_aifc_lengths(rate, bits, n);
    let header = full_header(kind, rate, bits, n, m.total(), data);
    assert(whole_file(kind, rate, bits, chans).len() == header.len() + encoded(
        kind,
        bits,
        chans,
        frames,
    ).len());
}

/// When a batch is written: not before every channel has two mebi-samples waiting for a
/// FLAC file, or eight for another.
pub proof fn law_flush_threshold(m: StreamModel)
    requires
        m.chans.len() > 0,
    ensures
        ({
            let enough: int = if m.kind == StreamKind::Flac {
                0x20_0000
            } else {
                0x80_0000
            };
            (forall|c: int| 0 <= c < m.chans.len() ==> (#[trigger] m.chans[c]).len() >= enough)
                <==> m.flush() != Ok::<Option<(nat, Seq<u8>)>, StreamError>(None)
        }),
{
    lemma_min_len(m.chans);
    let w = choose|c: int|
        0 <= c < m.chans.len() && min_len(m.chans) == (#[trigger] m.chans[c]).len();
    assert(m.chans[w].len() == m.pending());
}

/// The numbers in a WAV header can be computed if the bytes for each second are a
/// number of 32 bits.
pub proof fn law_wav_header_fits(rate: u32, bits: usize, channels: usize)
    requires
        bits == 16 || bits == 20 || bits == 24 || bits == 32,
        rate >= 1,
        bits == 16 ==> rate * (channels * 2) <= 0xffff_ffff,
        bits == 20 || bits == 24 ==> rate * (channels * 3) <= 0xffff_ffff,
        bits == 32 ==> rate * (channels * 4) <= 0xffff_ffff,
    ensures
        wav_header_fits(rate, bits, channels),
{
    let align = channels * sample_width(bits);
    assert(align <= rate * align) by (nonlinear_arith)
        requires
            rate >= 1,
            align >= 0,
    ;
    assert(align % 0x1_0000_0000 == align);
}

/// The bit depth of a FLAC file is the one that was asked for, or 24 if that was more.
pub proof fn law_flac_bits(bits: usize)
    ensures
        flac_bits(bits) <= 24,
        bits <= 24 ==> flac_bits(bits) == bits,
        bits > 24 ==> flac_bits(bits) == 24,
{
}

/// What a user is told when a stream cannot be opened or has become too large.
pub proof fn law_stream_error_texts()
    ensures
        error_text(StreamError::FlacBits) == "FLAC: only 16, 20, or 24-bit supported"@,
        error_text(StreamError::AiffBits) == "AIFF: only 16, 20, or 24-bit supported"@,
        error_text(StreamError::AifcBits) == "AIFC: only 16, 20, 24, or 32-bit supported"@,
        error_text(StreamError::WavBits) == "WAV: only 16, 20, 24, or 32-bit supported"@,
        error_text(StreamError::AiffChunkSize)
            == "AIFF stream too large for 32-bit AIFF chunk sizes"@,
        error_text(StreamError::AiffFormSize) == "AIFF stream too large for 32-bit AIFF FORM size"@,
        error_text(StreamError::AifcChunkSize)
            == "AIFC stream too large for 32-bit AIFF/AIFC chunk sizes"@,
        error_text(StreamError::AifcFormSize)
            == "AIFC stream too large for 32-bit AIFF/AIFC FORM size"@,
        error_text(StreamError::WavTooLarge) == "File too large for standard WAV (4GB limit)"@,
{
}

/// What a user is told when a writer cannot be made. A path that is missing is named at
/// the end.
pub proof fn law_writer_error_texts(p: Seq<char>)
    ensures
        pcm_error_text(PcmErrorModel::BitDepth) == "Unsupported bit depth"@,
        pcm_error_text(PcmErrorModel::PathWithStdout)
            == "Cannot specify output path when outputting to stdout"@,
        pcm_error_text(PcmErrorModel::FloatFormat)
            == "32 bit float only allowed with wav, aifc, or stdout"@,
        pcm_error_text(PcmErrorModel::PathMissing(p)).take(38)
            == "Specified output path does not exist: "@,
        pcm_error_text(PcmErrorModel::PathMissing(p)).skip(38) == p,
        pcm_error_text(PcmErrorModel::PathUnresolved(p)) == p,
{
    reveal_strlit("Specified output path does not exist: ");
    let t = pcm_error_text(PcmErrorModel::PathMissing(p));
    assert(t.take(38) =~= "Specified output path does not exist: "@);
    assert(t.skip(38) =~= p);
}

/// What the end of a stream gives: all whole frames that wait. It fails for WAV files
/// that would become too large and for no others; for AIFF and AIFC files that are
/// too large the frames are given, and the error in the place of the sizes.
pub proof fn law_finish(m: StreamModel)
    ensures
        m.kind != StreamKind::Wav ==> m.finish() is Ok,
        m.kind == StreamKind::Wav ==> (m.finish() is Err <==> 36 + (m.written + min_len(m.chans))
            * (m.chans.len() * sample_width(m.bits)) >= 0xffff_ffff),
        m.finish() matches Err(e) ==> e == StreamError::WavTooLarge,
        m.finish() matches Ok(f) ==> f.data == encoded(m.kind, m.bits, m.chans, min_len(m.chans)),
        m.finish() matches Ok(f) ==> (f.patches is Err <==> m.size_error() is Some),
{
}

/// A flush fails for WAV files that would become too large and for no others, and gives
/// all whole frames that wait.
pub proof fn law_flush(m: StreamModel)
    ensures
        m.flush() matches Err(e) ==> m.kind == StreamKind::Wav && e == StreamError::WavTooLarge
            && 36 + (m.written + min_len(m.chans)) * (m.chans.len() * sample_width(m.bits))
            >= 0xffff_ffff,
        m.flush() matches Ok(Some(b)) ==> b.0 == min_len(m.chans) && b.1 == encoded(
            m.kind,
            m.bits,
            m.chans,
            min_len(m.chans),
        ),
{
}

/// A sample that has no room in the buffer for standard output is left out, and one that
/// just has room is not.
pub proof fn law_room_for_sample(bits: usize, buf: Seq<u8>, offset: nat, value: i32)
    requires
        bits == 16 || bits == 20 || bits == 24,
    ensures
        ({
            let width = if bits == 16 {
                2int
            } else {
                3
            };
            let after = int_packed(bits, buf, offset, value);
            &&& after.len() == buf.len()
            &&& offset + width > buf.len() ==> after == buf
            &&& offset + width <= buf.len() ==> {
                &&& after.subrange(offset as int, offset + width) == int_bytes(bits, value)
                &&& after.take(offset as int) == buf.take(offset as int)
                &&& after.skip(offset + width) == buf.skip(offset + width)
            }
        }),
{
    let width = sample_width(bits) as int;
    let after = int_packed(bits, buf, offset, value);
    if offset + width <= buf.len() {
        assert(after.subrange(offset as int, offset + width) =~= int_bytes(bits, value));
        assert(after.take(offset as int) =~= buf.take(offset as int));
        assert(after.skip(offset + width) =~= buf.skip(offset + width));
    }
}

/// A buffer of less than two gibibytes can always be had.
pub proof fn law_buffer_fits(frames: usize, channels: usize, width: nat)
    requires
        frames * channels * width <= 0x7fff_ffff,
    ensures
        buffer_fits(frames, channels, width),
{
}

/// Samples raise the counts by at most one each.
proof fn lemma_counts_grow(c: ClipModel, peak: int, values: Seq<i64>)
    requires
        c.low >= 0,
        c.high >= 0,
    ensures
        c.after_all(peak, values).clips <= c.clips + values.len(),
        0 <= c.after_all(peak, values).low <= c.low + values.len(),
        0 <= c.after_all(peak, values).high <= c.high + values.len(),
    decreases values.len(),
{
    if values.len() > 0 {
        lemma_counts_grow(c, peak, values.drop_last());
    }
}

/// A writer of a file takes every block of its kind of samples for every channel it has,
/// as long as the counts of clipped samples cannot leave 31 bits.
pub proof fn law_takes_blocks(m: PcmModel, block: Block, chan: nat)
    requires
        m.output != OutputType::Stdout,
        chan < m.channels,
        block is Floats <==> m.bits == 32,
        m.clip.low >= 0,
        m.clip.high >= 0,
        m.clip.clips + block.count() <= 0x7fff_ffff,
        m.clip.low + block.count() <= 0x7fff_ffff,
        m.clip.high + block.count() <= 0x7fff_ffff,
    ensures
        m.can_write(block, chan),
{
    if let Block::Rounded(v) = block {
        assert forall|k: int| 0 <= k <= v@.len() implies (#[trigger] m.clip.after_all(
            m.peak,
            v@.take(k),
        )).fits() by {
            lemma_counts_grow(m.clip, m.peak, v@.take(k));
        }
    }
}

} // verus!
