//! The writer that takes PCM samples to their destination: standard output or a
//! stream to a file.
//!
//! Scaling and dithering happen before: samples arrive rounded to whole numbers,
//! or as the bit patterns of 32-bit floats. This writer clips integers to their
//! range, counts clips, and lays the samples down.
use vstd::prelude::*;
use crate::audio_file::{
    finish_view, flush_view, is_metadata_of, AifcStreamWriter, AiffStreamWriter, Batch,
    Finish, FlacStart, FlacStreamWriter, FloatStreamingWriter, StreamWriter, StreamingWriter,
    WavStreamWriter,
};
use crate::bytes::{le_bytes, lemma_bytes_congruent, push_zeros, word_byte, word_of};
use crate::clipping::{clamped, quantize_block, quantized_all, truncated, ClipCounter, ClipModel};
use crate::container::{open_header, overwrite, wav_header_fits, width_of, StreamError};
use crate::samples::{known_bits, sample_width, StreamKind};
use crate::stream_model::{FinishModel, StreamModel};
use crate::tag_util::tag_convertible;
use crate::types::OutputType;

verus! {

/// `std::path::PathBuf`, which this module carries along unseen.
#[verifier::external_type_specification]
#[verifier::external_body]
pub struct ExPathBuf(std::path::PathBuf);

/// Why a writer cannot be made.
pub enum PcmError {
    BitDepth,
    PathWithStdout,
    FloatFormat,
    /// The path, as it is displayed
    PathMissing(String),
    /// What was said when the path could not be resolved
    PathUnresolved(String),
}

/// An error, mathematically.
#[verifier::ext_equal]
pub enum PcmErrorModel {
    BitDepth,
    PathWithStdout,
    FloatFormat,
    PathMissing(Seq<char>),
    PathUnresolved(Seq<char>),
}

impl View for PcmError {
    type V = PcmErrorModel;

    open spec fn view(&self) -> PcmErrorModel {
        match *self {
            PcmError::BitDepth => PcmErrorModel::BitDepth,
            PcmError::PathWithStdout => PcmErrorModel::PathWithStdout,
            PcmError::FloatFormat => PcmErrorModel::FloatFormat,
            PcmError::PathMissing(p) => PcmErrorModel::PathMissing(p@),
            PcmError::PathUnresolved(e) => PcmErrorModel::PathUnresolved(e@),
        }
    }
}

/// The text that tells a user about an error.
pub open spec fn pcm_error_text(e: PcmErrorModel) -> Seq<char> {
    match e {
        PcmErrorModel::BitDepth => "Unsupported bit depth"@,
        PcmErrorModel::PathWithStdout => "Cannot specify output path when outputting to stdout"@,
        PcmErrorModel::FloatFormat => "32 bit float only allowed with wav, aifc, or stdout"@,
        PcmErrorModel::PathMissing(p) => "Specified output path does not exist: "@ + p,
        PcmErrorModel::PathUnresolved(e) => e,
    }
}

impl PcmError {
    /// The text that tells a user about this error.
    pub fn message(&self) -> (r: String)
        ensures
            r@ == pcm_error_text(self@),
    {
        match self {
            PcmError::BitDepth => "Unsupported bit depth".to_owned(),
            PcmError::PathWithStdout =>
                "Cannot specify output path when outputting to stdout".to_owned(),
            PcmError::FloatFormat =>
                "32 bit float only allowed with wav, aifc, or stdout".to_owned(),
            PcmError::PathMissing(p) => {
                let mut r: String = "Specified output path does not exist: ".to_owned();
                r.append(p.as_str());
                r
            },
            PcmError::PathUnresolved(e) => e.clone(),
        }
    }
}

/// What is known of the path to write to.
pub enum OutPath {
    /// None was given
    Absent,
    /// There is nothing at the path that was given, which is displayed like this
    Missing(String),
    /// It could not be resolved, and this was said
    Unresolved(String),
    /// It was resolved to this
    Resolved(std::path::PathBuf),
}

/// The error that the arguments of a new writer give. Those about the writer
/// itself come before those about the path.
pub open spec fn new_error(bits: usize, output: OutputType, path: OutPath) -> Option<
    PcmErrorModel,
> {
    if !known_bits(bits) {
        Some(PcmErrorModel::BitDepth)
    } else if output == OutputType::Stdout && !(path is Absent) {
        Some(PcmErrorModel::PathWithStdout)
    } else if bits == 32 && (output == OutputType::Aiff || output == OutputType::Flac) {
        Some(PcmErrorModel::FloatFormat)
    } else {
        match path {
            OutPath::Missing(p) => Some(PcmErrorModel::PathMissing(p@)),
            OutPath::Unresolved(e) => Some(PcmErrorModel::PathUnresolved(e@)),
            _ => None,
        }
    }
}

/// One channel's block of samples.
pub enum Block {
    /// Rounded to whole numbers
    Rounded(Vec<i64>),
    /// The bit patterns of 32-bit floats
    Floats(Vec<u32>),
}

impl Block {
    /// The number of samples.
    pub open spec fn count(&self) -> nat {
        match *self {
            Block::Rounded(v) => v@.len(),
            Block::Floats(v) => v@.len(),
        }
    }
}

/// How a stream begins.
pub enum StreamStart {
    /// With a FLAC encoder
    Flac(FlacStart),
    /// With these bytes
    Header(Vec<u8>),
}

/// The state of a writer.
#[verifier::ext_equal]
pub struct PcmModel {
    pub bits: usize,
    pub channels: nat,
    pub rate: u32,
    pub output: OutputType,
    pub path: Option<std::path::PathBuf>,
    /// The magnitude of the lowest sample
    pub peak: int,
    pub clip: ClipModel,
    /// What goes to standard output
    pub buf: Seq<u8>,
    /// The stream to a file, if one is open, and the tag to write at its end
    pub stream: Option<(StreamModel, Option<id3::Tag>)>,
}

/// The format of the file for an output.
pub open spec fn stream_kind(output: OutputType) -> StreamKind {
    match output {
        OutputType::Flac => StreamKind::Flac,
        OutputType::Aiff => StreamKind::Aiff,
        OutputType::Aifc => StreamKind::Aifc,
        _ => StreamKind::Wav,
    }
}

/// The magnitude of the lowest sample of a bit depth.
pub open spec fn peak_of(bits: usize) -> int {
    if bits == 16 {
        0x8000
    } else if bits == 20 {
        0x8_0000
    } else {
        0x80_0000
    }
}

/// The bytes of an integer sample on standard output: least significant first,
/// 20-bit samples in the upper bits of three bytes.
pub open spec fn int_bytes(bits: usize, value: i32) -> Seq<u8> {
    le_bytes(
        if bits == 20 {
            16 * value
        } else {
            value as int
        },
        sample_width(bits),
    )
}

/// A buffer with an integer sample at `offset`, if there is room for it.
pub open spec fn int_packed(bits: usize, buf: Seq<u8>, offset: nat, value: i32) -> Seq<u8> {
    if offset + sample_width(bits) <= buf.len() {
        overwrite(buf, offset, int_bytes(bits, value))
    } else {
        buf
    }
}

/// Where sample `s` of channel `chan` is on standard output.
pub open spec fn sample_offset(bits: usize, channels: nat, chan: nat, s: nat) -> nat {
    chan * sample_width(bits) + s * (channels * sample_width(bits))
}

/// A buffer with integer samples of one channel, as far as there is room.
pub open spec fn ints_packed(
    bits: usize,
    channels: nat,
    buf: Seq<u8>,
    chan: nat,
    values: Seq<i32>,
) -> Seq<u8>
    decreases values.len(),
{
    if values.len() == 0 {
        buf
    } else {
        let n = (values.len() - 1) as nat;
        int_packed(
            bits,
            ints_packed(bits, channels, buf, chan, values.drop_last()),
            sample_offset(bits, channels, chan, n),
            values.last(),
        )
    }
}

/// A buffer with float samples of one channel.
pub open spec fn floats_packed(channels: nat, buf: Seq<u8>, chan: nat, values: Seq<u32>) -> Seq<u8>
    decreases values.len(),
{
    if values.len() == 0 {
        buf
    } else {
        let n = (values.len() - 1) as nat;
        overwrite(
            floats_packed(channels, buf, chan, values.drop_last()),
            sample_offset(32, channels, chan, n),
            le_bytes(values.last() as int, 4),
        )
    }
}

/// A stream with more samples for one channel.
pub open spec fn pushed_all(m: StreamModel, chan: int, values: Seq<i32>) -> StreamModel
    decreases values.len(),
{
    if values.len() == 0 {
        m
    } else {
        pushed_all(m, chan, values.drop_last()).push(chan, values.last())
    }
}

/// A block of samples goes to the end of its channel, and no other channel changes.
pub proof fn law_block_appended(m: StreamModel, chan: int, values: Seq<i32>)
    requires
        0 <= chan < m.chans.len(),
    ensures
        pushed_all(m, chan, values) == (StreamModel {
            chans: m.chans.update(chan, m.chans[chan] + values),
            ..m
        }),
    decreases values.len(),
{
    if values.len() == 0 {
        assert(m.chans[chan] + values =~= m.chans[chan]);
        assert(m.chans.update(chan, m.chans[chan]) =~= m.chans);
    } else {
        let rest = values.drop_last();
        law_block_appended(m, chan, rest);
        assert((m.chans[chan] + rest).push(values.last()) =~= m.chans[chan] + values);
        assert(pushed_all(m, chan, values).chans =~= m.chans.update(
            chan,
            m.chans[chan] + values,
        ));
    }
}

/// Floats, as a stream takes them.
pub open spec fn float_samples(values: Seq<u32>) -> Seq<i32> {
    Seq::new(values.len(), |i: int| values[i] as i32)
}

impl PcmModel {
    /// A valid state.
    pub open spec fn wf(self) -> bool {
        &&& known_bits(self.bits)
        &&& self.bits == 32 ==> self.output != OutputType::Aiff && self.output != OutputType::Flac
        &&& self.channels <= usize::MAX
        &&& 0 <= self.peak <= i32::MAX
        &&& self.bits != 32 ==> self.peak == peak_of(self.bits)
        &&& self.clip.fits()
        &&& self.buf.len() <= usize::MAX
        &&& self.stream matches Some(s) ==> {
            &&& self.output != OutputType::Stdout
            &&& s.0.wf()
            &&& s.0.kind == stream_kind(self.output)
            &&& s.0.bits == self.bits
            &&& s.0.chans.len() == self.channels
        }
    }

    /// Whether a stream can be opened: the numbers in its header can be computed, and
    /// a FLAC file can have the channels and the tag.
    pub open spec fn can_open(self, tag: Option<id3::Tag>) -> bool {
        &&& self.output == OutputType::Flac ==> {
            &&& self.channels <= u8::MAX
            &&& tag matches Some(t) ==> tag_convertible(t)
        }
        &&& self.output == OutputType::Wav ==> wav_header_fits(
            self.rate,
            self.bits,
            self.channels as usize,
        )
    }

    /// The stream that is opened. The tag of a FLAC file is not kept for its end.
    pub open spec fn new_stream(self, tag: Option<id3::Tag>) -> Option<
        (StreamModel, Option<id3::Tag>),
    > {
        Some(
            (
                StreamModel::fresh(stream_kind(self.output), self.bits, self.channels),
                if self.output == OutputType::Flac {
                    None
                } else {
                    tag
                },
            ),
        )
    }

    /// What the stream that is opened begins with.
    pub open spec fn begins_with(
        self,
        start: StreamStart,
        tag: Option<id3::Tag>,
        version: Seq<char>,
        unix_seconds: nat,
    ) -> bool {
        match start {
            StreamStart::Flac(s) => {
                &&& self.output == OutputType::Flac
                &&& s.rate == self.rate
                &&& s.bits_per_sample == self.bits
                &&& s.channels == self.channels
                &&& is_metadata_of(s.metadata, tag, version, unix_seconds)
            },
            StreamStart::Header(header) => {
                &&& self.output != OutputType::Flac
                &&& header@ == open_header(
                    stream_kind(self.output),
                    self.rate,
                    self.bits,
                    self.channels,
                )
            },
        }
    }

    /// The writer without an open stream.
    pub open spec fn stream_closed(self) -> PcmModel {
        PcmModel { stream: None, ..self }
    }

    /// What closing the stream leaves to write, with the tag; nothing if none is
    /// open.
    pub open spec fn stream_finish(self) -> Result<
        Option<(FinishModel, Option<id3::Tag>)>,
        StreamError,
    > {
        match self.stream {
            Some(s) => match s.0.finish() {
                Ok(f) => Ok(Some((f, s.1))),
                Err(e) => Err(e),
            },
            None => Ok(None),
        }
    }

    /// The samples that a stream takes for a block.
    pub open spec fn stream_samples(self, block: Block) -> Seq<i32> {
        match block {
            Block::Rounded(v) => quantized_all(self.peak, v@),
            Block::Floats(v) => float_samples(v@),
        }
    }

    /// Whether a block can be written for a channel: it holds the right kind of
    /// samples, the counts of clipped samples stay small enough, float samples
    /// for standard output have their place in the buffer, and a stream has the
    /// channel.
    pub open spec fn can_write(self, block: Block, chan: nat) -> bool {
        &&& block is Floats <==> self.bits == 32
        &&& block matches Block::Rounded(v) ==> self.clip.fits_all(self.peak, v@)
        &&& self.output == OutputType::Stdout ==> has_places(
            self.bits,
            self.channels,
            self.buf.len(),
            block.count(),
            chan,
        )
        &&& self.stream is Some && block.count() > 0 ==> chan < self.channels
    }

    /// The state after a block was written for a channel.
    pub open spec fn written(self, block: Block, chan: nat) -> PcmModel {
        PcmModel {
            clip: match block {
                Block::Rounded(v) => self.clip.after_all(self.peak, v@),
                Block::Floats(_) => self.clip,
            },
            buf: if self.output == OutputType::Stdout {
                match block {
                    Block::Rounded(v) => ints_packed(
                        self.bits,
                        self.channels,
                        self.buf,
                        chan,
                        quantized_all(self.peak, v@),
                    ),
                    Block::Floats(v) => floats_packed(self.channels, self.buf, chan, v@),
                }
            } else {
                self.buf
            },
            stream: match self.stream {
                Some(s) => Some(
                    (pushed_all(s.0, chan as int, self.stream_samples(block)), s.1),
                ),
                None => None,
            },
            ..self
        }
    }
}

/// What closing a stream says.
pub open spec fn closing_view(r: Result<Option<Finish>, StreamError>) -> Result<
    Option<(FinishModel, Option<id3::Tag>)>,
    StreamError,
> {
    match r {
        Ok(Some(f)) => match finish_view(Ok(f)) {
            Ok(m) => Ok(Some((m, f.tag))),
            Err(e) => Err(e),
        },
        Ok(None) => Ok(None),
        Err(e) => Err(e),
    }
}

/// Closing the stream closes it, whether that succeeds or fails: nothing else of
/// the writer changes, and closing it once more succeeds and does nothing. If no
/// stream is open, the first time does nothing either. If one is, what its end
/// gives is given, and its error is the error.
pub proof fn law_stream_closes_once(m: PcmModel)
    ensures
        m.stream_closed().stream is None,
        m.stream_closed().stream_finish() == Ok::<
            Option<(FinishModel, Option<id3::Tag>)>,
            StreamError,
        >(None),
        m.stream_closed().stream_closed() == m.stream_closed(),
        m.stream is None ==> m.stream_closed() == m && m.stream_finish() == Ok::<
            Option<(FinishModel, Option<id3::Tag>)>,
            StreamError,
        >(None),
        m.stream matches Some(s) ==> match s.0.finish() {
            Ok(f) => m.stream_finish() == Ok::<
                Option<(FinishModel, Option<id3::Tag>)>,
                StreamError,
            >(Some((f, s.1))),
            Err(e) => m.stream_finish() == Err::<
                Option<(FinishModel, Option<id3::Tag>)>,
                StreamError,
            >(e),
        },
{
}

/// The state of a new writer.
pub open spec fn new_model(
    bits: usize,
    output: OutputType,
    rate: u32,
    path: OutPath,
    frames_capacity: usize,
    channels_num: usize,
) -> PcmModel {
    PcmModel {
        bits,
        channels: channels_num as nat,
        rate,
        output,
        path: match path {
            OutPath::Resolved(p) => Some(p),
            _ => None,
        },
        peak: if bits == 32 {
            1
        } else {
            peak_of(bits)
        },
        clip: ClipModel::none(),
        buf: Seq::new(
            (frames_capacity * channels_num * sample_width(bits)) as nat,
            |i: int| 0u8,
        ),
        stream: None,
    }
}

/// The writer that takes PCM samples to their destination.
pub struct PcmWriter {
    bits: usize,
    channels_num: usize,
    rate: u32,
    bytes_per_sample: usize,
    output: OutputType,
    path: Option<std::path::PathBuf>,
    peak_level: i32,
    clip: ClipCounter,
    stdout_buf: Vec<u8>,
    stream_writer: Option<StreamWriter>,
}

impl View for PcmWriter {
    type V = PcmModel;

    closed spec fn view(&self) -> PcmModel {
        PcmModel {
            bits: self.bits,
            channels: self.channels_num as nat,
            rate: self.rate,
            output: self.output,
            path: self.path,
            peak: self.peak_level as int,
            clip: self.clip@,
            buf: self.stdout_buf@,
            stream: match self.stream_writer {
                Some(w) => Some((w.model(), w.tag())),
                None => None,
            },
        }
    }
}

/// Whether a buffer for some frames can be allocated.
pub open spec fn buffer_fits(frames: usize, channels_num: usize, width: nat) -> bool {
    frames * channels_num * width <= isize::MAX
}

/// Whether a buffer for some frames of samples with a bit depth can be allocated.
pub fn is_buffer_fitting(frames: usize, channels_num: usize, bits: usize) -> (r: bool)
    requires
        known_bits(bits),
    ensures
        r == buffer_fits(frames, channels_num, sample_width(bits)),
{
    let width: usize = width_of(bits);
    let ghost n = frames * channels_num;
    match frames.checked_mul(channels_num) {
        Some(samples) => match samples.checked_mul(width) {
            Some(size) => size <= isize::MAX as usize,
            None => false,
        },
        None => {
            assert(n <= n * width) by (nonlinear_arith)
                requires
                    width >= 1,
                    n >= 0,
            ;
            false
        },
    }
}

/// A buffer of zeros for some frames.
fn zero_buffer(frames: usize, channels_num: usize, width: usize) -> (r: Vec<u8>)
    requires
        width >= 1,
        buffer_fits(frames, channels_num, width as nat),
    ensures
        r@ == Seq::new((frames * channels_num * width) as nat, |i: int| 0u8),
{
    assert(frames * channels_num <= frames * channels_num * width) by (nonlinear_arith)
        requires
            width >= 1,
            frames >= 0,
            channels_num >= 0,
    ;
    let mut r: Vec<u8> = Vec::new();
    push_zeros(&mut r, frames * channels_num * width);
    assert(r@ =~= Seq::new((frames * channels_num * width) as nat, |i: int| 0u8));
    r
}

/// The magnitude of the lowest sample: what the bit depth gives, or for floats the
/// whole part of the scale factor.
fn peak_level(bits: usize, scale_floor: i32) -> (r: i32)
    ensures
        r == if bits == 32 {
            scale_floor as int
        } else {
            peak_of(bits)
        },
{
    if bits == 32 {
        scale_floor
    } else if bits == 16 {
        0x8000
    } else if bits == 20 {
        0x8_0000
    } else {
        0x80_0000
    }
}

impl PcmWriter {
    /// What every operation keeps.
    pub closed spec fn wf(&self) -> bool {
        &&& self@.wf()
        &&& self.bytes_per_sample == sample_width(self.bits)
        &&& self.stream_writer matches Some(w) ==> w.wf()
    }

    /// A valid writer has a valid state.
    pub proof fn wf_model(&self)
        requires
            self.wf(),
        ensures
            self@.wf(),
    {
    }

    /// Makes a writer that writes nowhere, for 32-bit floats: for level checks, or
    /// whenever no output is needed.
    pub fn new_sink(out_rate: u32, out_frames_capacity: usize, channels_num: usize) -> (r: Self)
        requires
            buffer_fits(out_frames_capacity, channels_num, 4),
        ensures
            r.wf(),
            r@ == (PcmModel {
                bits: 32,
                channels: channels_num as nat,
                rate: out_rate,
                output: OutputType::Stdout,
                path: None,
                peak: 0,
                clip: ClipModel::none(),
                buf: Seq::new((out_frames_capacity * channels_num * 4) as nat, |i: int| 0u8),
                stream: None,
            }),
    {
        PcmWriter {
            bits: 32,
            output: OutputType::Stdout,
            bytes_per_sample: 4,
            channels_num,
            rate: out_rate,
            peak_level: 0,
            stdout_buf: zero_buffer(out_frames_capacity, channels_num, 4),
            path: None,
            clip: ClipCounter::new(),
            stream_writer: None,
        }
    }

    /// Makes a writer.
    pub fn new(
        out_bits: usize,
        out_type: OutputType,
        out_rate: u32,
        out_path: OutPath,
        out_frames_capacity: usize,
        channels_num: usize,
    ) -> (r: Result<Self, PcmError>)
        requires
            new_error(out_bits, out_type, out_path) is None ==> buffer_fits(
                out_frames_capacity,
                channels_num,
                sample_width(out_bits),
            ),
        ensures
            match r {
                Ok(w) => {
                    &&& new_error(out_bits, out_type, out_path) is None
                    &&& w.wf()
                    &&& w@ == new_model(
                        out_bits,
                        out_type,
                        out_rate,
                        out_path,
                        out_frames_capacity,
                        channels_num,
                    )
                },
                Err(e) => new_error(out_bits, out_type, out_path) == Some(e@),
            },
    {
        if out_bits != 16 && out_bits != 20 && out_bits != 24 && out_bits != 32 {
            return Err(PcmError::BitDepth);
        }
        if out_type == OutputType::Stdout {
            match &out_path {
                OutPath::Absent => {},
                _ => {
                    return Err(PcmError::PathWithStdout);
                },
            }
        }
        if out_bits == 32 && out_type != OutputType::Stdout && out_type != OutputType::Wav
            && out_type != OutputType::Aifc {
            return Err(PcmError::FloatFormat);
        }
        let path: Option<std::path::PathBuf> = match out_path {
            OutPath::Absent => None,
            OutPath::Missing(p) => {
                return Err(PcmError::PathMissing(p));
            },
            OutPath::Unresolved(e) => {
                return Err(PcmError::PathUnresolved(e));
            },
            OutPath::Resolved(p) => Some(p),
        };
        let width: usize = width_of(out_bits);
        let w = PcmWriter {
            bits: out_bits,
            output: out_type,
            bytes_per_sample: width,
            channels_num,
            rate: out_rate,
            peak_level: peak_level(out_bits, 1),
            stdout_buf: zero_buffer(out_frames_capacity, channels_num, width),
            path,
            clip: ClipCounter::new(),
            stream_writer: None,
        };
        Ok(w)
    }

    /// Sets the magnitude of the lowest sample: what the bit depth gives, or for
    /// floats the whole part of the scale factor.
    pub fn set_scaling(&mut self, scale_floor: i32)
        requires
            old(self).wf(),
            scale_floor >= 0,
        ensures
            final(self).wf(),
            final(self)@ == (PcmModel {
                peak: if old(self)@.bits == 32 {
                    scale_floor as int
                } else {
                    peak_of(old(self)@.bits)
                },
                ..old(self)@
            }),
    {
        self.peak_level = peak_level(self.bits, scale_floor);
    }

    /// The sample rate.
    pub fn rate(&self) -> (r: u32)
        ensures
            r == self@.rate,
    {
        self.rate
    }

    /// The number of channels.
    pub fn channels_num(&self) -> (r: usize)
        ensures
            r == self@.channels,
    {
        self.channels_num
    }

    /// The number of runs of clipped samples so far.
    pub fn clips(&self) -> (r: i32)
        ensures
            r == self@.clip.clips,
    {
        self.clip.clips()
    }

    /// The bytes that one sample takes up.
    pub fn bytes_per_sample(&self) -> (r: usize)
        requires
            self.wf(),
        ensures
            r == sample_width(self@.bits),
    {
        self.bytes_per_sample
    }

    /// The bit depth.
    pub fn bits(&self) -> (r: usize)
        ensures
            r == self@.bits,
    {
        self.bits
    }

    /// The kind of output.
    pub fn output(&self) -> (r: OutputType)
        ensures
            r == self@.output,
    {
        self.output
    }

    /// The path to write to.
    pub fn path(&self) -> (r: &Option<std::path::PathBuf>)
        ensures
            *r == self@.path,
    {
        &self.path
    }

    /// Whether a stream to a file is open.
    pub fn has_open_stream(&self) -> (r: bool)
        ensures
            r == (self@.stream is Some),
    {
        self.stream_writer.is_some()
    }

    /// Forgets an open stream and the samples that wait in it.
    pub fn abort_stream(&mut self)
        requires
            old(self).wf(),
        ensures
            final(self).wf(),
            final(self)@ == old(self)@.stream_closed(),
    {
        self.stream_writer = None;
    }

    /// Makes the stream to a file and gives what it begins with, but leaves the one
    /// that may be open in its place. For standard output there is none. The
    /// program's version and the time go into the metadata of a FLAC file.
    pub fn prepare_stream(&self, tag: Option<id3::Tag>, version: &str, unix_seconds: u64) -> (r:
        Result<Option<(StreamWriter, StreamStart)>, StreamError>)
        requires
            self.wf(),
            self@.can_open(tag),
        ensures
            match r {
                Ok(None) => self@.output == OutputType::Stdout,
                Ok(Some((w, start))) => {
                    &&& self@.output != OutputType::Stdout
                    &&& w.wf()
                    &&& Some((w.model(), w.tag())) == self@.new_stream(tag)
                    &&& self@.begins_with(start, tag, version@, unix_seconds as nat)
                },
                Err(_) => false,
            },
    {
        let (w, start): (StreamWriter, StreamStart) = match self.output {
            OutputType::Flac => match FlacStreamWriter::open(
                self.rate,
                self.bits,
                self.channels_num,
                tag,
                version,
                unix_seconds,
            ) {
                Ok((w, start)) => (StreamWriter::Flac(w), StreamStart::Flac(start)),
                Err(e) => {
                    return Err(e);
                },
            },
            OutputType::Aiff => match AiffStreamWriter::open(
                self.rate,
                self.bits,
                self.channels_num,
                tag,
            ) {
                Ok((w, header)) => (StreamWriter::Aiff(w), StreamStart::Header(header)),
                Err(e) => {
                    return Err(e);
                },
            },
            OutputType::Aifc => match AifcStreamWriter::open(
                self.rate,
                self.bits,
                self.channels_num,
                tag,
            ) {
                Ok((w, header)) => (StreamWriter::Aifc(w), StreamStart::Header(header)),
                Err(e) => {
                    return Err(e);
                },
            },
            OutputType::Wav => match WavStreamWriter::open(
                self.rate,
                self.bits,
                self.channels_num,
                tag,
            ) {
                Ok((w, header)) => (StreamWriter::Wav(w), StreamStart::Header(header)),
                Err(e) => {
                    return Err(e);
                },
            },
            OutputType::Stdout => {
                return Ok(None);
            },
        };
        Ok(Some((w, start)))
    }

    /// Takes a stream that was made for this writer, in the place of the one that
    /// may be open.
    pub fn install_stream(&mut self, w: StreamWriter)
        requires
            old(self).wf(),
            old(self)@.output != OutputType::Stdout,
            w.wf(),
            w.model() == StreamModel::fresh(
                stream_kind(old(self)@.output),
                old(self)@.bits,
                old(self)@.channels,
            ),
        ensures
            final(self).wf(),
            final(self)@ == (PcmModel { stream: Some((w.model(), w.tag())), ..old(self)@ }),
    {
        proof {
            w.wf_model();
        }
        self.stream_writer = Some(w);
    }

    /// Opens the stream to a file; gives what it begins with. For standard output
    /// there is none.
    pub fn open_stream(&mut self, tag: Option<id3::Tag>, version: &str, unix_seconds: u64) -> (r:
        Result<Option<StreamStart>, StreamError>)
        requires
            old(self).wf(),
            old(self)@.can_open(tag),
        ensures
            final(self).wf(),
            final(self)@ == (PcmModel {
                stream: if old(self)@.output == OutputType::Stdout {
                    old(self)@.stream
                } else {
                    old(self)@.new_stream(tag)
                },
                ..old(self)@
            }),
            match r {
                Ok(None) => old(self)@.output == OutputType::Stdout,
                Ok(Some(start)) => {
                    &&& old(self)@.output != OutputType::Stdout
                    &&& old(self)@.begins_with(start, tag, version@, unix_seconds as nat)
                },
                Err(_) => false,
            },
    {
        match self.prepare_stream(tag, version, unix_seconds) {
            Ok(Some((w, start))) => {
                self.install_stream(w);
                Ok(Some(start))
            },
            Ok(None) => Ok(None),
            Err(e) => Err(e),
        }
    }

    /// The frames that an open stream is to write now, if there are enough.
    pub fn flush_stream(&self) -> (r: Result<Option<Batch>, StreamError>)
        requires
            self.wf(),
        ensures
            flush_view(r) == match self@.stream {
                Some(s) => s.0.flush(),
                None => Ok(None),
            },
    {
        match &self.stream_writer {
            Some(w) => w.flush_ready(),
            None => Ok(None),
        }
    }

    /// Drops the first `frames` frames of an open stream, which have been written.
    pub fn stream_batch_written(&mut self, frames: usize)
        requires
            old(self).wf(),
            old(self)@.stream matches Some(s) && {
                &&& frames <= s.0.pending()
                &&& s.0.batch(frames as nat) is Ok
            },
        ensures
            final(self).wf(),
            final(self)@ == (PcmModel {
                stream: match old(self)@.stream {
                    Some(s) => Some((s.0.drained(frames as nat), s.1)),
                    None => None,
                },
                ..old(self)@
            }),
    {
        match &mut self.stream_writer {
            Some(w) => w.batch_written(frames),
            None => {},
        }
        proof {
            self.stream_writer->0.wf_model();
        }
    }

    /// Closes an open stream; gives what is left to write.
    pub fn finalize_stream(&mut self) -> (r: Result<Option<Finish>, StreamError>)
        requires
            old(self).wf(),
        ensures
            final(self).wf(),
            final(self)@ == old(self)@.stream_closed(),
            closing_view(r) == old(self)@.stream_finish(),
    {
        match self.stream_writer.take() {
            Some(w) => match w.finalize() {
                Ok(f) => Ok(Some(f)),
                Err(e) => Err(e),
            },
            None => Ok(None),
        }
    }

    /// Counts a sample that was below the range, above it, or neither.
    pub fn update_clip_stats(&mut self, low: bool, high: bool)
        requires
            old(self).wf(),
            old(self)@.clip.update(low, high).fits(),
        ensures
            final(self).wf(),
            final(self)@ == (PcmModel {
                clip: old(self)@.clip.update(low, high),
                ..old(self)@
            }),
    {
        self.clip.update_clip_stats(low, high);
    }

    /// Brings a rounded sample into range, and counts it if it was not.
    pub fn quantize(&mut self, rounded: i64) -> (r: i32)
        requires
            old(self).wf(),
            old(self)@.clip.after(old(self)@.peak, truncated(rounded) as int).fits(),
        ensures
            final(self).wf(),
            r == clamped(old(self)@.peak, truncated(rounded) as int),
            final(self)@ == (PcmModel {
                clip: old(self)@.clip.after(old(self)@.peak, truncated(rounded) as int),
                ..old(self)@
            }),
    {
        self.clip.quantize(self.peak_level, rounded)
    }

    /// Puts a float sample in the buffer for standard output, and moves on.
    pub fn pack_float(&mut self, offset: &mut usize, sample: u32)
        requires
            old(self).wf(),
            *old(offset) + 4 <= old(self)@.buf.len(),
        ensures
            final(self).wf(),
            final(self)@ == (PcmModel {
                buf: overwrite(
                    old(self)@.buf,
                    *old(offset) as nat,
                    le_bytes(sample as int, 4),
                ),
                ..old(self)@
            }),
            *final(offset) == *old(offset) + 4,
    {
        put_word(&mut self.stdout_buf, *offset, sample, 4);
        *offset = *offset + 4;
    }

    /// Puts an integer sample in the buffer for standard output, and moves on. If
    /// there is no room for it, or the samples are no integers, nothing happens.
    pub fn pack_int(&mut self, offset: &mut usize, value: i32)
        requires
            old(self).wf(),
            *old(offset) + sample_width(old(self)@.bits) <= usize::MAX,
        ensures
            final(self).wf(),
            final(self)@ == (PcmModel {
                buf: if old(self)@.bits == 32 {
                    old(self)@.buf
                } else {
                    int_packed(old(self)@.bits, old(self)@.buf, *old(offset) as nat, value)
                },
                ..old(self)@
            }),
            *final(offset) == if old(self)@.bits != 32 && *old(offset) + sample_width(
                old(self)@.bits,
            ) <= old(self)@.buf.len() {
                *old(offset) + sample_width(old(self)@.bits)
            } else {
                *old(offset) as int
            },
    {
        if *offset + self.bytes_per_sample > self.stdout_buf.len() || self.bits == 32 {
            return;
        }
        pack_one(&mut self.stdout_buf, self.bits, *offset, value);
        *offset = *offset + self.bytes_per_sample;
    }

    /// Puts the float samples of one channel in the buffer for standard output.
    fn pack_floats(&mut self, chan: usize, values: &Vec<u32>)
        requires
            old(self).wf(),
            old(self)@.bits == 32,
            sample_offset(32, old(self)@.channels, chan as nat, values@.len()) <= usize::MAX,
            forall|s: nat|
                s < values@.len() ==> #[trigger] sample_offset(
                    32,
                    old(self)@.channels,
                    chan as nat,
                    s,
                ) + 4 <= old(self)@.buf.len(),
        ensures
            final(self).wf(),
            final(self)@ == (PcmModel {
                buf: floats_packed(old(self)@.channels, old(self)@.buf, chan as nat, values@),
                ..old(self)@
            }),
    {
        let ghost m = self@;
        let ghost c = chan as nat;
        let n: usize = values.len();
        proof {
            lemma_next_offset(32, m.channels, c, 0);
            lemma_offsets_grow(32, m.channels, c, 0, n as nat);
        }
        let mut pcm_pos: usize = chan * self.bytes_per_sample;
        let mut s: usize = 0;
        assert(values@.take(0) =~= Seq::empty());
        while s < n
            invariant
                s <= n,
                n == values@.len(),
                c == chan,
                m.bits == 32,
                self.wf(),
                self@.buf.len() == m.buf.len(),
                sample_offset(32, m.channels, c, n as nat) <= usize::MAX,
                forall|s: nat|
                    s < n ==> #[trigger] sample_offset(32, m.channels, c, s) + 4 <= m.buf.len(),
                pcm_pos == sample_offset(32, m.channels, c, s as nat),
                self@ == (PcmModel {
                    buf: floats_packed(m.channels, m.buf, c, values@.take(s as int)),
                    ..m
                }),
            decreases n - s,
        {
            proof {
                lemma_next_offset(32, m.channels, c, s as nat);
                lemma_offsets_grow(32, m.channels, c, (s + 1) as nat, n as nat);
                assert(values@.take(s + 1).drop_last() =~= values@.take(s as int));
                assert(values@.take(s + 1).last() == values@[s as int]);
            }
            let mut out_idx: usize = pcm_pos;
            self.pack_float(&mut out_idx, values[s]);
            pcm_pos = pcm_pos + self.channels_num * self.bytes_per_sample;
            s = s + 1;
        }
        assert(values@.take(n as int) =~= values@);
    }

    /// Hands integer samples of one channel to the open stream, if there is one.
    fn push_ints(&mut self, chan: usize, values: &Vec<i32>)
        requires
            old(self).wf(),
            old(self)@.bits != 32,
            old(self)@.stream is Some && values@.len() > 0 ==> chan < old(self)@.channels,
        ensures
            final(self).wf(),
            final(self)@ == (PcmModel {
                stream: match old(self)@.stream {
                    Some(s) => Some((pushed_all(s.0, chan as int, values@), s.1)),
                    None => None,
                },
                ..old(self)@
            }),
    {
        let ghost m = self@;
        let n: usize = values.len();
        let mut s: usize = 0;
        assert(values@.take(0) =~= Seq::empty());
        while s < n
            invariant
                s <= n,
                n == values@.len(),
                self.wf(),
                m.bits != 32,
                m.stream is Some && n > 0 ==> chan < m.channels,
                self@ == (PcmModel {
                    stream: match m.stream {
                        Some(w) => Some((pushed_all(w.0, chan as int, values@.take(s as int)), w.1)),
                        None => None,
                    },
                    ..m
                }),
            decreases n - s,
        {
            proof {
                assert(values@.take(s + 1).drop_last() =~= values@.take(s as int));
                assert(values@.take(s + 1).last() == values@[s as int]);
            }
            match &mut self.stream_writer {
                Some(w) => w.push_sample(chan, values[s]),
                None => {},
            }
            proof {
                if self.stream_writer is Some {
                    self.stream_writer->0.wf_model();
                }
            }
            s = s + 1;
        }
        assert(values@.take(n as int) =~= values@);
    }

    /// Hands float samples of one channel to the open stream, if there is one.
    fn push_floats(&mut self, chan: usize, values: &Vec<u32>)
        requires
            old(self).wf(),
            old(self)@.bits == 32,
            old(self)@.stream is Some && values@.len() > 0 ==> chan < old(self)@.channels,
        ensures
            final(self).wf(),
            final(self)@ == (PcmModel {
                stream: match old(self)@.stream {
                    Some(s) => Some((pushed_all(s.0, chan as int, float_samples(values@)), s.1)),
                    None => None,
                },
                ..old(self)@
            }),
    {
        let ghost m = self@;
        let ghost all = float_samples(values@);
        let n: usize = values.len();
        let mut s: usize = 0;
        assert(all.take(0) =~= Seq::empty());
        while s < n
            invariant
                s <= n,
                n == values@.len(),
                all == float_samples(values@),
                self.wf(),
                m.bits == 32,
                m.stream is Some && n > 0 ==> chan < m.channels,
                self@ == (PcmModel {
                    stream: match m.stream {
                        Some(w) => Some((pushed_all(w.0, chan as int, all.take(s as int)), w.1)),
                        None => None,
                    },
                    ..m
                }),
            decreases n - s,
        {
            proof {
                assert(all.take(s + 1).drop_last() =~= all.take(s as int));
                assert(all.take(s + 1).last() == values@[s as int] as i32);
            }
            match &mut self.stream_writer {
                Some(w) => w.push_sample_f32(chan, values[s]),
                None => {},
            }
            proof {
                if self.stream_writer is Some {
                    self.stream_writer->0.wf_model();
                }
            }
            s = s + 1;
        }
        assert(all.take(n as int) =~= all);
    }

    /// Whether a block can be written for a channel.
    pub fn is_writable(&self, block: &Block, chan: usize) -> (r: bool)
        requires
            self.wf(),
        ensures
            r == self@.can_write(*block, chan as nat),
    {
        let count: usize = match block {
            Block::Rounded(v) => {
                if self.bits == 32 || !self.clip.has_room(self.peak_level, v) {
                    return false;
                }
                v.len()
            },
            Block::Floats(v) => {
                if self.bits != 32 {
                    return false;
                }
                v.len()
            },
        };
        if self.stream_writer.is_some() && count > 0 && chan >= self.channels_num {
            return false;
        }
        if self.output == OutputType::Stdout {
            return stdout_room(
                self.bits,
                self.channels_num,
                self.stdout_buf.len(),
                count,
                chan,
            );
        }
        true
    }

    /// Writes one channel's block of samples: to the buffer for standard output,
    /// interleaved with the other channels, or to the open stream.
    pub fn write_to_buffer(&mut self, block: &Block, chan: usize)
        requires
            old(self).wf(),
            old(self)@.can_write(*block, chan as nat),
        ensures
            final(self).wf(),
            final(self)@ == old(self)@.written(*block, chan as nat),
    {
        match block {
            Block::Rounded(v) => {
                let q: Vec<i32> = quantize_block(&mut self.clip, self.peak_level, v);
                assert(v@.take(v@.len() as int) =~= v@);
                if self.output == OutputType::Stdout {
                    pack_channel(
                        &mut self.stdout_buf,
                        self.bits,
                        self.channels_num,
                        chan,
                        &q,
                    );
                } else {
                    self.push_ints(chan, &q);
                }
            },
            Block::Floats(v) => {
                if self.output == OutputType::Stdout {
                    self.pack_floats(chan, v);
                } else {
                    self.push_floats(chan, v);
                }
            },
        }
        assert(self@ =~= old(self)@.written(*block, chan as nat));
    }

    /// The bytes to write to standard output: the first `pcm_bytes` of the buffer.
    /// None if they are none, or more than there are.
    pub fn write_stdout(&self, pcm_bytes: usize) -> (r: Option<&[u8]>)
        ensures
            match r {
                Some(b) => 0 < pcm_bytes <= self@.buf.len() && b@ == self@.buf.take(
                    pcm_bytes as int,
                ),
                None => pcm_bytes == 0 || pcm_bytes > self@.buf.len(),
            },
    {
        if pcm_bytes == 0 || pcm_bytes > self.stdout_buf.len() {
            return None;
        }
        let b: &[u8] = vstd::slice::slice_subrange(self.stdout_buf.as_slice(), 0, pcm_bytes);
        assert(b@ =~= self.stdout_buf@.take(pcm_bytes as int));
        Some(b)
    }
}

/// Puts an integer sample in a buffer, if there is room for it.
pub fn pack_one(buf: &mut Vec<u8>, bits: usize, offset: usize, value: i32)
    requires
        known_bits(bits),
        offset + sample_width(bits) <= usize::MAX,
    ensures
        final(buf)@ == int_packed(bits, old(buf)@, offset as nat, value),
{
    let width: usize = width_of(bits);
    if offset + width > buf.len() {
        return;
    }
    let word: u32 = if bits == 20 {
        let shifted: u32 = word_of(value).wrapping_mul(16);
        proof {
            lemma_bytes_congruent(16 * value, shifted as int, 3);
        }
        shifted
    } else {
        word_of(value)
    };
    put_word(buf, offset, word, width);
}

/// Puts the integer samples of one channel in a buffer, interleaved with those of
/// the others, as far as there is room.
pub fn pack_channel(
    buf: &mut Vec<u8>,
    bits: usize,
    channels_num: usize,
    chan: usize,
    values: &Vec<i32>,
)
    requires
        known_bits(bits),
        bits != 32,
        has_places(bits, channels_num as nat, old(buf)@.len(), values@.len(), chan as nat),
    ensures
        final(buf)@ == ints_packed(
            bits,
            channels_num as nat,
            old(buf)@,
            chan as nat,
            values@,
        ),
        final(buf)@.len() == old(buf)@.len(),
{
    let ghost start = buf@;
    let ghost channels = channels_num as nat;
    let ghost c = chan as nat;
    let n: usize = values.len();
    let width: usize = width_of(bits);
    proof {
        lemma_next_offset(bits, channels, c, 0);
        lemma_offsets_grow(bits, channels, c, 0, n as nat);
    }
    let mut pcm_pos: usize = chan * width;
    let mut s: usize = 0;
    assert(values@.take(0) =~= Seq::empty());
    while s < n
        invariant
            s <= n,
            n == values@.len(),
            c == chan,
            channels == channels_num,
            known_bits(bits),
            bits != 32,
            width == sample_width(bits),
            has_places(bits, channels, start.len(), n as nat, c),
            pcm_pos == sample_offset(bits, channels, c, s as nat),
            buf@.len() == start.len(),
            buf@ == ints_packed(bits, channels, start, c, values@.take(s as int)),
        decreases n - s,
    {
        proof {
            lemma_next_offset(bits, channels, c, s as nat);
            lemma_offsets_grow(bits, channels, c, (s + 1) as nat, n as nat);
            assert(values@.take(s + 1).drop_last() =~= values@.take(s as int));
            assert(values@.take(s + 1).last() == values@[s as int]);
        }
        pack_one(buf, bits, pcm_pos, values[s]);
        pcm_pos = pcm_pos + channels_num * width;
        s = s + 1;
    }
    assert(values@.take(n as int) =~= values@);
}

/// Whether samples of one channel have places on standard output.
pub open spec fn has_places(
    bits: usize,
    channels: nat,
    size: nat,
    count: nat,
    chan: nat,
) -> bool {
    &&& sample_offset(bits, channels, chan, count) <= usize::MAX
    &&& forall|s: nat|
        s < count ==> {
            let end = #[trigger] sample_offset(bits, channels, chan, s) + sample_width(bits);
            end <= usize::MAX && (bits == 32 ==> end <= size)
        }
}

/// Whether samples of one channel have places on standard output.
fn stdout_room(
    bits: usize,
    channels_num: usize,
    size: usize,
    count: usize,
    chan: usize,
) -> (r: bool)
    requires
        known_bits(bits),
    ensures
        r == has_places(bits, channels_num as nat, size as nat, count as nat, chan as nat),
{
    let ghost channels = channels_num as nat;
    let ghost c = chan as nat;
    let w: usize = width_of(bits);
    proof {
        lemma_next_offset(bits, channels, c, 0);
        lemma_offsets_grow(bits, channels, c, 0, count as nat);
    }
    let first: usize = match chan.checked_mul(w) {
        Some(first) => first,
        None => {
            return false;
        },
    };
    if count == 0 {
        return true;
    }
    let last: usize = count - 1;
    let ghost f = (channels * sample_width(bits)) as int;
    proof {
        lemma_next_offset(bits, channels, c, last as nat);
        assert(f <= count * f) by (nonlinear_arith)
            requires
                count >= 1,
                f >= 0,
        ;
        assert(last * f + f == count * f) by (nonlinear_arith)
            requires
                last + 1 == count,
        ;
    }
    let frame: usize = match channels_num.checked_mul(w) {
        Some(frame) => frame,
        None => {
            return false;
        },
    };
    let span: usize = match frame.checked_mul(last) {
        Some(span) => span,
        None => {
            assert(frame * last == last * f) by (nonlinear_arith)
                requires
                    frame == f,
            ;
            return false;
        },
    };
    assert(span == last * f) by (nonlinear_arith)
        requires
            span == frame * last,
            frame == f,
    ;
    let start: usize = match first.checked_add(span) {
        Some(start) => start,
        None => {
            return false;
        },
    };
    assert(start == sample_offset(bits, channels, c, last as nat));
    match start.checked_add(frame) {
        Some(_) => {},
        None => {
            return false;
        },
    }
    let end: usize = match start.checked_add(w) {
        Some(end) => end,
        None => {
            return false;
        },
    };
    proof {
        assert forall|s: nat| s < count implies #[trigger] sample_offset(bits, channels, c, s)
            <= start by {
            lemma_offsets_grow(bits, channels, c, s, last as nat);
        }
    }
    bits != 32 || end <= size
}

/// The place of the next sample of a channel.
proof fn lemma_next_offset(bits: usize, channels: nat, chan: nat, s: nat)
    ensures
        sample_offset(bits, channels, chan, 0) == chan * sample_width(bits),
        sample_offset(bits, channels, chan, s + 1) == sample_offset(bits, channels, chan, s)
            + channels * sample_width(bits),
{
    let f = (channels * sample_width(bits)) as int;
    assert(0 * f == 0) by (nonlinear_arith);
    assert((s + 1) * f == s * f + f) by (nonlinear_arith);
}

/// Samples further on have higher places.
proof fn lemma_offsets_grow(bits: usize, channels: nat, chan: nat, s: nat, t: nat)
    requires
        s <= t,
    ensures
        sample_offset(bits, channels, chan, s) <= sample_offset(bits, channels, chan, t),
{
    let f = (channels * sample_width(bits)) as int;
    assert(s * f <= t * f) by (nonlinear_arith)
        requires
            s <= t,
            f >= 0,
    ;
}

/// Puts the low `n` bytes of a word in a buffer, least significant first.
fn put_word(buf: &mut Vec<u8>, offset: usize, word: u32, n: usize)
    requires
        n <= 4,
        offset + n <= old(buf)@.len(),
    ensures
        final(buf)@ == overwrite(old(buf)@, offset as nat, le_bytes(word as int, n as nat)),
{
    let ghost start = buf@;
    let total: usize = buf.len();
    let mut k: usize = 0;
    assert(buf@ =~= overwrite(start, offset as nat, le_bytes(word as int, 0)));
    while k < n
        invariant
            k <= n <= 4,
            offset + n <= start.len(),
            start.len() == total,
            buf@.len() == start.len(),
            buf@ == overwrite(start, offset as nat, le_bytes(word as int, k as nat)),
        decreases n - k,
    {
        buf.set(offset + k, word_byte(word, k));
        k = k + 1;
        assert(buf@ =~= overwrite(start, offset as nat, le_bytes(word as int, k as nat)));
    }
}

} // verus!
