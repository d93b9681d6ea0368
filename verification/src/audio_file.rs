//! Streaming writers: they encode samples one batch at a time as they arrive,
//! instead of keeping a whole track in memory.
//!
//! A writer says what is to be written and where; it does not touch a file
//! itself. Its owner performs the writes and tells it which batches reached the
//! file.
//!
//! The course of a stream:
//! 1. `open` gives the header that the file begins with.
//! 2. `push_sample` takes the samples as they are produced.
//! 3. `flush_ready` gives a batch once enough samples have piled up. When it is
//!    written, `batch_written` drops it from memory.
//! 4. `finalize` gives the remaining samples, and the sizes to fill in in the
//!    header.
use vstd::prelude::*;
use crate::container::{
    aifc_open_header, aifc_patches, aiff_open_header, aiff_patches, lemma_aifc_lengths,
    open_header, patch_views, wav_header_fits, wav_open_header, wav_patches, width_of, Patch,
    StreamError,
};
use crate::cover::{covers_of, picture_views, pictures_of, CoverPicture};
use crate::id3_frames::tag_frames;
use crate::samples::{
    channel_views, drain_frames, encode_frames, known_bits, lemma_min_len, min_frames,
    new_scratch, StreamKind,
};
use crate::stream_model::{
    lemma_frames_take_bytes, FinishModel, StreamModel, AIFC_FLUSH_FRAMES, AIFF_FLUSH_FRAMES,
    FLAC_FLUSH_FRAMES, WAV_FLUSH_FRAMES,
};
use crate::tag_util::{
    comment_fields, comment_vendor, field_texts, id3_to_vorbis, tag_convertible, tag_fields,
    vendor_text,
};

verus! {

/// Frames to append to the file.
pub struct Batch {
    /// How many frames they are
    pub frames: usize,
    /// Their bytes
    pub bytes: Vec<u8>,
}

/// What is left to do when a stream ends.
pub struct Finish {
    /// Bytes to append to the file
    pub data: Vec<u8>,
    /// The changes to make to its header after that, if it is not too large
    pub patches: Result<Vec<Patch>, StreamError>,
    /// The tag to write to the file at last
    pub tag: Option<id3::Tag>,
}

/// What a flush says.
pub open spec fn flush_view(r: Result<Option<Batch>, StreamError>) -> Result<
    Option<(nat, Seq<u8>)>,
    StreamError,
> {
    match r {
        Ok(Some(b)) => Ok(Some((b.frames as nat, b.bytes@))),
        Ok(None) => Ok(None),
        Err(e) => Err(e),
    }
}

/// What the end of a stream says, but for the tag.
pub open spec fn finish_view(r: Result<Finish, StreamError>) -> Result<FinishModel, StreamError> {
    match r {
        Ok(f) => Ok(
            FinishModel {
                data: f.data@,
                patches: match f.patches {
                    Ok(p) => Ok(patch_views(p@)),
                    Err(e) => Err(e),
                },
            },
        ),
        Err(e) => Err(e),
    }
}

/// A streaming sample writer for one file format.
pub trait StreamingWriter: Sized {
    /// The state of the stream.
    spec fn model(&self) -> StreamModel;

    /// The tag that is written when the stream ends.
    spec fn tag(&self) -> Option<id3::Tag>;

    /// What every operation keeps.
    spec fn wf(&self) -> bool;

    /// A valid writer has a valid state.
    proof fn wf_model(&self)
        requires
            self.wf(),
        ensures
            self.model().wf(),
    ;

    /// Takes one quantized sample for channel `chan`.
    fn push_sample(&mut self, chan: usize, sample: i32)
        requires
            old(self).wf(),
            !old(self).model().is_float(),
            chan < old(self).model().chans.len(),
        ensures
            final(self).wf(),
            final(self).model() == old(self).model().push(chan as int, sample),
            final(self).tag() == old(self).tag(),
    ;

    /// The frames to write now: all that wait, if they are enough.
    fn flush_ready(&self) -> (r: Result<Option<Batch>, StreamError>)
        requires
            self.wf(),
        ensures
            flush_view(r) == self.model().flush(),
    ;

    /// Drops the first `frames` frames, which have been written.
    fn batch_written(&mut self, frames: usize)
        requires
            old(self).wf(),
            frames <= old(self).model().pending(),
            old(self).model().batch(frames as nat) is Ok,
        ensures
            final(self).wf(),
            final(self).model() == old(self).model().drained(frames as nat),
            final(self).tag() == old(self).tag(),
    ;

    /// All whole frames that wait, and the sizes to fill in in the header.
    fn finalize(self) -> (r: Result<Finish, StreamError>)
        requires
            self.wf(),
        ensures
            finish_view(r) == self.model().finish(),
            r matches Ok(f) ==> f.tag == self.tag(),
    ;
}

/// A streaming sample writer for a format that has float samples.
pub trait FloatStreamingWriter: StreamingWriter {
    /// Takes one 32-bit float sample for channel `chan`, given by its bit
    /// pattern.
    fn push_sample_f32(&mut self, chan: usize, sample: u32)
        requires
            old(self).wf(),
            old(self).model().is_float(),
            chan < old(self).model().chans.len(),
        ensures
            final(self).wf(),
            final(self).model() == old(self).model().push(chan as int, sample as i32),
            final(self).tag() == old(self).tag(),
    ;
}

/// Appends one sample to the queue of a channel.
fn push_to(scratch: &mut Vec<Vec<i32>>, chan: usize, sample: i32)
    requires
        chan < old(scratch)@.len(),
    ensures
        channel_views(final(scratch)@) == channel_views(old(scratch)@).update(
            chan as int,
            channel_views(old(scratch)@)[chan as int].push(sample),
        ),
{
    let ghost before = scratch@;
    scratch[chan].push(sample);
    assert(channel_views(scratch@) =~= channel_views(before).update(
        chan as int,
        channel_views(before)[chan as int].push(sample),
    ));
}

/// The sum of two numbers, or the greatest number there is.
fn saturated_sum(a: u64, b: u64) -> (r: u64)
    ensures
        r == if a + b <= u64::MAX {
            a + b
        } else {
            u64::MAX as int
        },
{
    match a.checked_add(b) {
        Some(sum) => sum,
        None => u64::MAX,
    }
}

/// Whether `counter` counts frames: it stops at the greatest number there is.
pub closed spec fn counts(counter: u64, frames: nat) -> bool {
    counter == if frames <= u64::MAX {
        frames as int
    } else {
        u64::MAX as int
    }
}

/// The bytes that `frames` frames take up, if that is a number of 64 bits.
fn data_bytes(frames: u64, channels_num: usize, width: usize) -> (r: Option<u64>)
    requires
        width > 0,
    ensures
        match r {
            Some(d) => d == frames * (channels_num * width),
            None => frames * (channels_num * width) > u64::MAX,
        },
{
    let ghost f: int = frames as int;
    let ghost c: int = channels_num as int;
    let ghost w: int = width as int;
    assert(f * (c * w) == (f * c) * w) by (nonlinear_arith);
    match frames.checked_mul(channels_num as u64) {
        Some(samples) => samples.checked_mul(width as u64),
        None => {
            assert((f * c) * w >= f * c) by (nonlinear_arith)
                requires
                    f >= 0,
                    c >= 0,
                    w >= 1,
            ;
            None
        },
    }
}


/// How a FLAC encoder is to be started.
pub struct FlacStart {
    pub rate: u32,
    pub bits_per_sample: u32,
    pub channels: u8,
    /// The comment and the pictures to put before the samples
    pub metadata: Option<(flac_codec::metadata::VorbisComment, Vec<CoverPicture>)>,
}

/// The bit depth of a FLAC file: at most 24.
pub open spec fn flac_bits(bits: usize) -> usize {
    if bits > 24 {
        24
    } else {
        bits
    }
}

/// The metadata of a FLAC file with a tag.
pub open spec fn is_metadata_of(
    m: Option<(flac_codec::metadata::VorbisComment, Vec<CoverPicture>)>,
    tag: Option<id3::Tag>,
    version: Seq<char>,
    unix_seconds: nat,
) -> bool {
    match (m, tag) {
        (Some(m), Some(t)) => {
            &&& comment_vendor(m.0) == vendor_text(version, unix_seconds)
            &&& comment_fields(m.0) == field_texts(tag_fields(t))
            &&& picture_views(m.1@) == pictures_of(covers_of(tag_frames(t)))
        },
        (None, None) => true,
        _ => false,
    }
}

/// The writer for FLAC files. Its bytes are what the FLAC encoder is fed with.
pub struct FlacStreamWriter {
    scratch: Vec<Vec<i32>>,
    bits: usize,
    written: Ghost<nat>,
}

impl FlacStreamWriter {
    /// The stream of this writer is a FLAC stream, whatever was written to it.
    pub proof fn law_kind(&self)
        ensures
            self.model().kind == StreamKind::Flac,
    {
    }

    /// Opens a stream; gives what the encoder is to be started with. Metadata come
    /// before all samples, so the tag is converted here.
    pub fn open(
        rate: u32,
        bits: usize,
        channels_num: usize,
        tag: Option<id3::Tag>,
        version: &str,
        unix_seconds: u64,
    ) -> (r: Result<(Self, FlacStart), StreamError>)
        requires
            flac_bits(bits) == 16 || flac_bits(bits) == 20 || flac_bits(bits) == 24 ==> {
                &&& channels_num <= u8::MAX
                &&& tag matches Some(t) ==> tag_convertible(t)
            },
        ensures
            match r {
                Ok((w, start)) => {
                    &&& flac_bits(bits) == 16 || flac_bits(bits) == 20 || flac_bits(bits) == 24
                    &&& w.wf()
                    &&& w.model() == StreamModel::fresh(
                        StreamKind::Flac,
                        flac_bits(bits),
                        channels_num as nat,
                    )
                    &&& w.tag() is None
                    &&& start.rate == rate
                    &&& start.bits_per_sample == flac_bits(bits)
                    &&& start.channels == channels_num
                    &&& is_metadata_of(start.metadata, tag, version@, unix_seconds as nat)
                },
                Err(e) => !(flac_bits(bits) == 16 || flac_bits(bits) == 20 || flac_bits(bits)
                    == 24) && e == StreamError::FlacBits,
            },
    {
        let depth: usize = if bits > 24 {
            24
        } else {
            bits
        };
        if depth != 16 && depth != 20 && depth != 24 {
            return Err(StreamError::FlacBits);
        }
        let metadata: Option<(flac_codec::metadata::VorbisComment, Vec<CoverPicture>)> =
            match &tag {
            Some(t) => Some(id3_to_vorbis(t, version, unix_seconds)),
            None => None,
        };
        let w = FlacStreamWriter {
            scratch: new_scratch(channels_num),
            bits: depth,
            written: Ghost(0),
        };
        assert(w.model() =~= StreamModel::fresh(StreamKind::Flac, depth, channels_num as nat));
        let start = FlacStart {
            rate,
            bits_per_sample: depth as u32,
            channels: channels_num as u8,
            metadata,
        };
        Ok((w, start))
    }
}

impl StreamingWriter for FlacStreamWriter {
    closed spec fn model(&self) -> StreamModel {
        StreamModel {
            kind: StreamKind::Flac,
            bits: self.bits,
            chans: channel_views(self.scratch@),
            written: self.written@,
        }
    }

    closed spec fn tag(&self) -> Option<id3::Tag> {
        None
    }

    closed spec fn wf(&self) -> bool {
        self.model().wf()
    }

    proof fn wf_model(&self) {
    }

    fn push_sample(&mut self, chan: usize, sample: i32) {
        push_to(&mut self.scratch, chan, sample);
        assert(self.model() =~= old(self).model().push(chan as int, sample));
    }

    fn flush_ready(&self) -> (r: Result<Option<Batch>, StreamError>) {
        let frames: usize = min_frames(&self.scratch);
        if frames < FLAC_FLUSH_FRAMES {
            return Ok(None);
        }
        let bytes: Vec<u8> = encode_frames(StreamKind::Flac, self.bits, &self.scratch, frames);
        Ok(Some(Batch { frames, bytes }))
    }

    fn batch_written(&mut self, frames: usize) {
        drain_frames(&mut self.scratch, frames);
        self.written = Ghost(self.written@ + frames as nat);
        assert(self.model() =~= old(self).model().drained(frames as nat));
    }

    fn finalize(self) -> (r: Result<Finish, StreamError>) {
        let frames: usize = min_frames(&self.scratch);
        let data: Vec<u8> = encode_frames(StreamKind::Flac, self.bits, &self.scratch, frames);
        let patches: Vec<Patch> = Vec::new();
        assert(patch_views(patches@) =~= Seq::empty());
        Ok(Finish { data, patches: Ok(patches), tag: None })
    }
}

/// The writer for AIFF files.
pub struct AiffStreamWriter {
    scratch: Vec<Vec<i32>>,
    bits: usize,
    frames_written: u64,
    written: Ghost<nat>,
    tag: Option<id3::Tag>,
}

impl AiffStreamWriter {
    /// The stream of this writer is an AIFF stream, whatever was written to it.
    pub proof fn law_kind(&self)
        ensures
            self.model().kind == StreamKind::Aiff,
    {
    }

    /// Opens a stream; the header has zeros in the place of the sizes.
    pub fn open(
        rate: u32,
        bits: usize,
        channels_num: usize,
        tag: Option<id3::Tag>,
    ) -> (r: Result<(Self, Vec<u8>), StreamError>)
        ensures
            match r {
                Ok((w, header)) => {
                    &&& (bits == 16 || bits == 20 || bits == 24)
                    &&& w.wf()
                    &&& w.model() == StreamModel::fresh(
                        StreamKind::Aiff,
                        bits,
                        channels_num as nat,
                    )
                    &&& w.tag() == tag
                    &&& header@ == open_header(StreamKind::Aiff, rate, bits, channels_num as nat)
                },
                Err(e) => !((bits == 16 || bits == 20 || bits == 24)) && e == StreamError::AiffBits,
            },
    {
        if bits != 16 && bits != 20 && bits != 24 {
            return Err(StreamError::AiffBits);
        }
        let header: Vec<u8> = aiff_open_header(rate, bits, channels_num);
        let w = AiffStreamWriter {
            scratch: new_scratch(channels_num),
            bits,
            frames_written: 0,
            written: Ghost(0),
            tag,
        };
        assert(w.model() =~= StreamModel::fresh(StreamKind::Aiff, bits, channels_num as nat));
        Ok((w, header))
    }
}

impl StreamingWriter for AiffStreamWriter {
    closed spec fn model(&self) -> StreamModel {
        StreamModel {
            kind: StreamKind::Aiff,
            bits: self.bits,
            chans: channel_views(self.scratch@),
            written: self.written@,
        }
    }

    closed spec fn tag(&self) -> Option<id3::Tag> {
        self.tag
    }

    closed spec fn wf(&self) -> bool {
        self.model().wf() && counts(self.frames_written, self.written@)
    }

    proof fn wf_model(&self) {
    }

    fn push_sample(&mut self, chan: usize, sample: i32) {
        push_to(&mut self.scratch, chan, sample);
        assert(self.model() =~= old(self).model().push(chan as int, sample));
    }

    fn flush_ready(&self) -> (r: Result<Option<Batch>, StreamError>) {
        let frames: usize = min_frames(&self.scratch);
        if frames < AIFF_FLUSH_FRAMES {
            return Ok(None);
        }
        let bytes: Vec<u8> = encode_frames(StreamKind::Aiff, self.bits, &self.scratch, frames);
        Ok(Some(Batch { frames, bytes }))
    }

    fn batch_written(&mut self, frames: usize) {
        drain_frames(&mut self.scratch, frames);
        self.frames_written = saturated_sum(self.frames_written, frames as u64);
        self.written = Ghost(self.written@ + frames as nat);
        assert(self.model() =~= old(self).model().drained(frames as nat));
    }

    fn finalize(self) -> (r: Result<Finish, StreamError>) {
        let frames: usize = min_frames(&self.scratch);
        let data: Vec<u8> = encode_frames(StreamKind::Aiff, self.bits, &self.scratch, frames);
        let total: u64 = saturated_sum(self.frames_written, frames as u64);
        proof {
            if self.scratch@.len() > 0 {
                lemma_frames_take_bytes(self.model(), self.model().total());
                lemma_frames_take_bytes(self.model(), total as nat);
            }
        }
        let size: Option<u64> = data_bytes(total, self.scratch.len(), width_of(self.bits));
        let patches: Result<Vec<Patch>, StreamError> = match size {
            Some(size) => if size > 0xffff_ffff {
                Err(StreamError::AiffChunkSize)
            } else if size > 0xffff_ffff - 46 {
                Err(StreamError::AiffFormSize)
            } else {
                Ok(aiff_patches(self.bits, total, size as u32))
            },
            None => Err(StreamError::AiffChunkSize),
        };
        Ok(Finish { data, patches, tag: self.tag })
    }
}

/// The writer for AIFC files. A bit depth of 32 stands for float samples.
pub struct AifcStreamWriter {
    scratch: Vec<Vec<i32>>,
    bits: usize,
    frames_written: u64,
    written: Ghost<nat>,
    tag: Option<id3::Tag>,
}

impl AifcStreamWriter {
    /// The stream of this writer is an AIFC stream, whatever was written to it.
    pub proof fn law_kind(&self)
        ensures
            self.model().kind == StreamKind::Aifc,
    {
    }

    /// Opens a stream; the header has zeros in the place of the sizes.
    pub fn open(
        rate: u32,
        bits: usize,
        channels_num: usize,
        tag: Option<id3::Tag>,
    ) -> (r: Result<(Self, Vec<u8>), StreamError>)
        ensures
            match r {
                Ok((w, header)) => {
                    &&& known_bits(bits)
                    &&& w.wf()
                    &&& w.model() == StreamModel::fresh(
                        StreamKind::Aifc,
                        bits,
                        channels_num as nat,
                    )
                    &&& w.tag() == tag
                    &&& header@ == open_header(StreamKind::Aifc, rate, bits, channels_num as nat)
                },
                Err(e) => !(known_bits(bits)) && e == StreamError::AifcBits,
            },
    {
        if bits != 16 && bits != 20 && bits != 24 && bits != 32 {
            return Err(StreamError::AifcBits);
        }
        let header: Vec<u8> = aifc_open_header(rate, bits, channels_num);
        let w = AifcStreamWriter {
            scratch: new_scratch(channels_num),
            bits,
            frames_written: 0,
            written: Ghost(0),
            tag,
        };
        assert(w.model() =~= StreamModel::fresh(StreamKind::Aifc, bits, channels_num as nat));
        Ok((w, header))
    }
}

impl StreamingWriter for AifcStreamWriter {
    closed spec fn model(&self) -> StreamModel {
        StreamModel {
            kind: StreamKind::Aifc,
            bits: self.bits,
            chans: channel_views(self.scratch@),
            written: self.written@,
        }
    }

    closed spec fn tag(&self) -> Option<id3::Tag> {
        self.tag
    }

    closed spec fn wf(&self) -> bool {
        self.model().wf() && counts(self.frames_written, self.written@)
    }

    proof fn wf_model(&self) {
    }

    fn push_sample(&mut self, chan: usize, sample: i32) {
        push_to(&mut self.scratch, chan, sample);
        assert(self.model() =~= old(self).model().push(chan as int, sample));
    }

    fn flush_ready(&self) -> (r: Result<Option<Batch>, StreamError>) {
        let frames: usize = min_frames(&self.scratch);
        if frames < AIFC_FLUSH_FRAMES {
            return Ok(None);
        }
        let bytes: Vec<u8> = encode_frames(StreamKind::Aifc, self.bits, &self.scratch, frames);
        Ok(Some(Batch { frames, bytes }))
    }

    fn batch_written(&mut self, frames: usize) {
        drain_frames(&mut self.scratch, frames);
        self.frames_written = saturated_sum(self.frames_written, frames as u64);
        self.written = Ghost(self.written@ + frames as nat);
        assert(self.model() =~= old(self).model().drained(frames as nat));
    }

    fn finalize(self) -> (r: Result<Finish, StreamError>) {
        let frames: usize = min_frames(&self.scratch);
        proof {
            lemma_aifc_lengths(0, self.bits, 0);
        }
        let data: Vec<u8> = encode_frames(StreamKind::Aifc, self.bits, &self.scratch, frames);
        let total: u64 = saturated_sum(self.frames_written, frames as u64);
        proof {
            if self.scratch@.len() > 0 {
                lemma_frames_take_bytes(self.model(), self.model().total());
                lemma_frames_take_bytes(self.model(), total as nat);
            }
        }
        let size: Option<u64> = data_bytes(total, self.scratch.len(), width_of(self.bits));
        let patches: Result<Vec<Patch>, StreamError> = match size {
            Some(size) => if size > 0xffff_ffff {
                Err(StreamError::AifcChunkSize)
            } else if size > 0xffff_ffff - 4088 {
                Err(StreamError::AifcFormSize)
            } else {
                Ok(aifc_patches(self.bits, total, size as u32))
            },
            None => Err(StreamError::AifcChunkSize),
        };
        Ok(Finish { data, patches, tag: self.tag })
    }
}

impl FloatStreamingWriter for AifcStreamWriter {
    fn push_sample_f32(&mut self, chan: usize, sample: u32) {
        push_to(&mut self.scratch, chan, sample as i32);
        assert(self.model() =~= old(self).model().push(chan as int, sample as i32));
    }
}

/// The writer for WAV files. A bit depth of 32 stands for float samples.
pub struct WavStreamWriter {
    scratch: Vec<Vec<i32>>,
    bits: usize,
    frames_written: u64,
    tag: Option<id3::Tag>,
}

impl WavStreamWriter {
    /// The stream of this writer is a WAV stream, whatever was written to it.
    pub proof fn law_kind(&self)
        ensures
            self.model().kind == StreamKind::Wav,
    {
    }

    /// Opens a stream; the header has zeros in the place of the sizes.
    pub fn open(
        rate: u32,
        bits: usize,
        channels_num: usize,
        tag: Option<id3::Tag>,
    ) -> (r: Result<(Self, Vec<u8>), StreamError>)
        requires
            known_bits(bits) ==> wav_header_fits(rate, bits, channels_num),
        ensures
            match r {
                Ok((w, header)) => {
                    &&& known_bits(bits)
                    &&& w.wf()
                    &&& w.model() == StreamModel::fresh(
                        StreamKind::Wav,
                        bits,
                        channels_num as nat,
                    )
                    &&& w.tag() == tag
                    &&& header@ == open_header(StreamKind::Wav, rate, bits, channels_num as nat)
                },
                Err(e) => !(known_bits(bits)) && e == StreamError::WavBits,
            },
    {
        if bits != 16 && bits != 20 && bits != 24 && bits != 32 {
            return Err(StreamError::WavBits);
        }
        let header: Vec<u8> = wav_open_header(rate, bits, channels_num);
        let w = WavStreamWriter {
            scratch: new_scratch(channels_num),
            bits,
            frames_written: 0,
            tag,
        };
        assert(w.model() =~= StreamModel::fresh(StreamKind::Wav, bits, channels_num as nat));
        Ok((w, header))
    }

    /// The size that the RIFF header of a file with `frames` frames gives, if that is
    /// a number of 64 bits.
    fn riff_size_for(&self, frames: u64) -> (r: Option<u64>)
        requires
            self.wf(),
        ensures
            match r {
                Some(size) => size == self.model().riff_size(frames as nat),
                None => self.model().riff_size(frames as nat) > u64::MAX,
            },
    {
        match data_bytes(frames, self.scratch.len(), width_of(self.bits)) {
            Some(data) => data.checked_add(4 + (8 + 16) + 8),
            None => None,
        }
    }

    /// Refuses a file with `frames` more frames if it is too large for its header;
    /// gives the size of its samples.
    fn check_size_limit(&self, frames: usize) -> (r: Result<u32, StreamError>)
        requires
            self.wf(),
            frames <= self.model().pending(),
        ensures
            match r {
                Ok(data) => {
                    &&& self.model().riff_size(self.model().written + frames as nat) < u32::MAX
                    &&& data == self.model().data_size(self.model().written + frames as nat)
                },
                Err(e) => {
                    &&& self.model().riff_size(self.model().written + frames as nat) >= u32::MAX
                    &&& e == StreamError::WavTooLarge
                },
            },
    {
        let ghost m = self.model();
        let total: u64 = saturated_sum(self.frames_written, frames as u64);
        proof {
            if self.scratch@.len() > 0 {
                lemma_frames_take_bytes(m, m.written + frames as nat);
                lemma_frames_take_bytes(m, total as nat);
            } else {
                lemma_min_len(m.chans);
            }
        }
        match self.riff_size_for(total) {
            Some(size) => if size >= 0xffff_ffff {
                Err(StreamError::WavTooLarge)
            } else {
                Ok((size - 36) as u32)
            },
            None => Err(StreamError::WavTooLarge),
        }
    }
}

impl StreamingWriter for WavStreamWriter {
    closed spec fn model(&self) -> StreamModel {
        StreamModel {
            kind: StreamKind::Wav,
            bits: self.bits,
            chans: channel_views(self.scratch@),
            written: self.frames_written as nat,
        }
    }

    closed spec fn tag(&self) -> Option<id3::Tag> {
        self.tag
    }

    closed spec fn wf(&self) -> bool {
        self.model().wf()
    }

    proof fn wf_model(&self) {
    }

    fn push_sample(&mut self, chan: usize, sample: i32) {
        push_to(&mut self.scratch, chan, sample);
        assert(self.model() =~= old(self).model().push(chan as int, sample));
    }

    fn flush_ready(&self) -> (r: Result<Option<Batch>, StreamError>) {
        let frames: usize = min_frames(&self.scratch);
        if frames < WAV_FLUSH_FRAMES {
            return Ok(None);
        }
        match self.check_size_limit(frames) {
            Err(e) => {
                return Err(e);
            },
            Ok(_) => {},
        }
        let bytes: Vec<u8> = encode_frames(StreamKind::Wav, self.bits, &self.scratch, frames);
        Ok(Some(Batch { frames, bytes }))
    }

    fn batch_written(&mut self, frames: usize) {
        proof {
            if self.scratch@.len() > 0 {
                lemma_frames_take_bytes(self.model(), self.model().written + frames as nat);
            } else {
                lemma_min_len(self.model().chans);
            }
        }
        drain_frames(&mut self.scratch, frames);
        self.frames_written = self.frames_written + frames as u64;
        assert(self.model() =~= old(self).model().drained(frames as nat));
    }

    fn finalize(self) -> (r: Result<Finish, StreamError>) {
        let frames: usize = min_frames(&self.scratch);
        let size: u32 = match self.check_size_limit(frames) {
            Err(e) => {
                return Err(e);
            },
            Ok(size) => size,
        };
        let data: Vec<u8> = encode_frames(StreamKind::Wav, self.bits, &self.scratch, frames);
        let patches: Vec<Patch> = wav_patches(self.bits, size);
        Ok(Finish { data, patches: Ok(patches), tag: self.tag })
    }
}

impl FloatStreamingWriter for WavStreamWriter {
    fn push_sample_f32(&mut self, chan: usize, sample: u32) {
        push_to(&mut self.scratch, chan, sample as i32);
        assert(self.model() =~= old(self).model().push(chan as int, sample as i32));
    }
}

/// A writer for any of the formats.
pub enum StreamWriter {
    Flac(FlacStreamWriter),
    Aiff(AiffStreamWriter),
    Aifc(AifcStreamWriter),
    Wav(WavStreamWriter),
}

impl StreamWriter {
    /// The format that the writer was opened for.
    pub open spec fn kind(&self) -> StreamKind {
        match self {
            StreamWriter::Flac(_) => StreamKind::Flac,
            StreamWriter::Aiff(_) => StreamKind::Aiff,
            StreamWriter::Aifc(_) => StreamKind::Aifc,
            StreamWriter::Wav(_) => StreamKind::Wav,
        }
    }

    /// The stream has the format that the writer was opened for.
    pub proof fn law_kind(&self)
        ensures
            self.model().kind == self.kind(),
    {
        match self {
            StreamWriter::Flac(w) => w.law_kind(),
            StreamWriter::Aiff(w) => w.law_kind(),
            StreamWriter::Aifc(w) => w.law_kind(),
            StreamWriter::Wav(w) => w.law_kind(),
        }
    }
}

impl StreamingWriter for StreamWriter {
    open spec fn model(&self) -> StreamModel {
        match self {
            StreamWriter::Flac(w) => w.model(),
            StreamWriter::Aiff(w) => w.model(),
            StreamWriter::Aifc(w) => w.model(),
            StreamWriter::Wav(w) => w.model(),
        }
    }

    open spec fn tag(&self) -> Option<id3::Tag> {
        match self {
            StreamWriter::Flac(w) => w.tag(),
            StreamWriter::Aiff(w) => w.tag(),
            StreamWriter::Aifc(w) => w.tag(),
            StreamWriter::Wav(w) => w.tag(),
        }
    }

    open spec fn wf(&self) -> bool {
        match self {
            StreamWriter::Flac(w) => w.wf(),
            StreamWriter::Aiff(w) => w.wf(),
            StreamWriter::Aifc(w) => w.wf(),
            StreamWriter::Wav(w) => w.wf(),
        }
    }

    proof fn wf_model(&self) {
        match self {
            StreamWriter::Flac(w) => w.wf_model(),
            StreamWriter::Aiff(w) => w.wf_model(),
            StreamWriter::Aifc(w) => w.wf_model(),
            StreamWriter::Wav(w) => w.wf_model(),
        }
    }

    fn push_sample(&mut self, chan: usize, sample: i32) {
        match self {
            StreamWriter::Flac(w) => w.push_sample(chan, sample),
            StreamWriter::Aiff(w) => w.push_sample(chan, sample),
            StreamWriter::Aifc(w) => w.push_sample(chan, sample),
            StreamWriter::Wav(w) => w.push_sample(chan, sample),
        }
    }

    fn flush_ready(&self) -> (r: Result<Option<Batch>, StreamError>) {
        match self {
            StreamWriter::Flac(w) => w.flush_ready(),
            StreamWriter::Aiff(w) => w.flush_ready(),
            StreamWriter::Aifc(w) => w.flush_ready(),
            StreamWriter::Wav(w) => w.flush_ready(),
        }
    }

    fn batch_written(&mut self, frames: usize) {
        match self {
            StreamWriter::Flac(w) => w.batch_written(frames),
            StreamWriter::Aiff(w) => w.batch_written(frames),
            StreamWriter::Aifc(w) => w.batch_written(frames),
            StreamWriter::Wav(w) => w.batch_written(frames),
        }
    }

    fn finalize(self) -> (r: Result<Finish, StreamError>) {
        match self {
            StreamWriter::Flac(w) => w.finalize(),
            StreamWriter::Aiff(w) => w.finalize(),
            StreamWriter::Aifc(w) => w.finalize(),
            StreamWriter::Wav(w) => w.finalize(),
        }
    }
}

impl FloatStreamingWriter for StreamWriter {
    fn push_sample_f32(&mut self, chan: usize, sample: u32) {
        proof {
            self.wf_model();
        }
        match self {
            StreamWriter::Aifc(w) => w.push_sample_f32(chan, sample),
            StreamWriter::Wav(w) => w.push_sample_f32(chan, sample),
            StreamWriter::Flac(_) | StreamWriter::Aiff(_) => {
                assert(false);
            },
        }
    }
}

} // verus!
