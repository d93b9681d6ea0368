//! What a stream of samples is, apart from any file: the samples that wait to be
//! written, the number of frames that were, and what is written when.
use vstd::prelude::*;
use crate::bytes::{
    be_bytes, be_value, law_be_round_trip, law_le_round_trip, le_bytes, le_value,
};
use crate::container::{
    aifc_prefix, aifc_sound_offset, aifc_suffix, aiff_prefix, aiff_suffix, form_header,
    full_header, law_patches_complete_header, lemma_aifc_lengths, lemma_aiff_lengths,
    lemma_wav_lengths, open_header, patched, size_patches, wav_header, StreamError,
};
use crate::samples::{
    clamp16, encoded, in_range, known_bits, law_batches_concatenate, law_interleaving,
    law_sample_read_back, lemma_encoded_len, lemma_encoded_same, lemma_min_len,
    lemma_min_len_skip, min_len, read_sample, sample_width, skip_frames, StreamKind,
};

verus! {

/// The frames that pile up before a FLAC encoder is fed. Larger batches mean fewer
/// and bigger writes, for a bit more memory.
pub const FLAC_FLUSH_FRAMES: usize = 2 * 1024 * 1024;

/// The frames that pile up before an AIFF file is written to.
pub const AIFF_FLUSH_FRAMES: usize = 8 * 1024 * 1024;

/// The frames that pile up before an AIFC file is written to.
pub const AIFC_FLUSH_FRAMES: usize = 8 * 1024 * 1024;

/// The frames that pile up before a WAV file is written to.
pub const WAV_FLUSH_FRAMES: usize = 8 * 1024 * 1024;

/// The state of a stream.
#[verifier::ext_equal]
pub struct StreamModel {
    /// The format of the file
    pub kind: StreamKind,
    /// The bit depth
    pub bits: usize,
    /// The samples of each channel that are not written yet
    pub chans: Seq<Seq<i32>>,
    /// The number of frames that are
    pub written: nat,
}

/// What is left to do when a stream ends.
#[verifier::ext_equal]
pub struct FinishModel {
    /// Bytes to append to the file
    pub data: Seq<u8>,
    /// The changes to make to its header after that, if it is not too large
    pub patches: Result<Seq<(nat, Seq<u8>)>, StreamError>,
}

impl StreamModel {
    /// A stream that has just been opened.
    pub open spec fn fresh(kind: StreamKind, bits: usize, channels: nat) -> StreamModel {
        StreamModel {
            kind,
            bits,
            chans: Seq::new(channels, |c: int| Seq::<i32>::empty()),
            written: 0,
        }
    }

    /// The formats have different bit depths, there are no frames without
    /// channels, and a WAV file is never let grow too large.
    pub open spec fn wf(self) -> bool {
        &&& known_bits(self.bits)
        &&& self.kind == StreamKind::Flac || self.kind == StreamKind::Aiff ==> self.bits != 32
        &&& self.chans.len() == 0 ==> self.written == 0
        &&& self.kind == StreamKind::Wav ==> self.riff_size(self.written) < u32::MAX
    }

    /// Whether the samples are bit patterns of floats.
    pub open spec fn is_float(self) -> bool {
        self.bits == 32
    }

    /// The bytes that `frames` frames take up.
    pub open spec fn data_size(self, frames: nat) -> nat {
        frames * (self.chans.len() * sample_width(self.bits))
    }

    /// What the size field of a WAV file says when it has `frames` frames.
    pub open spec fn riff_size(self, frames: nat) -> nat {
        36 + self.data_size(frames)
    }

    /// The number of whole frames that wait to be written.
    pub open spec fn pending(self) -> nat {
        min_len(self.chans)
    }

    /// The number of frames that are written or wait to be.
    pub open spec fn total(self) -> nat {
        self.written + self.pending()
    }

    /// Nothing is written before there are this many frames.
    pub open spec fn flush_frames(self) -> nat {
        match self.kind {
            StreamKind::Flac => FLAC_FLUSH_FRAMES as nat,
            StreamKind::Aiff => AIFF_FLUSH_FRAMES as nat,
            StreamKind::Aifc => AIFC_FLUSH_FRAMES as nat,
            StreamKind::Wav => WAV_FLUSH_FRAMES as nat,
        }
    }

    /// The stream with one more sample for channel `chan`.
    pub open spec fn push(self, chan: int, sample: i32) -> StreamModel {
        StreamModel { chans: self.chans.update(chan, self.chans[chan].push(sample)), ..self }
    }

    /// The bytes of the first `frames` frames that wait. A WAV file that would
    /// become too large is refused.
    pub open spec fn batch(self, frames: nat) -> Result<Seq<u8>, StreamError> {
        if self.kind == StreamKind::Wav && self.riff_size(self.written + frames) >= u32::MAX {
            Err(StreamError::WavTooLarge)
        } else {
            Ok(encoded(self.kind, self.bits, self.chans, frames))
        }
    }

    /// What a flush is to write, with the number of frames that it is.
    pub open spec fn flush(self) -> Result<Option<(nat, Seq<u8>)>, StreamError> {
        if self.pending() < self.flush_frames() {
            Ok(None)
        } else {
            match self.batch(self.pending()) {
                Ok(bytes) => Ok(Some((self.pending(), bytes))),
                Err(e) => Err(e),
            }
        }
    }

    /// The stream once `frames` frames are written.
    pub open spec fn drained(self, frames: nat) -> StreamModel {
        StreamModel {
            chans: skip_frames(self.chans, frames),
            written: self.written + frames,
            ..self
        }
    }

    /// The error of a file that is too large for its header.
    pub open spec fn size_error(self) -> Option<StreamError> {
        let data = self.data_size(self.total());
        match self.kind {
            StreamKind::Flac => None,
            StreamKind::Aiff => if data > u32::MAX {
                Some(StreamError::AiffChunkSize)
            } else if data + 46 > u32::MAX {
                Some(StreamError::AiffFormSize)
            } else {
                None
            },
            StreamKind::Aifc => if data > u32::MAX {
                Some(StreamError::AifcChunkSize)
            } else if aifc_sound_offset(self.bits) + 4 + data > u32::MAX {
                Some(StreamError::AifcFormSize)
            } else {
                None
            },
            StreamKind::Wav => if self.riff_size(self.total()) >= u32::MAX {
                Some(StreamError::WavTooLarge)
            } else {
                None
            },
        }
    }

    /// What the end of the stream is to write: all whole frames that wait, then
    /// the sizes in the header.
    pub open spec fn finish(self) -> Result<FinishModel, StreamError> {
        match self.batch(self.pending()) {
            Err(e) => Err(e),
            Ok(data) => Ok(
                FinishModel {
                    data,
                    patches: match self.size_error() {
                        Some(e) => Err(e),
                        None => Ok(
                            size_patches(
                                self.kind,
                                self.bits,
                                self.total(),
                                self.data_size(self.total()),
                            ),
                        ),
                    },
                },
            ),
        }
    }
}

/// A whole number of frames takes up more bytes, the more frames there are.
pub proof fn lemma_data_size_monotone(m: StreamModel, a: nat, b: nat)
    requires
        a <= b,
    ensures
        m.data_size(a) <= m.data_size(b),
{
    let f = (m.chans.len() * sample_width(m.bits)) as int;
    assert(a * f <= b * f) by (nonlinear_arith)
        requires
            a <= b,
            f >= 0,
    ;
}

/// A batch takes all whole frames that wait: none is left behind.
pub proof fn law_flush_takes_all(m: StreamModel)
    requires
        m.flush() matches Ok(Some(_)),
    ensures
        m.flush() matches Ok(Some(b)) && m.drained(b.0).pending() == 0 && m.drained(b.0).written
            == m.total(),
{
    lemma_min_len_skip(m.chans, m.pending());
}

/// Frames take up at least a byte each.
pub proof fn lemma_frames_take_bytes(m: StreamModel, frames: nat)
    requires
        known_bits(m.bits),
        m.chans.len() > 0,
    ensures
        frames <= m.data_size(frames),
{
    let n = m.chans.len();
    let w = sample_width(m.bits);
    assert(frames <= frames * (n * w)) by (nonlinear_arith)
        requires
            n >= 1,
            w >= 1,
    ;
}

/// One step in the course of a stream.
pub enum Step {
    /// A sample for a channel
    Push(int, i32),
    /// A flush, and the writing of the batch that it gives
    Flush,
}

/// Whether all samples are for channels that there are.
pub open spec fn valid_steps(channels: nat, steps: Seq<Step>) -> bool {
    forall|i: int|
        0 <= i < steps.len() ==> match #[trigger] steps[i] {
            Step::Push(chan, _) => 0 <= chan < channels,
            Step::Flush => true,
        }
}

/// All samples that were pushed, channel by channel.
pub open spec fn pushed(channels: nat, steps: Seq<Step>) -> Seq<Seq<i32>>
    decreases steps.len(),
{
    if steps.len() == 0 {
        Seq::new(channels, |c: int| Seq::<i32>::empty())
    } else {
        let before = pushed(channels, steps.drop_last());
        match steps.last() {
            Step::Push(chan, sample) => before.update(chan, before[chan].push(sample)),
            Step::Flush => before,
        }
    }
}

/// The stream and its file after some steps, or the error that stopped it.
pub open spec fn run(
    kind: StreamKind,
    rate: u32,
    bits: usize,
    channels: nat,
    steps: Seq<Step>,
) -> Result<(StreamModel, Seq<u8>), StreamError>
    decreases steps.len(),
{
    if steps.len() == 0 {
        Ok(
            (
                StreamModel::fresh(kind, bits, channels),
                open_header(kind, rate, bits, channels),
            ),
        )
    } else {
        match run(kind, rate, bits, channels, steps.drop_last()) {
            Err(e) => Err(e),
            Ok((m, file)) => match steps.last() {
                Step::Push(chan, sample) => Ok((m.push(chan, sample), file)),
                Step::Flush => match m.flush() {
                    Err(e) => Err(e),
                    Ok(None) => Ok((m, file)),
                    Ok(Some(b)) => Ok((m.drained(b.0), file + b.1)),
                },
            },
        }
    }
}

/// The file that a stream leaves behind: the steps, then the end.
pub open spec fn streamed_file(
    kind: StreamKind,
    rate: u32,
    bits: usize,
    channels: nat,
    steps: Seq<Step>,
) -> Result<Seq<u8>, StreamError> {
    match run(kind, rate, bits, channels, steps) {
        Err(e) => Err(e),
        Ok((m, file)) => match m.finish() {
            Err(e) => Err(e),
            Ok(f) => match f.patches {
                Err(e) => Err(e),
                Ok(p) => Ok(patched(file + f.data, p)),
            },
        },
    }
}

/// A stream of which nothing was written before its end.
pub open spec fn unwritten(kind: StreamKind, bits: usize, chans: Seq<Seq<i32>>) -> StreamModel {
    StreamModel { kind, bits, chans, written: 0 }
}

/// The file that holds all whole frames of `chans`.
pub open spec fn whole_file(
    kind: StreamKind,
    rate: u32,
    bits: usize,
    chans: Seq<Seq<i32>>,
) -> Seq<u8> {
    let m = unwritten(kind, bits, chans);
    full_header(kind, rate, bits, chans.len(), m.total(), m.data_size(m.total())) + encoded(
        kind,
        bits,
        chans,
        m.total(),
    )
}

/// The samples that were pushed are those that were written followed by those
/// that wait.
pub open spec fn accounts_for(m: StreamModel, all: Seq<Seq<i32>>) -> bool {
    &&& m.written <= min_len(all)
    &&& m.chans == skip_frames(all, m.written)
}

/// One more sample does not make fewer frames, and leaves the frames there were.
proof fn lemma_push_frames(all: Seq<Seq<i32>>, chan: int, sample: i32)
    requires
        0 <= chan < all.len(),
    ensures
        min_len(all) <= min_len(all.update(chan, all[chan].push(sample))),
{
    let more = all.update(chan, all[chan].push(sample));
    lemma_min_len(all);
    lemma_min_len(more);
    let w = choose|c: int| 0 <= c < more.len() && min_len(more) == (#[trigger] more[c]).len();
    assert(min_len(all) <= all[w].len());
    if w != chan {
        assert(more[w] == all[w]);
    }
}

/// The length of the list of channels never changes.
pub proof fn lemma_pushed_len(channels: nat, steps: Seq<Step>)
    requires
        valid_steps(channels, steps),
    ensures
        pushed(channels, steps).len() == channels,
        steps.len() > 0 ==> valid_steps(channels, steps.drop_last()),
    decreases steps.len(),
{
    if steps.len() > 0 {
        let rest = steps.drop_last();
        assert(valid_steps(channels, rest)) by {
            assert forall|i: int| 0 <= i < rest.len() implies match #[trigger] rest[i] {
                Step::Push(chan, _) => 0 <= chan < channels,
                Step::Flush => true,
            } by {
                assert(rest[i] == steps[i]);
            }
        }
        lemma_pushed_len(channels, rest);
        assert(steps.last() == steps[steps.len() - 1]);
    }
}

/// No sample is lost and none is written twice: at any time the file holds the
/// header and the frames written so far, in the order in which they were pushed,
/// and the samples that wait are those that were pushed after them.
pub proof fn law_no_sample_lost(
    kind: StreamKind,
    rate: u32,
    bits: usize,
    channels: nat,
    steps: Seq<Step>,
)
    requires
        valid_steps(channels, steps),
        run(kind, rate, bits, channels, steps) is Ok,
    ensures
        run(kind, rate, bits, channels, steps) matches Ok(s) && {
            &&& s.0.kind == kind
            &&& s.0.bits == bits
            &&& accounts_for(s.0, pushed(channels, steps))
            &&& s.0.total() == min_len(pushed(channels, steps))
            &&& s.1 == open_header(kind, rate, bits, channels) + encoded(
                kind,
                bits,
                pushed(channels, steps),
                s.0.written,
            )
        },
    decreases steps.len(),
{
    let all = pushed(channels, steps);
    let (m, file) = run(kind, rate, bits, channels, steps)->Ok_0;
    let header = open_header(kind, rate, bits, channels);
    lemma_pushed_len(channels, steps);
    if steps.len() == 0 {
        assert(skip_frames(all, 0) =~= all) by {
            assert forall|c: int| 0 <= c < all.len() implies skip_frames(all, 0)[c] == all[c] by {
                assert(all[c].skip(0) =~= all[c]);
            }
        }
        assert(header + encoded(kind, bits, all, 0) =~= header);
        lemma_min_len(all);
    } else {
        let before = pushed(channels, steps.drop_last());
        law_no_sample_lost(kind, rate, bits, channels, steps.drop_last());
        lemma_pushed_len(channels, steps.drop_last());
        let (m0, file0) = run(kind, rate, bits, channels, steps.drop_last())->Ok_0;
        match steps.last() {
            Step::Push(chan, sample) => {
                assert(steps[steps.len() - 1] == Step::Push(chan, sample));
                lemma_push_frames(before, chan, sample);
                lemma_min_len(before);
                assert(m.chans =~= skip_frames(all, m.written)) by {
                    assert forall|c: int| 0 <= c < all.len() implies m.chans[c] == skip_frames(
                        all,
                        m.written,
                    )[c] by {
                        assert(before[c].len() >= min_len(before));
                        if c == chan {
                            assert(before[c].push(sample).skip(m.written as int)
                                =~= before[c].skip(m.written as int).push(sample));
                        }
                    }
                }
                lemma_min_len_skip(all, m.written);
                assert forall|c: int, i: int|
                    0 <= c < before.len() && 0 <= i < m.written implies #[trigger] before[c][i]
                    == all[c][i] by {
                    assert(before[c].len() >= min_len(before));
                }
                lemma_encoded_same(kind, bits, before, all, m.written);
            },
            Step::Flush => {
                match m0.flush() {
                    Ok(Some(b)) => {
                        let n = m0.pending();
                        lemma_min_len_skip(before, m0.written);
                        law_batches_concatenate(kind, bits, before, m0.written, n);
                        assert(m.chans =~= skip_frames(all, m.written)) by {
                            assert forall|c: int| 0 <= c < all.len() implies m.chans[c]
                                == skip_frames(all, m.written)[c] by {
                                lemma_min_len(before);
                                assert(before[c].len() >= min_len(before));
                                assert(before[c].skip(m0.written as int).skip(n as int)
                                    =~= before[c].skip((m0.written + n) as int));
                            }
                        }
                        lemma_min_len_skip(all, m.written);
                        assert(file =~= header + encoded(kind, bits, all, m.written));
                    },
                    _ => {},
                }
            },
        }
    }
}

/// Nothing of the size limits depends on how the frames were batched.
proof fn lemma_limits(m: StreamModel, all: Seq<Seq<i32>>)
    requires
        accounts_for(m, all),
        m.total() == min_len(all),
    ensures
        m.size_error() == unwritten(m.kind, m.bits, all).size_error(),
        m.data_size(m.total()) == unwritten(m.kind, m.bits, all).data_size(min_len(all)),
{
}

/// As long as all frames together are not too many for a WAV file, no step of
/// the stream fails; and no other format fails before its end.
proof fn lemma_no_early_error(
    kind: StreamKind,
    rate: u32,
    bits: usize,
    channels: nat,
    steps: Seq<Step>,
)
    requires
        valid_steps(channels, steps),
        kind == StreamKind::Wav ==> unwritten(kind, bits, pushed(channels, steps)).size_error()
            is None,
    ensures
        run(kind, rate, bits, channels, steps) is Ok,
    decreases steps.len(),
{
    if steps.len() > 0 {
        let all = pushed(channels, steps);
        let before = pushed(channels, steps.drop_last());
        lemma_pushed_len(channels, steps);
        lemma_pushed_len(channels, steps.drop_last());
        match steps.last() {
            Step::Push(chan, sample) => {
                assert(steps[steps.len() - 1] == Step::Push(chan, sample));
                lemma_push_frames(before, chan, sample);
            },
            Step::Flush => {},
        }
        lemma_data_size_monotone(unwritten(kind, bits, all), min_len(before), min_len(all));
        assert(unwritten(kind, bits, before).data_size(min_len(before)) == unwritten(
            kind,
            bits,
            all,
        ).data_size(min_len(before)));
        lemma_no_early_error(kind, rate, bits, channels, steps.drop_last());
        law_no_sample_lost(kind, rate, bits, channels, steps.drop_last());
        let m = run(kind, rate, bits, channels, steps.drop_last())->Ok_0.0;
        lemma_limits(m, before);
    }
}

/// An error on the way is the error at the end: the frames pushed so far are too
/// many for a WAV file.
proof fn lemma_early_error(
    kind: StreamKind,
    rate: u32,
    bits: usize,
    channels: nat,
    steps: Seq<Step>,
)
    requires
        valid_steps(channels, steps),
        run(kind, rate, bits, channels, steps) is Err,
    ensures
        kind == StreamKind::Wav,
        run(kind, rate, bits, channels, steps) == Err::<(StreamModel, Seq<u8>), StreamError>(
            StreamError::WavTooLarge,
        ),
    decreases steps.len(),
{
    if kind != StreamKind::Wav {
        lemma_no_early_error(kind, rate, bits, channels, steps);
    }
    lemma_pushed_len(channels, steps);
    match run(kind, rate, bits, channels, steps.drop_last()) {
        Err(_) => {
            lemma_early_error(kind, rate, bits, channels, steps.drop_last());
        },
        Ok(_) => {},
    }
}

/// Streaming is the same as writing everything at once: whatever the order in
/// which the samples came and the batches were written, the file that is left
/// behind holds all whole frames under a header with the right sizes. It fails
/// if and only if they are too many for the format, and then with the error that
/// tells so.
pub proof fn law_stream_is_whole_file(
    kind: StreamKind,
    rate: u32,
    bits: usize,
    channels: nat,
    steps: Seq<Step>,
)
    requires
        valid_steps(channels, steps),
    ensures
        streamed_file(kind, rate, bits, channels, steps) == match unwritten(
            kind,
            bits,
            pushed(channels, steps),
        ).size_error() {
            Some(e) => Err::<Seq<u8>, StreamError>(e),
            None => Ok(whole_file(kind, rate, bits, pushed(channels, steps))),
        },
{
    let all = pushed(channels, steps);
    lemma_pushed_len(channels, steps);
    match run(kind, rate, bits, channels, steps) {
        Err(e) => {
            lemma_early_error(kind, rate, bits, channels, steps);
            if unwritten(kind, bits, all).size_error() is None {
                lemma_no_early_error(kind, rate, bits, channels, steps);
            }
        },
        Ok((m, file)) => {
            law_no_sample_lost(kind, rate, bits, channels, steps);
            lemma_limits(m, all);
            match m.finish() {
                Err(e) => {},
                Ok(f) => {
                    law_batches_concatenate(kind, bits, all, m.written, m.pending());
                    let samples = encoded(kind, bits, all, m.total());
                    assert(file + f.data =~= open_header(kind, rate, bits, channels) + samples);
                    law_patches_complete_header(
                        kind,
                        rate,
                        bits,
                        channels,
                        samples,
                        m.total(),
                        m.data_size(m.total()),
                    );
                },
            }
        },
    }
}

/// Whether the sizes in the header of a file with `frames` frames, which take up
/// `data` bytes, are right.
pub open spec fn size_fields_right(
    kind: StreamKind,
    file: Seq<u8>,
    frames: int,
    data: int,
) -> bool {
    match kind {
        StreamKind::Flac => true,
        StreamKind::Wav => {
            &&& le_value(file.subrange(4, 8)) == file.len() - 8
            &&& le_value(file.subrange(40, 44)) == data
            &&& file.len() == 44 + data
        },
        StreamKind::Aiff => {
            &&& be_value(file.subrange(4, 8)) == file.len() - 8
            &&& be_value(file.subrange(22, 26)) == frames
            &&& be_value(file.subrange(42, 46)) == data
            &&& file.len() == 54 + data
        },
        StreamKind::Aifc => {
            &&& be_value(file.subrange(4, 8)) == file.len() - 8
            &&& be_value(file.subrange(34, 38)) == frames
            &&& be_value(file.subrange(4084, 4088)) == data + 8
            &&& file.len() == 4096 + data
        },
    }
}

/// The sizes in the header of a WAV file.
proof fn lemma_wav_sizes(rate: u32, bits: usize, channels: nat, samples: Seq<u8>, data: int)
    requires
        samples.len() == data,
        36 + data < u32::MAX,
    ensures
        size_fields_right(
            StreamKind::Wav,
            wav_header(rate, bits, channels, 36 + data, data) + samples,
            0,
            data,
        ),
{
    let file = wav_header(rate, bits, channels, 36 + data, data) + samples;
    lemma_wav_lengths(rate, bits, channels, 36 + data, data);
    assert(le_value(le_bytes(36 + data, 4)) == 36 + data) by {
        law_le_round_trip(36 + data, 4);
    }
    assert(le_value(le_bytes(data, 4)) == data) by {
        law_le_round_trip(data, 4);
    }
    assert(file.subrange(4, 8) =~= le_bytes(36 + data, 4));
    assert(file.subrange(40, 44) =~= le_bytes(data, 4));
}

/// The sizes in the header of an AIFF file.
proof fn lemma_aiff_sizes(
    rate: u32,
    bits: usize,
    channels: nat,
    samples: Seq<u8>,
    frames: int,
    data: int,
)
    requires
        samples.len() == data,
        data + 46 <= u32::MAX,
        0 <= frames <= data,
    ensures
        size_fields_right(
            StreamKind::Aiff,
            form_header(aiff_prefix(channels), aiff_suffix(rate, bits), data + 46, frames, data)
                + samples,
            frames,
            data,
        ),
{
    let file = form_header(
        aiff_prefix(channels),
        aiff_suffix(rate, bits),
        data + 46,
        frames,
        data,
    ) + samples;
    lemma_aiff_lengths(rate, bits, channels);
    assert(be_value(be_bytes(data + 46, 4)) == data + 46) by {
        law_be_round_trip(data + 46, 4);
    }
    assert(be_value(be_bytes(frames, 4)) == frames) by {
        law_be_round_trip(frames, 4);
    }
    assert(be_value(be_bytes(data, 4)) == data) by {
        law_be_round_trip(data, 4);
    }
    assert(file.subrange(4, 8) =~= be_bytes(data + 46, 4));
    assert(file.subrange(22, 26) =~= be_bytes(frames, 4));
    assert(file.subrange(42, 46) =~= be_bytes(data, 4));
}

/// The sizes in the header of an AIFC file.
proof fn lemma_aifc_sizes(
    rate: u32,
    bits: usize,
    channels: nat,
    samples: Seq<u8>,
    frames: int,
    data: int,
)
    requires
        samples.len() == data,
        data + 4088 <= u32::MAX,
        0 <= frames <= data,
    ensures
        size_fields_right(
            StreamKind::Aifc,
            form_header(
                aifc_prefix(bits, channels),
                aifc_suffix(rate, bits),
                aifc_sound_offset(bits) + 4 + data,
                frames,
                data + 8,
            ) + samples,
            frames,
            data,
        ),
{
    lemma_aifc_lengths(rate, bits, channels);
    let file = form_header(
        aifc_prefix(bits, channels),
        aifc_suffix(rate, bits),
        4088 + data,
        frames,
        data + 8,
    ) + samples;
    assert(be_value(be_bytes(4088 + data, 4)) == 4088 + data) by {
        law_be_round_trip(4088 + data, 4);
    }
    assert(be_value(be_bytes(frames, 4)) == frames) by {
        law_be_round_trip(frames, 4);
    }
    assert(be_value(be_bytes(data + 8, 4)) == data + 8) by {
        law_be_round_trip(data + 8, 4);
    }
    assert(file.subrange(4, 8) =~= be_bytes(4088 + data, 4));
    assert(file.subrange(34, 38) =~= be_bytes(frames, 4));
    assert(file.subrange(4084, 4088) =~= be_bytes(data + 8, 4));
}

/// The size field of a finished file gives the number of bytes that follow it;
/// that of the samples of a WAV or AIFF file the number of their bytes, that of an
/// AIFC file eight more; and the frame count of an AIFF or AIFC file the number of
/// its frames.
pub proof fn law_size_fields(kind: StreamKind, rate: u32, bits: usize, chans: Seq<Seq<i32>>)
    requires
        kind != StreamKind::Flac,
        known_bits(bits),
        unwritten(kind, bits, chans).size_error() is None,
    ensures
        size_fields_right(
            kind,
            whole_file(kind, rate, bits, chans),
            min_len(chans) as int,
            unwritten(kind, bits, chans).data_size(min_len(chans)) as int,
        ),
{
    let file = whole_file(kind, rate, bits, chans);
    let n = chans.len();
    let frames = min_len(chans);
    let m = unwritten(kind, bits, chans);
    let data = m.data_size(frames);
    lemma_encoded_len(kind, bits, chans, frames);
    assert(n == 0 ==> frames == 0) by {
        lemma_min_len(chans);
    }
    assert(frames <= data) by (nonlinear_arith)
        requires
            data == frames * (n * sample_width(bits)),
            n >= 1 || frames == 0,
            sample_width(bits) >= 1,
    ;
    let samples = encoded(kind, bits, chans, frames);
    assert(m.total() == frames);
    match kind {
        StreamKind::Wav => {
            lemma_wav_sizes(rate, bits, n, samples, data as int);
        },
        StreamKind::Aiff => {
            lemma_aiff_sizes(rate, bits, n, samples, frames as int, data as int);
        },
        _ => {
            lemma_aifc_lengths(rate, bits, n);
            lemma_aifc_sizes(rate, bits, n, samples, frames as int, data as int);
        },
    }
}

/// The length of the header of a file.
pub open spec fn header_size(kind: StreamKind) -> nat {
    match kind {
        StreamKind::Flac => 0,
        StreamKind::Aiff => 54,
        StreamKind::Aifc => 4096,
        StreamKind::Wav => 44,
    }
}

/// The bytes of sample `i` of channel `c` in a file.
pub open spec fn sample_in_file(
    kind: StreamKind,
    bits: usize,
    file: Seq<u8>,
    channels: nat,
    i: nat,
    c: nat,
) -> Seq<u8> {
    let start = header_size(kind) + (i * channels + c) * sample_width(bits);
    file.subrange(start as int, (start + sample_width(bits)) as int)
}

/// What was written is read back: every sample of a finished file, read at its
/// place, is the sample that was pushed. A 16-bit sample out of range comes back
/// as the nearest one in range.
pub proof fn law_samples_read_back(
    kind: StreamKind,
    rate: u32,
    bits: usize,
    chans: Seq<Seq<i32>>,
    i: nat,
    c: nat,
)
    requires
        known_bits(bits),
        i < min_len(chans),
        c < chans.len(),
        bits == 16 || in_range(bits, chans[c as int][i as int]),
    ensures
        read_sample(
            kind,
            bits,
            sample_in_file(kind, bits, whole_file(kind, rate, bits, chans), chans.len(), i, c),
        ) == if bits == 16 {
            clamp16(chans[c as int][i as int] as int)
        } else {
            chans[c as int][i as int] as int
        },
{
    let n = chans.len();
    let frames = min_len(chans);
    let m = unwritten(kind, bits, chans);
    let data = m.data_size(m.total());
    let header = full_header(kind, rate, bits, n, m.total(), data);
    let samples = encoded(kind, bits, chans, frames);
    let off = (i * n + c) * sample_width(bits);
    assert(header.len() == header_size(kind)) by {
        lemma_wav_lengths(rate, bits, n, 36 + data as int, data as int);
        lemma_aiff_lengths(rate, bits, n);
        lemma_aifc_lengths(rate, bits, n);
    }
    assert(m.total() == frames);
    law_interleaving(kind, bits, chans, frames, i, c);
    law_sample_read_back(kind, bits, chans[c as int][i as int]);
    assert(sample_in_file(kind, bits, header + samples, n, i, c) =~= samples.subrange(
        off as int,
        (off + sample_width(bits)) as int,
    ));
}

} // verus!
