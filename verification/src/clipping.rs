//! Quantized samples: bringing them into range, and counting how often that was
//! needed.
use vstd::prelude::*;

verus! {

/// The counts of clipped samples.
#[verifier::ext_equal]
pub struct ClipModel {
    /// Runs of clipped samples so far
    pub clips: int,
    /// The length of the current run below the range
    pub low: int,
    /// The length of the current run above the range
    pub high: int,
}

impl ClipModel {
    /// No clipped samples.
    pub open spec fn none() -> ClipModel {
        ClipModel { clips: 0, low: 0, high: 0 }
    }

    /// Whether the counts are numbers of 32 bits.
    pub open spec fn fits(self) -> bool {
        self.clips <= i32::MAX && self.low <= i32::MAX && self.high <= i32::MAX
    }

    /// The counts after one more sample, which is below the range, above it, or
    /// neither. A run counts when its second sample comes. A sample below the
    /// range does not end a run above it.
    pub open spec fn update(self, low: bool, high: bool) -> ClipModel {
        if low {
            ClipModel {
                clips: if self.low == 1 {
                    self.clips + 1
                } else {
                    self.clips
                },
                low: self.low + 1,
                high: self.high,
            }
        } else if high {
            ClipModel {
                clips: if self.high == 1 {
                    self.clips + 1
                } else {
                    self.clips
                },
                low: 0,
                high: self.high + 1,
            }
        } else {
            ClipModel { clips: self.clips, low: 0, high: 0 }
        }
    }

    /// The counts after `k` more samples that are all below the range, all above it,
    /// or all neither.
    pub open spec fn update_times(self, low: bool, high: bool, k: nat) -> ClipModel
        decreases k,
    {
        if k == 0 {
            self
        } else {
            self.update_times(low, high, (k - 1) as nat).update(low, high)
        }
    }

    /// The counts after one more sample, for the range of `peak`.
    pub open spec fn after(self, peak: int, value: int) -> ClipModel {
        self.update(value < -peak, value > peak - 1)
    }

    /// The counts after some samples.
    pub open spec fn after_all(self, peak: int, values: Seq<i64>) -> ClipModel
        decreases values.len(),
    {
        if values.len() == 0 {
            self
        } else {
            self.after_all(peak, values.drop_last()).after(peak, truncated(values.last()) as int)
        }
    }

    /// Whether the counts are numbers of 32 bits all the way through some samples.
    pub open spec fn fits_all(self, peak: int, values: Seq<i64>) -> bool {
        forall|k: int|
            0 <= k <= values.len() ==> (#[trigger] self.after_all(peak, values.take(k))).fits()
    }
}

/// The low 32 bits of a rounded sample.
pub open spec fn truncated(rounded: i64) -> i32 {
    rounded as i32
}

/// `value`, brought into the range of `peak`: from `-peak` up to `peak - 1`.
pub open spec fn clamped(peak: int, value: int) -> int {
    if value < -peak {
        -peak
    } else if value > peak - 1 {
        peak - 1
    } else {
        value
    }
}

/// The quantized samples for some rounded ones.
pub open spec fn quantized_all(peak: int, values: Seq<i64>) -> Seq<i32> {
    Seq::new(values.len(), |i: int| clamped(peak, truncated(values[i]) as int) as i32)
}

/// A quantized sample is in range, and one that was in range is not changed. One that
/// was not becomes the nearest that is.
pub proof fn law_clamped(peak: int, value: int)
    requires
        peak >= 1,
    ensures
        -peak <= clamped(peak, value) < peak,
        -peak <= value < peak ==> clamped(peak, value) == value,
        value < -peak ==> clamped(peak, value) == -peak,
        value >= peak ==> clamped(peak, value) == peak - 1,
{
}

/// After a sample in range, and at the beginning, no run goes on.
pub proof fn law_no_run(c: ClipModel)
    ensures
        c.update(false, false).low == 0 && c.update(false, false).high == 0,
        c.update(false, false).clips == c.clips,
        ClipModel::none().low == 0 && ClipModel::none().high == 0,
{
}

/// Clipped samples in a row on one side count once: where no run goes on, `k`
/// samples below the range, or `k` above it, add one to the count if they are two
/// or more, and nothing if they are fewer.
pub proof fn law_run_counts_once(c: ClipModel, low: bool, k: nat)
    requires
        c.low == 0,
        c.high == 0,
    ensures
        c.update_times(low, !low, k).clips == c.clips + if k >= 2 {
            1int
        } else {
            0
        },
        c.update_times(low, !low, k).low == if low {
            k as int
        } else {
            0
        },
        c.update_times(low, !low, k).high == if low {
            0
        } else {
            k as int
        },
    decreases k,
{
    if k > 0 {
        law_run_counts_once(c, low, (k - 1) as nat);
    }
}

/// The counts after more samples than one.
proof fn lemma_after_push(c: ClipModel, peak: int, values: Seq<i64>, v: i64)
    ensures
        c.after_all(peak, values.push(v)) == c.after_all(peak, values).after(
            peak,
            truncated(v) as int,
        ),
{
    assert(values.push(v).drop_last() =~= values);
}

/// Clipped samples in a row count once: a run of samples below the range, after
/// one that was not, adds one to the count if it is two samples or longer, and
/// nothing if it is shorter.
pub proof fn law_low_run_counts_once(c: ClipModel, peak: int, values: Seq<i64>)
    requires
        c.low == 0,
        forall|i: int| 0 <= i < values.len() ==> truncated(#[trigger] values[i]) < -peak,
    ensures
        c.after_all(peak, values).clips == c.clips + if values.len() >= 2 {
            1int
        } else {
            0
        },
        c.after_all(peak, values).low == values.len(),
        c.after_all(peak, values).high == c.high,
    decreases values.len(),
{
    if values.len() > 0 {
        let rest = values.drop_last();
        assert forall|i: int| 0 <= i < rest.len() implies truncated(#[trigger] rest[i]) < -peak by {
            assert(rest[i] == values[i]);
        }
        law_low_run_counts_once(c, peak, rest);
        assert(truncated(values[values.len() - 1]) < -peak);
    }
}

/// Clipped samples in a row count once: the same above the range.
pub proof fn law_high_run_counts_once(c: ClipModel, peak: int, values: Seq<i64>)
    requires
        c.high == 0,
        peak >= 0,
        forall|i: int| 0 <= i < values.len() ==> truncated(#[trigger] values[i]) > peak - 1,
    ensures
        c.after_all(peak, values).clips == c.clips + if values.len() >= 2 {
            1int
        } else {
            0
        },
        c.after_all(peak, values).high == values.len(),
        values.len() > 0 ==> c.after_all(peak, values).low == 0,
    decreases values.len(),
{
    if values.len() > 0 {
        let rest = values.drop_last();
        assert forall|i: int| 0 <= i < rest.len() implies truncated(#[trigger] rest[i]) > peak
            - 1 by {
            assert(rest[i] == values[i]);
        }
        law_high_run_counts_once(c, peak, rest);
        assert(truncated(values[values.len() - 1]) > peak - 1);
    }
}

/// Samples in range leave the count alone.
pub proof fn law_in_range_no_clips(c: ClipModel, peak: int, values: Seq<i64>)
    requires
        forall|i: int| 0 <= i < values.len() ==> -peak <= truncated(#[trigger] values[i]) < peak,
    ensures
        c.after_all(peak, values).clips == c.clips,
    decreases values.len(),
{
    if values.len() > 0 {
        let rest = values.drop_last();
        assert forall|i: int| 0 <= i < rest.len() implies -peak <= truncated(
            #[trigger] rest[i],
        ) < peak by {
            assert(rest[i] == values[i]);
        }
        law_in_range_no_clips(c, peak, rest);
        assert(-peak <= truncated(values[values.len() - 1]) < peak);
    }
}

/// The counts of clipped samples.
pub struct ClipCounter {
    clips: i32,
    last_samps_clipped_low: i32,
    last_samps_clipped_high: i32,
}

impl View for ClipCounter {
    type V = ClipModel;

    closed spec fn view(&self) -> ClipModel {
        ClipModel {
            clips: self.clips as int,
            low: self.last_samps_clipped_low as int,
            high: self.last_samps_clipped_high as int,
        }
    }
}

impl ClipCounter {
    /// No clipped samples.
    pub fn new() -> (r: Self)
        ensures
            r@ == ClipModel::none(),
    {
        ClipCounter { clips: 0, last_samps_clipped_low: 0, last_samps_clipped_high: 0 }
    }

    /// The number of runs of clipped samples so far.
    pub fn clips(&self) -> (r: i32)
        ensures
            r == self@.clips,
    {
        self.clips
    }

    /// Counts one more sample, which is below the range, above it, or neither.
    pub fn update_clip_stats(&mut self, low: bool, high: bool)
        requires
            old(self)@.update(low, high).fits(),
        ensures
            final(self)@ == old(self)@.update(low, high),
    {
        if low {
            if self.last_samps_clipped_low == 1 {
                self.clips = self.clips + 1;
            }
            self.last_samps_clipped_low = self.last_samps_clipped_low + 1;
            return;
        }
        self.last_samps_clipped_low = 0;
        if high {
            if self.last_samps_clipped_high == 1 {
                self.clips = self.clips + 1;
            }
            self.last_samps_clipped_high = self.last_samps_clipped_high + 1;
            return;
        }
        self.last_samps_clipped_high = 0;
    }

    /// Brings a sample into the range from `min` up to `max`, and counts it.
    fn clamp_value(&mut self, min: i32, value: i32, max: i32) -> (r: i32)
        requires
            old(self)@.update(value < min, value > max).fits(),
        ensures
            r == if value < min {
                min
            } else if value > max {
                max
            } else {
                value
            },
            final(self)@ == old(self)@.update(value < min, value > max),
    {
        if value < min {
            self.update_clip_stats(true, false);
            min
        } else if value > max {
            self.update_clip_stats(false, true);
            max
        } else {
            self.update_clip_stats(false, false);
            value
        }
    }

    /// Brings a rounded sample into the range of `peak`, and counts it.
    pub fn quantize(&mut self, peak: i32, rounded: i64) -> (r: i32)
        requires
            peak >= 0,
            old(self)@.after(peak as int, truncated(rounded) as int).fits(),
        ensures
            r == clamped(peak as int, truncated(rounded) as int),
            final(self)@ == old(self)@.after(peak as int, truncated(rounded) as int),
    {
        let value: i32 = rounded as i32;
        self.clamp_value(-peak, value, peak - 1)
    }

    /// Whether the counts stay numbers of 32 bits through some samples.
    pub fn has_room(&self, peak: i32, values: &Vec<i64>) -> (r: bool)
        requires
            peak >= 0,
        ensures
            r == self@.fits_all(peak as int, values@),
    {
        let mut c = ClipCounter {
            clips: self.clips,
            last_samps_clipped_low: self.last_samps_clipped_low,
            last_samps_clipped_high: self.last_samps_clipped_high,
        };
        let mut k: usize = 0;
        let ghost start = self@;
        assert(values@.take(0) =~= Seq::empty());
        while k < values.len()
            invariant
                k <= values@.len(),
                peak >= 0,
                start == self@,
                c@ == start.after_all(peak as int, values@.take(k as int)),
                forall|j: int|
                    0 <= j <= k ==> (#[trigger] start.after_all(
                        peak as int,
                        values@.take(j),
                    )).fits(),
            decreases values@.len() - k,
        {
            let value: i32 = values[k] as i32;
            let ghost next = start.after_all(peak as int, values@.take(k + 1));
            proof {
                assert(values@.take(k + 1) =~= values@.take(k as int).push(values@[k as int]));
                lemma_after_push(start, peak as int, values@.take(k as int), values@[k as int]);
                assert(next == c@.after(peak as int, value as int));
            }
            let low: bool = value < -peak;
            let high: bool = value > peak - 1;
            if low && (c.last_samps_clipped_low == i32::MAX || (c.last_samps_clipped_low == 1
                && c.clips == i32::MAX)) {
                assert(!next.fits());
                return false;
            }
            if !low && high && (c.last_samps_clipped_high == i32::MAX || (
            c.last_samps_clipped_high == 1 && c.clips == i32::MAX)) {
                assert(!next.fits());
                return false;
            }
            c.update_clip_stats(low, high);
            k = k + 1;
        }
        true
    }
}

/// Quantizes a block of rounded samples, and counts them.
pub fn quantize_block(c: &mut ClipCounter, peak: i32, values: &Vec<i64>) -> (r: Vec<i32>)
    requires
        peak >= 0,
        old(c)@.fits_all(peak as int, values@),
    ensures
        r@ == quantized_all(peak as int, values@),
        final(c)@ == old(c)@.after_all(peak as int, values@),
{
    let mut r: Vec<i32> = Vec::new();
    let mut k: usize = 0;
    let ghost start = c@;
    assert(values@.take(0) =~= Seq::empty());
    while k < values.len()
        invariant
            k <= values@.len(),
            peak >= 0,
            start.fits_all(peak as int, values@),
            c@ == start.after_all(peak as int, values@.take(k as int)),
            r@ == quantized_all(peak as int, values@).take(k as int),
        decreases values@.len() - k,
    {
        proof {
            assert(values@.take(k + 1) =~= values@.take(k as int).push(values@[k as int]));
            lemma_after_push(start, peak as int, values@.take(k as int), values@[k as int]);
            assert(start.after_all(peak as int, values@.take(k + 1)).fits());
        }
        let q: i32 = c.quantize(peak, values[k]);
        r.push(q);
        k = k + 1;
        assert(r@ =~= quantized_all(peak as int, values@).take(k as int));
    }
    assert(values@.take(values@.len() as int) =~= values@);
    assert(quantized_all(peak as int, values@).take(values@.len() as int) =~= quantized_all(
        peak as int,
        values@,
    ));
    r
}

/// Quantizing keeps the number of samples. A sample that is a number of 32 bits stays
/// as it is if it is in range, and becomes the nearest one in range if it is not.
pub proof fn law_quantized(peak: i32, values: Seq<i64>, i: int)
    requires
        peak >= 1,
        0 <= i < values.len(),
        i32::MIN <= values[i] <= i32::MAX,
    ensures
        quantized_all(peak as int, values).len() == values.len(),
        quantized_all(peak as int, values)[i] == if values[i] < -peak {
            -peak as int
        } else if values[i] >= peak {
            peak - 1
        } else {
            values[i] as int
        },
{
    let v = values[i];
    assert((v as i32) as i64 == v) by (bit_vector)
        requires
            -0x8000_0000 <= v <= 0x7fff_ffff,
    ;
    law_clamped(peak as int, truncated(v) as int);
}

/// Of a longer number the low 32 bits count.
pub proof fn law_truncated(v: i64)
    ensures
        truncated(v) as u32 == v as u32,
{
    assert((v as i32) as u32 == v as u32) by (bit_vector);
}

/// A sample out of range on one side and the next on the other do not make a run; two
/// in a row on one side do, and the third adds nothing.
pub proof fn law_clips_in_pairs(c: ClipModel, peak: int, low: int, high: int)
    requires
        peak >= 1,
        low < -peak,
        high >= peak,
        c.low == 0,
        c.high == 0,
    ensures
        c.after(peak, low).clips == c.clips,
        c.after(peak, high).clips == c.clips,
        c.after(peak, low).after(peak, low).clips == c.clips + 1,
        c.after(peak, high).after(peak, high).clips == c.clips + 1,
        c.after(peak, low).after(peak, high).clips == c.clips,
        c.after(peak, high).after(peak, low).clips == c.clips,
        c.after(peak, low).after(peak, low).after(peak, low).clips == c.clips + 1,
        c.after(peak, high).after(peak, high).after(peak, high).clips == c.clips + 1,
{
}

} // verus!
