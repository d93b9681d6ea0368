//! Samples on their way to a file: buffered per channel, written interleaved.
//!
//! Samples arrive one channel at a time and are kept in one queue a channel,
//! the scratch buffer. A batch takes the same number of samples off the front
//! of every queue and lays them down frame by frame: the first sample of each
//! channel in turn, then the second of each, and so on.
use vstd::prelude::*;
use vstd::arithmetic::power2::pow2;
use crate::bytes::{
    be_bytes, be_value, law_be_round_trip, law_le_round_trip, le_bytes, le_value,
    lemma_bytes_congruent, push_be, push_le, weight, word_of,
};

verus! {

/// The file formats that samples are streamed to.
#[derive(Copy, Clone, PartialEq, Eq, Debug, Structural)]
pub enum StreamKind {
    Flac,
    Aiff,
    Aifc,
    Wav,
}

/// The bit depths that have a layout. 32 stands for single precision floats, of
/// which a sample is the bit pattern.
pub open spec fn known_bits(bits: usize) -> bool {
    bits == 16 || bits == 20 || bits == 24 || bits == 32
}

/// The bytes one sample takes up. 20-bit samples are kept in three bytes.
pub open spec fn sample_width(bits: usize) -> nat {
    if bits == 20 {
        3
    } else {
        (bits / 8) as nat
    }
}

/// `v`, brought into the range of a 16-bit integer.
pub open spec fn clamp16(v: int) -> int {
    if v < -32768 {
        -32768
    } else if v > 32767 {
        32767
    } else {
        v
    }
}

/// The number of which a file stores the low bytes for the sample `v`: 16-bit
/// samples are clamped, 20-bit samples fill the upper bits of their three bytes
/// (but for FLAC, which takes them as they are), all others are as they are.
pub open spec fn stored_value(kind: StreamKind, bits: usize, v: i32) -> int {
    if bits == 16 {
        clamp16(v as int)
    } else if bits == 20 && kind != StreamKind::Flac {
        16 * v
    } else {
        v as int
    }
}

/// AIFF and AIFC store numbers with the most significant byte first.
pub open spec fn big_endian(kind: StreamKind) -> bool {
    kind == StreamKind::Aiff || kind == StreamKind::Aifc
}

/// The bytes of one sample.
pub open spec fn sample_bytes(kind: StreamKind, bits: usize, v: i32) -> Seq<u8> {
    if big_endian(kind) {
        be_bytes(stored_value(kind, bits, v), sample_width(bits))
    } else {
        le_bytes(stored_value(kind, bits, v), sample_width(bits))
    }
}

/// The bytes of frame `i` of the first `n` channels.
pub open spec fn frame_bytes(
    kind: StreamKind,
    bits: usize,
    chans: Seq<Seq<i32>>,
    i: int,
    n: nat,
) -> Seq<u8>
    decreases n,
{
    if n == 0 {
        Seq::empty()
    } else {
        frame_bytes(kind, bits, chans, i, (n - 1) as nat) + sample_bytes(
            kind,
            bits,
            chans[n - 1][i],
        )
    }
}

/// The bytes of the first `frames` frames, interleaved.
pub open spec fn encoded(
    kind: StreamKind,
    bits: usize,
    chans: Seq<Seq<i32>>,
    frames: nat,
) -> Seq<u8>
    decreases frames,
{
    if frames == 0 {
        Seq::empty()
    } else {
        encoded(kind, bits, chans, (frames - 1) as nat) + frame_bytes(
            kind,
            bits,
            chans,
            frames - 1,
            chans.len(),
        )
    }
}

/// The samples of each channel.
pub open spec fn channel_views(v: Seq<Vec<i32>>) -> Seq<Seq<i32>> {
    Seq::new(v.len(), |c: int| v[c]@)
}

/// The number of whole frames there are: the length of the shortest channel.
pub open spec fn min_len(chans: Seq<Seq<i32>>) -> nat
    decreases chans.len(),
{
    if chans.len() == 0 {
        0
    } else if chans.len() == 1 {
        chans[0].len()
    } else {
        let rest = min_len(chans.drop_last());
        if rest < chans.last().len() {
            rest
        } else {
            chans.last().len()
        }
    }
}

/// Each channel without its first `n` samples.
pub open spec fn skip_frames(chans: Seq<Seq<i32>>, n: nat) -> Seq<Seq<i32>> {
    Seq::new(chans.len(), |c: int| chans[c].skip(n as int))
}

/// `min_len` is a lower bound of the channels' lengths, and one of them has it.
pub proof fn lemma_min_len(chans: Seq<Seq<i32>>)
    ensures
        forall|c: int| 0 <= c < chans.len() ==> min_len(chans) <= (#[trigger] chans[c]).len(),
        chans.len() > 0 ==> exists|c: int|
            0 <= c < chans.len() && min_len(chans) == (#[trigger] chans[c]).len(),
        chans.len() == 0 ==> min_len(chans) == 0,
    decreases chans.len(),
{
    if chans.len() == 1 {
        assert(min_len(chans) == chans[0].len());
    } else if chans.len() > 1 {
        let rest = chans.drop_last();
        lemma_min_len(rest);
        assert forall|c: int| 0 <= c < chans.len() implies min_len(chans) <= (
        #[trigger] chans[c]).len() by {
            if c < chans.len() - 1 {
                assert(rest[c] == chans[c]);
            }
        }
        let w = choose|c: int| 0 <= c < rest.len() && min_len(rest) == (#[trigger] rest[c]).len();
        assert(rest[w] == chans[w]);
        assert(min_len(chans) == chans[w].len() || min_len(chans) == chans[chans.len()
            - 1].len());
    }
}

/// A lower bound that one of the lengths attains is `min_len`.
pub proof fn lemma_min_len_unique(chans: Seq<Seq<i32>>, n: nat, c: int)
    requires
        0 <= c < chans.len(),
        chans[c].len() == n,
        forall|d: int| 0 <= d < chans.len() ==> n <= (#[trigger] chans[d]).len(),
    ensures
        min_len(chans) == n,
{
    lemma_min_len(chans);
    let w = choose|d: int| 0 <= d < chans.len() && min_len(chans) == (#[trigger] chans[d]).len();
    assert(min_len(chans) <= chans[c].len());
    assert(n <= chans[w].len());
}

/// The shortest channel, once `n` frames are gone.
pub proof fn lemma_min_len_skip(chans: Seq<Seq<i32>>, n: nat)
    requires
        n <= min_len(chans),
    ensures
        min_len(skip_frames(chans, n)) == min_len(chans) - n,
{
    lemma_min_len(chans);
    if chans.len() > 0 {
        let w = choose|d: int|
            0 <= d < chans.len() && min_len(chans) == (#[trigger] chans[d]).len();
        assert forall|d: int| 0 <= d < chans.len() implies min_len(chans) - n <= (
        #[trigger] skip_frames(chans, n)[d]).len() by {
            assert(min_len(chans) <= chans[d].len());
        }
        lemma_min_len_unique(skip_frames(chans, n), (min_len(chans) - n) as nat, w);
    }
}

/// The length of a frame.
pub proof fn lemma_frame_len(
    kind: StreamKind,
    bits: usize,
    chans: Seq<Seq<i32>>,
    i: int,
    n: nat,
)
    ensures
        frame_bytes(kind, bits, chans, i, n).len() == n * sample_width(bits),
    decreases n,
{
    if n > 0 {
        lemma_frame_len(kind, bits, chans, i, (n - 1) as nat);
        let w = sample_width(bits) as int;
        assert((n - 1) * w + w == n * w) by (nonlinear_arith);
    } else {
        assert(0 * sample_width(bits) == 0) by (nonlinear_arith);
    }
}

/// The length of the encoded frames.
pub proof fn lemma_encoded_len(
    kind: StreamKind,
    bits: usize,
    chans: Seq<Seq<i32>>,
    frames: nat,
)
    ensures
        encoded(kind, bits, chans, frames).len() == frames * (chans.len() * sample_width(bits)),
    decreases frames,
{
    let w = (chans.len() * sample_width(bits)) as int;
    if frames > 0 {
        lemma_encoded_len(kind, bits, chans, (frames - 1) as nat);
        lemma_frame_len(kind, bits, chans, frames - 1, chans.len());
        assert((frames - 1) * w + w == frames * w) by (nonlinear_arith);
    } else {
        assert(0 * w == 0) by (nonlinear_arith);
    }
}

/// A frame depends on the samples of that frame alone.
pub proof fn lemma_frame_same(
    kind: StreamKind,
    bits: usize,
    a: Seq<Seq<i32>>,
    i: int,
    b: Seq<Seq<i32>>,
    j: int,
    n: nat,
)
    requires
        forall|c: int| 0 <= c < n ==> (#[trigger] a[c])[i] == b[c][j],
    ensures
        frame_bytes(kind, bits, a, i, n) == frame_bytes(kind, bits, b, j, n),
    decreases n,
{
    if n > 0 {
        lemma_frame_same(kind, bits, a, i, b, j, (n - 1) as nat);
        assert(a[n - 1][i] == b[n - 1][j]);
    }
}

/// The encoded frames depend on the samples of those frames alone.
pub proof fn lemma_encoded_same(
    kind: StreamKind,
    bits: usize,
    a: Seq<Seq<i32>>,
    b: Seq<Seq<i32>>,
    frames: nat,
)
    requires
        a.len() == b.len(),
        forall|c: int, i: int|
            0 <= c < a.len() && 0 <= i < frames ==> #[trigger] a[c][i] == b[c][i],
    ensures
        encoded(kind, bits, a, frames) == encoded(kind, bits, b, frames),
    decreases frames,
{
    if frames > 0 {
        lemma_encoded_same(kind, bits, a, b, (frames - 1) as nat);
        assert forall|c: int| 0 <= c < a.len() implies (#[trigger] a[c])[frames - 1]
            == b[c][frames - 1] by {
            assert(a[c][frames - 1] == b[c][frames - 1]);
        }
        lemma_frame_same(kind, bits, a, frames - 1, b, frames - 1, a.len());
    }
}

/// Frames written in two batches are the frames written at once.
pub proof fn law_batches_concatenate(
    kind: StreamKind,
    bits: usize,
    chans: Seq<Seq<i32>>,
    first: nat,
    second: nat,
)
    requires
        first + second <= min_len(chans),
    ensures
        encoded(kind, bits, chans, first + second) == encoded(kind, bits, chans, first) + encoded(
            kind,
            bits,
            skip_frames(chans, first),
            second,
        ),
    decreases second,
{
    let rest = skip_frames(chans, first);
    if second == 0 {
        assert(encoded(kind, bits, chans, first) + encoded(kind, bits, rest, 0) =~= encoded(
            kind,
            bits,
            chans,
            first,
        ));
    } else {
        let m = (second - 1) as nat;
        law_batches_concatenate(kind, bits, chans, first, m);
        lemma_min_len(chans);
        assert forall|c: int| 0 <= c < chans.len() implies (#[trigger] rest[c])[m as int]
            == chans[c][(first + m) as int] by {
            assert(min_len(chans) <= chans[c].len());
        }
        lemma_frame_same(kind, bits, rest, m as int, chans, (first + m) as int, chans.len());
        assert(encoded(kind, bits, chans, first + second) =~= encoded(kind, bits, chans, first) + (
        encoded(kind, bits, rest, m) + frame_bytes(kind, bits, rest, m as int, chans.len())));
    }
}

/// Where a sample stands within its frame.
proof fn lemma_sample_in_frame(
    kind: StreamKind,
    bits: usize,
    chans: Seq<Seq<i32>>,
    i: int,
    n: nat,
    c: nat,
)
    requires
        c < n,
    ensures
        c * sample_width(bits) + sample_width(bits) <= n * sample_width(bits),
        frame_bytes(kind, bits, chans, i, n).subrange(
            (c * sample_width(bits)) as int,
            (c * sample_width(bits) + sample_width(bits)) as int,
        ) == sample_bytes(kind, bits, chans[c as int][i]),
    decreases n,
{
    let w = sample_width(bits) as int;
    let m = (n - 1) as nat;
    let frame = frame_bytes(kind, bits, chans, i, n);
    let prev = frame_bytes(kind, bits, chans, i, m);
    lemma_frame_len(kind, bits, chans, i, n);
    lemma_frame_len(kind, bits, chans, i, m);
    assert(c * w + w <= n * w) by (nonlinear_arith)
        requires
            c + 1 <= n,
            w >= 0,
    ;
    if c == m {
        assert(frame.subrange(c * w, c * w + w) =~= sample_bytes(kind, bits, chans[c as int][i]));
    } else {
        lemma_sample_in_frame(kind, bits, chans, i, m, c);
        assert(c * w >= 0) by (nonlinear_arith)
            requires
                c >= 0,
                w >= 0,
        ;
        assert(frame.subrange(c * w, c * w + w) =~= prev.subrange(c * w, c * w + w));
    }
}

/// Channels are interleaved: sample `i` of channel `c` stands at sample position
/// `i * channels + c` of the encoded bytes.
pub proof fn law_interleaving(
    kind: StreamKind,
    bits: usize,
    chans: Seq<Seq<i32>>,
    frames: nat,
    i: nat,
    c: nat,
)
    requires
        i < frames,
        c < chans.len(),
    ensures
        encoded(kind, bits, chans, frames).subrange(
            ((i * chans.len() + c) * sample_width(bits)) as int,
            ((i * chans.len() + c) * sample_width(bits) + sample_width(bits)) as int,
        ) == sample_bytes(kind, bits, chans[c as int][i as int]),
        (i * chans.len() + c) * sample_width(bits) + sample_width(bits) <= encoded(
            kind,
            bits,
            chans,
            frames,
        ).len(),
    decreases frames,
{
    let n = chans.len() as int;
    let w = sample_width(bits) as int;
    let m = (frames - 1) as nat;
    let off = (i * n + c) * w;
    let all = encoded(kind, bits, chans, frames);
    let prev = encoded(kind, bits, chans, m);
    let frame = frame_bytes(kind, bits, chans, m as int, chans.len());
    lemma_encoded_len(kind, bits, chans, frames);
    lemma_encoded_len(kind, bits, chans, m);
    lemma_frame_len(kind, bits, chans, m as int, chans.len());
    assert(off >= 0) by (nonlinear_arith)
        requires
            off == (i * n + c) * w,
            i >= 0,
            n >= 0,
            c >= 0,
            w >= 0,
    ;
    if i == m {
        lemma_sample_in_frame(kind, bits, chans, m as int, chans.len(), c);
        assert(off == m * (n * w) + c * w) by (nonlinear_arith)
            requires
                off == (i * n + c) * w,
                i == m,
        ;
        assert(all.subrange(off, off + w) =~= frame.subrange(c * w, c * w + w));
    } else {
        law_interleaving(kind, bits, chans, m, i, c);
        assert(all.subrange(off, off + w) =~= prev.subrange(off, off + w));
    }
}

/// The sample that the bytes of one sample stand for.
pub open spec fn read_sample(kind: StreamKind, bits: usize, b: Seq<u8>) -> int {
    let raw = if big_endian(kind) {
        be_value(b)
    } else {
        le_value(b)
    };
    let range = weight(sample_width(bits) as int);
    let signed = if 2 * raw >= range {
        raw - range
    } else {
        raw
    };
    if bits == 20 && kind != StreamKind::Flac {
        signed / 16
    } else {
        signed
    }
}

/// Whether a sample is in the range of its bit depth.
pub open spec fn in_range(bits: usize, v: i32) -> bool {
    if bits == 16 {
        -0x8000 <= v < 0x8000
    } else if bits == 20 {
        -0x8_0000 <= v < 0x8_0000
    } else if bits == 24 {
        -0x80_0000 <= v < 0x80_0000
    } else {
        true
    }
}

/// A sample in the range of its bit depth is read back as it was written. A
/// sample out of the range of 16 bits is read back as the nearest one in range.
pub proof fn law_sample_read_back(kind: StreamKind, bits: usize, v: i32)
    requires
        known_bits(bits),
        bits == 16 || in_range(bits, v),
    ensures
        read_sample(kind, bits, sample_bytes(kind, bits, v)) == if bits == 16 {
            clamp16(v as int)
        } else {
            v as int
        },
{
    let w = sample_width(bits);
    let s = stored_value(kind, bits, v);
    law_le_round_trip(s, w);
    law_be_round_trip(s, w);
    if bits == 16 {
        assert(s % 0x1_0000 == if s < 0 {
            s + 0x1_0000
        } else {
            s
        });
    } else if bits == 32 {
        assert(s % 0x1_0000_0000 == if s < 0 {
            s + 0x1_0000_0000
        } else {
            s
        });
    } else {
        assert(s % 0x100_0000 == if s < 0 {
            s + 0x100_0000
        } else {
            s
        });
    }
}

/// One empty queue a channel.
pub fn new_scratch(channels_num: usize) -> (r: Vec<Vec<i32>>)
    ensures
        channel_views(r@) == Seq::new(channels_num as nat, |c: int| Seq::<i32>::empty()),
{
    let mut r: Vec<Vec<i32>> = Vec::new();
    let mut c: usize = 0;
    while c < channels_num
        invariant
            c <= channels_num,
            r@.len() == c,
            forall|d: int| 0 <= d < c ==> (#[trigger] r@[d])@ == Seq::<i32>::empty(),
        decreases channels_num - c,
    {
        r.push(Vec::new());
        c = c + 1;
    }
    assert(channel_views(r@) =~= Seq::new(channels_num as nat, |c: int| Seq::<i32>::empty()));
    r
}

/// The number of whole frames in the scratch buffer.
pub fn min_frames(scratch: &Vec<Vec<i32>>) -> (r: usize)
    ensures
        r == min_len(channel_views(scratch@)),
{
    let n: usize = scratch.len();
    if n == 0 {
        return 0;
    }
    let mut r: usize = scratch[0].len();
    let ghost mut w: int = 0;
    let mut c: usize = 1;
    while c < n
        invariant
            1 <= c <= n,
            n == scratch@.len(),
            0 <= w < n,
            r == scratch@[w]@.len(),
            forall|d: int| 0 <= d < c ==> r <= (#[trigger] scratch@[d])@.len(),
        decreases n - c,
    {
        if scratch[c].len() < r {
            r = scratch[c].len();
            proof {
                w = c as int;
            }
        }
        c = c + 1;
    }
    proof {
        lemma_min_len_unique(channel_views(scratch@), r as nat, w);
    }
    r
}

/// Appends the bytes of one sample.
pub fn push_sample_bytes(buf: &mut Vec<u8>, kind: StreamKind, bits: usize, v: i32)
    requires
        known_bits(bits),
    ensures
        final(buf)@ == old(buf)@ + sample_bytes(kind, bits, v),
{
    let width: usize = if bits == 20 {
        3
    } else {
        bits / 8
    };
    let word: u32 = if bits == 16 {
        let low: i32 = if v < -32768 {
            -32768
        } else if v > 32767 {
            32767
        } else {
            v
        };
        word_of(low)
    } else if bits == 20 && kind != StreamKind::Flac {
        let w: u32 = word_of(v);
        let shifted: u32 = w.wrapping_mul(16);
        proof {
            lemma_bytes_congruent(16 * v, shifted as int, 3);
        }
        shifted
    } else {
        word_of(v)
    };
    if kind == StreamKind::Aiff || kind == StreamKind::Aifc {
        push_be(buf, word, width);
    } else {
        push_le(buf, word, width);
    }
}

/// The bytes of the first `frames` frames in the scratch buffer, interleaved.
pub fn encode_frames(
    kind: StreamKind,
    bits: usize,
    scratch: &Vec<Vec<i32>>,
    frames: usize,
) -> (r: Vec<u8>)
    requires
        known_bits(bits),
        frames <= min_len(channel_views(scratch@)),
    ensures
        r@ == encoded(kind, bits, channel_views(scratch@), frames as nat),
{
    let ghost chans = channel_views(scratch@);
    let n: usize = scratch.len();
    proof {
        lemma_min_len(chans);
        assert forall|c: int| 0 <= c < n implies frames <= (#[trigger] scratch@[c])@.len() by {
            assert(chans[c].len() >= min_len(chans));
        }
    }
    let width: usize = if bits == 20 {
        3
    } else {
        bits / 8
    };
    let mut buf: Vec<u8> = match n.checked_mul(width) {
        Some(frame) => match frame.checked_mul(frames) {
            Some(capacity) => Vec::with_capacity(capacity),
            None => Vec::new(),
        },
        None => Vec::new(),
    };
    let mut i: usize = 0;
    while i < frames
        invariant
            i <= frames,
            n == scratch@.len(),
            chans == channel_views(scratch@),
            known_bits(bits),
            forall|c: int| 0 <= c < n ==> frames <= (#[trigger] scratch@[c])@.len(),
            buf@ == encoded(kind, bits, chans, i as nat),
        decreases frames - i,
    {
        let ghost start = buf@;
        let mut c: usize = 0;
        while c < n
            invariant
                c <= n,
                i < frames,
                n == scratch@.len(),
                chans == channel_views(scratch@),
                known_bits(bits),
                forall|c: int| 0 <= c < n ==> frames <= (#[trigger] scratch@[c])@.len(),
                buf@ == start + frame_bytes(kind, bits, chans, i as int, c as nat),
            decreases n - c,
        {
            assert(scratch@[c as int]@.len() >= frames);
            push_sample_bytes(&mut buf, kind, bits, scratch[c][i]);
            c = c + 1;
            assert(buf@ =~= start + frame_bytes(kind, bits, chans, i as int, c as nat));
        }
        i = i + 1;
    }
    buf
}

/// Takes the first `frames` samples off every channel.
pub fn drain_frames(scratch: &mut Vec<Vec<i32>>, frames: usize)
    requires
        frames <= min_len(channel_views(old(scratch)@)),
    ensures
        channel_views(final(scratch)@) == skip_frames(
            channel_views(old(scratch)@),
            frames as nat,
        ),
{
    let ghost before = scratch@;
    let n: usize = scratch.len();
    proof {
        lemma_min_len(channel_views(before));
        assert forall|c: int| 0 <= c < n implies frames <= (#[trigger] before[c])@.len() by {
            assert(channel_views(before)[c].len() >= min_len(channel_views(before)));
        }
    }
    let mut c: usize = 0;
    while c < n
        invariant
            c <= n,
            n == before.len(),
            scratch@.len() == n,
            forall|d: int| 0 <= d < n ==> frames <= (#[trigger] before[d])@.len(),
            forall|d: int|
                0 <= d < c ==> (#[trigger] scratch@[d])@ == before[d]@.skip(frames as int),
            forall|d: int| c <= d < n ==> #[trigger] scratch@[d] == before[d],
        decreases n - c,
    {
        assert(scratch@[c as int] == before[c as int]);
        if frames == scratch[c].len() {
            scratch[c].clear();
        } else {
            let rest: Vec<i32> = scratch[c].split_off(frames);
            scratch[c] = rest;
        }
        assert(scratch@[c as int]@ =~= before[c as int]@.skip(frames as int));
        c = c + 1;
    }
    assert(channel_views(scratch@) =~= skip_frames(channel_views(before), frames as nat));
}

/// The bit depths: 16, 20, 24 and 32, and no others. A sample takes up two bytes at
/// 16 bits, three at 20 and 24, and four at 32; integers range from minus half the
/// numbers of that many bits up to half of them.
pub proof fn law_bit_depths(bits: usize, v: i32)
    ensures
        known_bits(bits) <==> (bits == 16 || bits == 20 || bits == 24 || bits == 32),
        bits == 16 ==> sample_width(bits) == 2,
        bits == 20 || bits == 24 ==> sample_width(bits) == 3,
        bits == 32 ==> sample_width(bits) == 4,
        bits == 16 || bits == 20 || bits == 24 ==> (in_range(bits, v) <==> -pow2(
            (bits - 1) as nat,
        ) <= v < pow2((bits - 1) as nat)),
{
    vstd::arithmetic::power2::lemma2_to64();
}

/// The bytes of a sample, read as a number in the byte order of the format: big-endian
/// in AIFF and AIFC files, little-endian in WAV and FLAC files. It is the sample in
/// two's complement. A 16-bit sample out of range is the nearest one in range, and
/// a 20-bit sample fills the upper 20 of 24 bits in all files but FLAC files.
pub proof fn law_sample_layout(kind: StreamKind, bits: usize, v: i32)
    ensures
        ({
            let b = sample_bytes(kind, bits, v);
            let number = if kind == StreamKind::Aiff || kind == StreamKind::Aifc {
                be_value(b)
            } else {
                le_value(b)
            };
            &&& bits == 16 ==> {
                &&& b.len() == 2
                &&& -0x8000 <= v < 0x8000 ==> number == v as int % 0x1_0000
                &&& v >= 0x8000 ==> number == 0x7FFF
                &&& v < -0x8000 ==> number == 0x8000
            }
            &&& bits == 20 && kind == StreamKind::Flac ==> b.len() == 3 && number == v as int
                % 0x100_0000
            &&& bits == 20 && kind != StreamKind::Flac ==> b.len() == 3 && number == (16 * v)
                % 0x100_0000
            &&& bits == 24 ==> b.len() == 3 && number == v as int % 0x100_0000
            &&& bits == 32 ==> b.len() == 4 && number == v as int % 0x1_0000_0000
        }),
{
    let s = stored_value(kind, bits, v);
    if known_bits(bits) {
        law_le_round_trip(s, sample_width(bits));
        law_be_round_trip(s, sample_width(bits));
    }
}

} // verus!
