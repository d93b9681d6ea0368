//! Standard output: channels written one after the other come out interleaved.
use vstd::prelude::*;
use vstd::arithmetic::div_mod::lemma_fundamental_div_mod;
use crate::bytes::{le_bytes, lemma_bytes_congruent};
use crate::container::overwrite;
use crate::clipping::{law_clamped, quantized_all, truncated};
use crate::pcm_writer::{
    float_samples, floats_packed, int_bytes, ints_packed, sample_offset, Block, PcmModel,
};
use crate::samples::{
    encoded, in_range, known_bits, law_interleaving, lemma_encoded_len, sample_bytes, sample_width,
    StreamKind,
};
use crate::types::OutputType;

verus! {

/// The `q`-th piece of `w` bytes of a buffer.
pub open spec fn slot(buf: Seq<u8>, w: nat, q: nat) -> Seq<u8> {
    buf.subrange((q * w) as int, (q * w + w) as int)
}

/// A buffer after integer samples were written to it, one channel after the
/// other, for the first `n` channels.
pub open spec fn int_channels(bits: usize, buf: Seq<u8>, chans: Seq<Seq<i32>>, n: nat) -> Seq<u8>
    decreases n,
{
    if n == 0 {
        buf
    } else {
        let c = (n - 1) as nat;
        ints_packed(bits, chans.len(), int_channels(bits, buf, chans, c), c, chans[c as int])
    }
}

/// A buffer after float samples were written to it, one channel after the other,
/// for the first `n` channels.
pub open spec fn float_channels(buf: Seq<u8>, chans: Seq<Seq<u32>>, n: nat) -> Seq<u8>
    decreases n,
{
    if n == 0 {
        buf
    } else {
        let c = (n - 1) as nat;
        floats_packed(chans.len(), float_channels(buf, chans, c), c, chans[c as int])
    }
}

/// Packing the samples of a channel leaves the size of a buffer alone.
proof fn lemma_packed_size(
    bits: usize,
    channels: nat,
    buf: Seq<u8>,
    chan: nat,
    values: Seq<i32>,
)
    ensures
        ints_packed(bits, channels, buf, chan, values).len() == buf.len(),
    decreases values.len(),
{
    if values.len() > 0 {
        lemma_packed_size(bits, channels, buf, chan, values.drop_last());
    }
}

/// Packing the samples of some channels leaves the size of a buffer alone.
pub proof fn lemma_channels_size(bits: usize, buf: Seq<u8>, chans: Seq<Seq<i32>>, n: nat)
    ensures
        int_channels(bits, buf, chans, n).len() == buf.len(),
    decreases n,
{
    if n > 0 {
        let c = (n - 1) as nat;
        lemma_channels_size(bits, buf, chans, c);
        lemma_packed_size(
            bits,
            chans.len(),
            int_channels(bits, buf, chans, c),
            c,
            chans[c as int],
        );
    }
}

/// Different slots do not overlap.
proof fn lemma_slots_apart(w: nat, q: nat, r: nat)
    requires
        q < r,
    ensures
        q * w + w <= r * w,
{
    assert(q * w + w <= r * w) by (nonlinear_arith)
        requires
            q + 1 <= r,
            w >= 0,
    ;
}

/// Overwriting a slot changes that slot and no other byte.
proof fn lemma_overwrite_slot(buf: Seq<u8>, w: nat, q: nat, piece: Seq<u8>)
    requires
        piece.len() == w,
        q * w + w <= buf.len(),
    ensures
        overwrite(buf, q * w, piece).len() == buf.len(),
        slot(overwrite(buf, q * w, piece), w, q) == piece,
        forall|r: nat|
            r != q && r * w + w <= buf.len() ==> #[trigger] slot(
                overwrite(buf, q * w, piece),
                w,
                r,
            ) == slot(buf, w, r),
        overwrite(buf, q * w, piece).skip((q * w + w) as int) == buf.skip((q * w + w) as int),
{
    let after = overwrite(buf, q * w, piece);
    assert(slot(after, w, q) =~= piece);
    assert forall|r: nat| r != q && r * w + w <= buf.len() implies #[trigger] slot(after, w, r)
        == slot(buf, w, r) by {
        if r < q {
            lemma_slots_apart(w, r, q);
        } else {
            lemma_slots_apart(w, q, r);
        }
        assert(slot(after, w, r) =~= slot(buf, w, r));
    }
    assert(after.skip((q * w + w) as int) =~= buf.skip((q * w + w) as int));
}

/// The place of a sample is a slot.
proof fn lemma_offset_is_slot(bits: usize, channels: nat, chan: nat, s: nat)
    ensures
        sample_offset(bits, channels, chan, s) == (s * channels + chan) * sample_width(bits),
{
    let w = sample_width(bits);
    assert(chan * w + s * (channels * w) == (s * channels + chan) * w) by (nonlinear_arith);
}

/// The slots of the first frames are within the buffer, and no two samples have
/// the same.
proof fn lemma_slot_in_frames(w: nat, channels: nat, frames: nat, chan: nat, s: nat)
    requires
        chan < channels,
        s < frames,
    ensures
        (s * channels + chan) * w + w <= frames * channels * w,
        s * channels + chan < frames * channels,
{
    assert(s * channels + chan + 1 <= frames * channels) by (nonlinear_arith)
        requires
            chan + 1 <= channels,
            s + 1 <= frames,
    ;
    let q = s * channels + chan;
    let total = frames * channels;
    assert(q * w + w <= total * w) by (nonlinear_arith)
        requires
            q + 1 <= total,
            w >= 0,
    ;
}

/// Two samples with the same slot are the same sample.
proof fn lemma_slot_unique(channels: nat, c: nat, s: nat, d: nat, t: nat)
    requires
        c < channels,
        d < channels,
        s * channels + c == t * channels + d,
    ensures
        c == d,
        s == t,
{
    if s < t {
        assert(s * channels + channels <= t * channels) by (nonlinear_arith)
            requires
                s + 1 <= t,
        ;
    } else if t < s {
        assert(t * channels + channels <= s * channels) by (nonlinear_arith)
            requires
                t + 1 <= s,
        ;
    }
}

/// What a buffer holds once the first samples of a channel are in it: those, in
/// their slots, and everything else as before.
pub open spec fn channel_placed(
    before: Seq<u8>,
    after: Seq<u8>,
    w: nat,
    channels: nat,
    frames: nat,
    chan: nat,
    pieces: Seq<Seq<u8>>,
) -> bool {
    &&& after.len() == before.len()
    &&& forall|s: nat|
        s < pieces.len() ==> #[trigger] slot(after, w, s * channels + chan) == pieces[s as int]
    &&& forall|c: nat, s: nat|
        c < channels && s < frames && c != chan ==> #[trigger] slot(after, w, s * channels + c)
            == slot(before, w, s * channels + c)
    &&& after.skip((frames * channels * w) as int) == before.skip(
        (frames * channels * w) as int,
    )
}

/// One more sample of a channel.
proof fn lemma_place_one(
    before: Seq<u8>,
    mid: Seq<u8>,
    w: nat,
    channels: nat,
    frames: nat,
    chan: nat,
    pieces: Seq<Seq<u8>>,
    piece: Seq<u8>,
)
    requires
        channel_placed(before, mid, w, channels, frames, chan, pieces),
        pieces.len() < frames,
        chan < channels,
        frames * channels * w <= before.len(),
        piece.len() == w,
    ensures
        ({
            let q = pieces.len() * channels + chan;
            &&& q * w + w <= mid.len()
            &&& channel_placed(
                before,
                overwrite(mid, q * w, piece),
                w,
                channels,
                frames,
                chan,
                pieces.push(piece),
            )
        }),
{
    let n = pieces.len();
    let q = n * channels + chan;
    lemma_slot_in_frames(w, channels, frames, chan, n);
    lemma_overwrite_slot(mid, w, q, piece);
    let after = overwrite(mid, q * w, piece);
    let all = pieces.push(piece);
    assert forall|s: nat| s < all.len() implies #[trigger] slot(after, w, s * channels + chan)
        == all[s as int] by {
        if s < n {
            lemma_slot_in_frames(w, channels, frames, chan, s);
            if s * channels + chan == q {
                lemma_slot_unique(channels, chan, s, chan, n);
            }
            assert(slot(mid, w, s * channels + chan) == pieces[s as int]);
        }
    }
    assert forall|c: nat, s: nat| c < channels && s < frames && c != chan implies #[trigger] slot(
        after,
        w,
        s * channels + c,
    ) == slot(before, w, s * channels + c) by {
        lemma_slot_in_frames(w, channels, frames, c, s);
        if s * channels + c == q {
            lemma_slot_unique(channels, c, s, chan, n);
        }
        assert(slot(mid, w, s * channels + c) == slot(before, w, s * channels + c));
    }
    let total = (frames * channels * w) as int;
    assert(after.skip(total) =~= mid.skip(total));
}

/// Nothing placed yet.
proof fn lemma_place_none(
    buf: Seq<u8>,
    w: nat,
    channels: nat,
    frames: nat,
    chan: nat,
)
    ensures
        channel_placed(buf, buf, w, channels, frames, chan, Seq::empty()),
{
}

/// Integer samples of one channel, in their slots.
proof fn lemma_ints_placed(
    bits: usize,
    channels: nat,
    buf: Seq<u8>,
    frames: nat,
    chan: nat,
    values: Seq<i32>,
)
    requires
        chan < channels,
        values.len() <= frames,
        frames * channels * sample_width(bits) <= buf.len(),
    ensures
        channel_placed(
            buf,
            ints_packed(bits, channels, buf, chan, values),
            sample_width(bits),
            channels,
            frames,
            chan,
            Seq::new(values.len(), |i: int| int_bytes(bits, values[i])),
        ),
    decreases values.len(),
{
    let w = sample_width(bits);
    let all = Seq::new(values.len(), |i: int| int_bytes(bits, values[i]));
    if values.len() == 0 {
        assert(all =~= Seq::empty());
        lemma_place_none(buf, w, channels, frames, chan);
    } else {
        let rest = values.drop_last();
        let pieces = Seq::new(rest.len(), |i: int| int_bytes(bits, rest[i]));
        lemma_ints_placed(bits, channels, buf, frames, chan, rest);
        lemma_offset_is_slot(bits, channels, chan, rest.len());
        lemma_place_one(
            buf,
            ints_packed(bits, channels, buf, chan, rest),
            w,
            channels,
            frames,
            chan,
            pieces,
            int_bytes(bits, values.last()),
        );
        assert(all =~= pieces.push(int_bytes(bits, values.last())));
    }
}

/// Float samples of one channel, in their slots.
proof fn lemma_floats_placed(
    channels: nat,
    buf: Seq<u8>,
    frames: nat,
    chan: nat,
    values: Seq<u32>,
)
    requires
        chan < channels,
        values.len() <= frames,
        frames * channels * 4 <= buf.len(),
    ensures
        channel_placed(
            buf,
            floats_packed(channels, buf, chan, values),
            4,
            channels,
            frames,
            chan,
            Seq::new(values.len(), |i: int| le_bytes(values[i] as int, 4)),
        ),
    decreases values.len(),
{
    let all = Seq::new(values.len(), |i: int| le_bytes(values[i] as int, 4));
    if values.len() == 0 {
        assert(all =~= Seq::empty());
        lemma_place_none(buf, 4, channels, frames, chan);
    } else {
        let rest = values.drop_last();
        let pieces = Seq::new(rest.len(), |i: int| le_bytes(rest[i] as int, 4));
        lemma_floats_placed(channels, buf, frames, chan, rest);
        lemma_offset_is_slot(32, channels, chan, rest.len());
        lemma_place_one(
            buf,
            floats_packed(channels, buf, chan, rest),
            4,
            channels,
            frames,
            chan,
            pieces,
            le_bytes(values.last() as int, 4),
        );
        assert(all =~= pieces.push(le_bytes(values.last() as int, 4)));
    }
}

/// Bytes that have the right samples in all slots are the encoded frames.
proof fn lemma_slots_encoded(bits: usize, buf: Seq<u8>, chans: Seq<Seq<i32>>, frames: nat)
    requires
        known_bits(bits),
        frames * chans.len() * sample_width(bits) <= buf.len(),
        forall|c: nat, s: nat|
            c < chans.len() && s < frames ==> #[trigger] slot(
                buf,
                sample_width(bits),
                s * chans.len() + c,
            ) == sample_bytes(StreamKind::Wav, bits, chans[c as int][s as int]),
    ensures
        buf.take((frames * chans.len() * sample_width(bits)) as int) == encoded(
            StreamKind::Wav,
            bits,
            chans,
            frames,
        ),
{
    let w = sample_width(bits);
    let n = chans.len();
    let total = (frames * n * w) as int;
    let want = encoded(StreamKind::Wav, bits, chans, frames);
    lemma_encoded_len(StreamKind::Wav, bits, chans, frames);
    assert(frames * (n * w) == total) by (nonlinear_arith)
        requires
            total == frames * n * w,
    ;
    assert forall|p: int| 0 <= p < total implies buf[p] == want[p] by {
        let q = p / (w as int);
        let k = p % (w as int);
        lemma_fundamental_div_mod(p, w as int);
        assert(p == w * q + k);
        assert(w * q == q * w) by (nonlinear_arith);
        assert(q < frames * n) by (nonlinear_arith)
            requires
                q * w <= p,
                p < frames * n * w,
                w >= 1,
        ;
        assert(q >= 0) by (nonlinear_arith)
            requires
                p == w * q + k,
                p >= 0,
                k < w,
                w >= 1,
        ;
        assert(n >= 1) by (nonlinear_arith)
            requires
                q < frames * n,
                q >= 0,
                n >= 0,
        ;
        let s = q / (n as int);
        let c = q % (n as int);
        lemma_fundamental_div_mod(q, n as int);
        assert(q == n * s + c);
        assert(n * s == s * n) by (nonlinear_arith);
        assert(s < frames) by (nonlinear_arith)
            requires
                s * n <= q,
                q < frames * n,
                n >= 1,
        ;
        assert(s >= 0) by (nonlinear_arith)
            requires
                q == n * s + c,
                q >= 0,
                c < n,
                n >= 1,
        ;
        law_interleaving(StreamKind::Wav, bits, chans, frames, s as nat, c as nat);
        let piece = sample_bytes(StreamKind::Wav, bits, chans[c][s]);
        assert((s as nat) * n + (c as nat) == q);
        assert(slot(buf, w, (s as nat) * n + (c as nat)) == piece);
        assert(slot(buf, w, q as nat)[k] == buf[p]);
        assert(want.subrange(q * w, q * w + w)[k] == want[p]);
    }
    assert(buf.take(total) =~= want);
}

/// The pieces of a sample in range.
proof fn lemma_piece(bits: usize, v: i32)
    requires
        known_bits(bits),
        bits != 32,
        in_range(bits, v),
    ensures
        int_bytes(bits, v) == sample_bytes(StreamKind::Wav, bits, v),
{
}

/// The channels written so far are in their slots.
proof fn lemma_int_channels(
    bits: usize,
    buf: Seq<u8>,
    chans: Seq<Seq<i32>>,
    frames: nat,
    n: nat,
)
    requires
        known_bits(bits),
        n <= chans.len(),
        forall|c: int| 0 <= c < chans.len() ==> (#[trigger] chans[c]).len() == frames,
        frames * chans.len() * sample_width(bits) <= buf.len(),
    ensures
        int_channels(bits, buf, chans, n).len() == buf.len(),
        forall|c: nat, s: nat|
            c < n && s < frames ==> #[trigger] slot(
                int_channels(bits, buf, chans, n),
                sample_width(bits),
                s * chans.len() + c,
            ) == int_bytes(bits, chans[c as int][s as int]),
        int_channels(bits, buf, chans, n).skip(
            (frames * chans.len() * sample_width(bits)) as int,
        ) == buf.skip((frames * chans.len() * sample_width(bits)) as int),
    decreases n,
{
    if n > 0 {
        let d = (n - 1) as nat;
        let w = sample_width(bits);
        lemma_int_channels(bits, buf, chans, frames, d);
        let mid = int_channels(bits, buf, chans, d);
        let after = int_channels(bits, buf, chans, n);
        assert(chans[d as int].len() == frames);
        lemma_ints_placed(bits, chans.len(), mid, frames, d, chans[d as int]);
        assert forall|c: nat, s: nat| c < n && s < frames implies #[trigger] slot(
            after,
            w,
            s * chans.len() + c,
        ) == int_bytes(bits, chans[c as int][s as int]) by {
            if c != d {
                assert(slot(after, w, s * chans.len() + c) == slot(mid, w, s * chans.len() + c));
            }
        }
    }
}

/// The channels written so far are in their slots.
proof fn lemma_float_channels(buf: Seq<u8>, chans: Seq<Seq<u32>>, frames: nat, n: nat)
    requires
        n <= chans.len(),
        forall|c: int| 0 <= c < chans.len() ==> (#[trigger] chans[c]).len() == frames,
        frames * chans.len() * 4 <= buf.len(),
    ensures
        float_channels(buf, chans, n).len() == buf.len(),
        forall|c: nat, s: nat|
            c < n && s < frames ==> #[trigger] slot(
                float_channels(buf, chans, n),
                4,
                s * chans.len() + c,
            ) == le_bytes(chans[c as int][s as int] as int, 4),
        float_channels(buf, chans, n).skip((frames * chans.len() * 4) as int) == buf.skip(
            (frames * chans.len() * 4) as int,
        ),
    decreases n,
{
    if n > 0 {
        let d = (n - 1) as nat;
        lemma_float_channels(buf, chans, frames, d);
        let mid = float_channels(buf, chans, d);
        let after = float_channels(buf, chans, n);
        assert(chans[d as int].len() == frames);
        lemma_floats_placed(chans.len(), mid, frames, d, chans[d as int]);
        assert forall|c: nat, s: nat| c < n && s < frames implies #[trigger] slot(
            after,
            4,
            s * chans.len() + c,
        ) == le_bytes(chans[c as int][s as int] as int, 4) by {
            if c != d {
                assert(slot(after, 4, s * chans.len() + c) == slot(mid, 4, s * chans.len() + c));
            }
        }
    }
}

/// When as many integer samples, in range, were written for every channel, the
/// buffer for standard output begins with all frames, interleaved, and the rest
/// of it is as before.
pub proof fn law_stdout_interleaves_ints(
    bits: usize,
    buf: Seq<u8>,
    chans: Seq<Seq<i32>>,
    frames: nat,
)
    requires
        known_bits(bits),
        bits != 32,
        forall|c: int| 0 <= c < chans.len() ==> (#[trigger] chans[c]).len() == frames,
        forall|c: int, s: int|
            0 <= c < chans.len() && 0 <= s < frames ==> in_range(bits, #[trigger] chans[c][s]),
        frames * chans.len() * sample_width(bits) <= buf.len(),
    ensures
        ({
            let after = int_channels(bits, buf, chans, chans.len());
            let total = (frames * chans.len() * sample_width(bits)) as int;
            &&& after.take(total) == encoded(StreamKind::Wav, bits, chans, frames)
            &&& after.skip(total) == buf.skip(total)
        }),
{
    let after = int_channels(bits, buf, chans, chans.len());
    let w = sample_width(bits);
    lemma_int_channels(bits, buf, chans, frames, chans.len());
    assert forall|c: nat, s: nat| c < chans.len() && s < frames implies #[trigger] slot(
        after,
        w,
        s * chans.len() + c,
    ) == sample_bytes(StreamKind::Wav, bits, chans[c as int][s as int]) by {
        lemma_piece(bits, chans[c as int][s as int]);
    }
    lemma_slots_encoded(bits, after, chans, frames);
}

/// The same for float samples.
pub proof fn law_stdout_interleaves_floats(buf: Seq<u8>, chans: Seq<Seq<u32>>, frames: nat)
    requires
        forall|c: int| 0 <= c < chans.len() ==> (#[trigger] chans[c]).len() == frames,
        frames * chans.len() * 4 <= buf.len(),
    ensures
        ({
            let after = float_channels(buf, chans, chans.len());
            let total = (frames * chans.len() * 4) as int;
            let samples = Seq::new(chans.len(), |c: int| float_samples(chans[c]));
            &&& after.take(total) == encoded(StreamKind::Wav, 32, samples, frames)
            &&& after.skip(total) == buf.skip(total)
        }),
{
    let after = float_channels(buf, chans, chans.len());
    let samples = Seq::new(chans.len(), |c: int| float_samples(chans[c]));
    lemma_float_channels(buf, chans, frames, chans.len());
    assert forall|c: nat, s: nat| c < samples.len() && s < frames implies #[trigger] slot(
        after,
        4,
        s * samples.len() + c,
    ) == sample_bytes(StreamKind::Wav, 32, samples[c as int][s as int]) by {
        assert(chans[c as int].len() == frames);
        let u = chans[c as int][s as int];
        let v = u as i32;
        assert(samples[c as int][s as int] == v);
        assert((u as i32) == u || (u as i32) == u - 0x1_0000_0000) by (bit_vector);
        lemma_bytes_congruent(v as int, u as int, 4);
        assert(slot(after, 4, s * chans.len() + c) == le_bytes(u as int, 4));
    }
    lemma_slots_encoded(32, after, samples, frames);
}

/// A writer after blocks were written for the first `n` channels.
pub open spec fn blocks_written(m: PcmModel, blocks: Seq<Block>, n: nat) -> PcmModel
    decreases n,
{
    if n == 0 {
        m
    } else {
        blocks_written(m, blocks, (n - 1) as nat).written(blocks[n - 1], (n - 1) as nat)
    }
}

/// The rounded samples of a block.
pub open spec fn rounded(block: Block) -> Seq<i64> {
    match block {
        Block::Rounded(v) => v@,
        Block::Floats(_) => Seq::empty(),
    }
}

/// What the blocks hold for each channel once they are quantized.
pub open spec fn quantized_blocks(peak: int, blocks: Seq<Block>) -> Seq<Seq<i32>> {
    Seq::new(blocks.len(), |c: int| quantized_all(peak, rounded(blocks[c])))
}

/// Writing blocks is packing their quantized samples.
proof fn lemma_blocks_packed(m: PcmModel, blocks: Seq<Block>, n: nat)
    requires
        m.output == OutputType::Stdout,
        m.stream is None,
        m.channels == blocks.len(),
        n <= blocks.len(),
        forall|c: int| 0 <= c < blocks.len() ==> (#[trigger] blocks[c]) is Rounded,
    ensures
        ({
            let after = blocks_written(m, blocks, n);
            &&& after.buf == int_channels(m.bits, m.buf, quantized_blocks(m.peak, blocks), n)
            &&& after.bits == m.bits && after.peak == m.peak && after.channels == m.channels
            &&& after.output == m.output && after.stream is None
        }),
    decreases n,
{
    if n > 0 {
        lemma_blocks_packed(m, blocks, (n - 1) as nat);
        assert(blocks[n - 1] is Rounded);
    }
}

/// When a block of as many rounded samples was written for every channel, what
/// goes to standard output is their quantized frames, interleaved.
pub proof fn law_stdout_blocks(m: PcmModel, blocks: Seq<Block>, frames: nat)
    requires
        m.wf(),
        m.bits != 32,
        m.output == OutputType::Stdout,
        m.channels == blocks.len(),
        forall|c: int|
            0 <= c < blocks.len() ==> (#[trigger] blocks[c]) is Rounded && blocks[c].count()
                == frames,
        frames * blocks.len() * sample_width(m.bits) <= m.buf.len(),
    ensures
        blocks_written(m, blocks, blocks.len()).buf.take(
            (frames * blocks.len() * sample_width(m.bits)) as int,
        ) == encoded(StreamKind::Wav, m.bits, quantized_blocks(m.peak, blocks), frames),
{
    let chans = quantized_blocks(m.peak, blocks);
    lemma_blocks_packed(m, blocks, blocks.len());
    assert forall|c: int| 0 <= c < chans.len() implies (#[trigger] chans[c]).len() == frames by {
        assert(blocks[c] is Rounded && blocks[c].count() == frames);
    }
    assert forall|c: int, s: int| 0 <= c < chans.len() && 0 <= s < frames implies in_range(
        m.bits,
        #[trigger] chans[c][s],
    ) by {
        assert(chans[c].len() == frames);
        law_clamped(m.peak, truncated(rounded(blocks[c])[s]) as int);
    }
    law_stdout_interleaves_ints(m.bits, m.buf, chans, frames);
}

} // verus!
