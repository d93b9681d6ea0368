//! The filter from raw DSD64 to raw PCM: its options, and how it lays out blocks.
//!
//! The filter reads planar DSD in blocks, one block for each channel in turn, and
//! writes interleaved PCM, least significant byte first.
use vstd::prelude::*;
use crate::bytes::push_zeros;
use crate::pcm_writer::{has_places, ints_packed, pack_channel, sample_offset};
use crate::samples::{encoded, in_range, sample_width, StreamKind};
use crate::stdout_layout::{int_channels, law_stdout_interleaves_ints, lemma_channels_size};
use crate::text::{decimal_value, digits_value, is_digit, same_text, without_plus};

verus! {

/// The bytes in a block of one channel, each of which gives one sample.
pub const BLOCK: usize = 4096;

/// The options of the filter.
#[derive(Copy, Clone, PartialEq, Eq, Debug, Structural)]
pub struct FilterOptions {
    pub channels: usize,
    pub lsb_first: bool,
    pub bits: usize,
}

/// Why there are no options.
#[derive(Copy, Clone, PartialEq, Eq, Debug, Structural)]
pub enum OptionsError {
    /// There are not three arguments
    Usage,
    /// An argument is not valid
    Invalid,
}

/// The number that an argument stands for: digits, with or without a plus sign.
pub open spec fn argument_value(s: Seq<char>) -> Option<nat> {
    digits_value(without_plus(s))
}

/// The number of channels that an argument gives: from 1 to 9.
pub open spec fn channels_of(s: Seq<char>) -> Option<nat> {
    match argument_value(s) {
        Some(n) => if 1 <= n <= 9 {
            Some(n)
        } else {
            None
        },
        None => None,
    }
}

/// The bit order that an argument gives: least significant bit first or not.
pub open spec fn bit_order_of(s: Seq<char>) -> Option<bool> {
    if s == "L"@ || s == "l"@ {
        Some(true)
    } else if s == "M"@ || s == "m"@ {
        Some(false)
    } else {
        None
    }
}

/// The bit depth that an argument gives.
pub open spec fn bit_depth_of(s: Seq<char>) -> Option<usize> {
    if s == "16"@ {
        Some(16)
    } else if s == "24"@ {
        Some(24)
    } else {
        None
    }
}

/// The options that the arguments give, the first of which is the program's name.
pub open spec fn options_of(args: Seq<Seq<char>>) -> Result<FilterOptions, OptionsError> {
    if args.len() != 4 {
        Err(OptionsError::Usage)
    } else {
        match (channels_of(args[1]), bit_order_of(args[2]), bit_depth_of(args[3])) {
            (Some(channels), Some(lsb_first), Some(bits)) => Ok(
                FilterOptions { channels: channels as usize, lsb_first, bits },
            ),
            _ => Err(OptionsError::Invalid),
        }
    }
}

/// Reads the number of channels.
fn parse_channels(s: &str) -> (r: Option<usize>)
    ensures
        match r {
            Some(n) => channels_of(s@) == Some(n as nat),
            None => channels_of(s@) is None,
        },
{
    let len: usize = s.unicode_len();
    let first: usize = if len > 0 && s.get_char(0) == '+' {
        1
    } else {
        0
    };
    let ghost digits = without_plus(s@);
    assert(digits =~= s@.skip(first as int));
    if first == len {
        return None;
    }
    let text: &str = s.substring_char(first, len);
    assert(text@ =~= digits);
    let mut value: usize = 0;
    let mut too_large: bool = false;
    assert(digits.take(0) =~= Seq::empty());
    for c in it: text.chars()
        invariant
            it.seq() == digits,
            digits == without_plus(s@),
            text@ == digits,
            forall|i: int| 0 <= i < it.index() ==> is_digit(#[trigger] digits[i]),
            !too_large ==> value == decimal_value(digits.take(it.index() as int)) && value <= 9,
            too_large ==> decimal_value(digits.take(it.index() as int)) > 9,
    {
        if c < '0' || '9' < c {
            assert(!is_digit(digits[it.index() as int]));
            return None;
        }
        proof {
            let k = it.index() as int;
            assert(digits.take(k + 1).drop_last() =~= digits.take(k));
            assert(digits.take(k + 1).last() == digits[k]);
        }
        if !too_large {
            value = value * 10 + (c as usize - 48);
            if value > 9 {
                too_large = true;
            }
        }
    }
    assert(digits.take(digits.len() as int) =~= digits);
    if too_large || value < 1 {
        return None;
    }
    Some(value)
}

/// What a list of arguments says.
pub open spec fn argument_views(args: Seq<String>) -> Seq<Seq<char>> {
    Seq::new(args.len(), |i: int| args[i]@)
}

/// Reads the options, the first argument being the program's name.
pub fn parse_options(args: &Vec<String>) -> (r: Result<FilterOptions, OptionsError>)
    ensures
        r == options_of(argument_views(args@)),
{
    if args.len() != 4 {
        return Err(OptionsError::Usage);
    }
    let channels: Option<usize> = parse_channels(args[1].as_str());
    let order: &str = args[2].as_str();
    let lsb_first: Option<bool> = if same_text(order, "L") || same_text(order, "l") {
        Some(true)
    } else if same_text(order, "M") || same_text(order, "m") {
        Some(false)
    } else {
        None
    };
    let depth: &str = args[3].as_str();
    let bits: Option<usize> = if same_text(depth, "16") {
        Some(16)
    } else if same_text(depth, "24") {
        Some(24)
    } else {
        None
    };
    match (channels, lsb_first, bits) {
        (Some(channels), Some(lsb_first), Some(bits)) => Ok(
            FilterOptions { channels, lsb_first, bits },
        ),
        _ => Err(OptionsError::Invalid),
    }
}

impl FilterOptions {
    /// Options that the filter can have.
    pub open spec fn valid(self) -> bool {
        1 <= self.channels <= 9 && (self.bits == 16 || self.bits == 24)
    }

    /// The bytes of PCM that come of one block of every channel.
    pub open spec fn pcm_size(self) -> nat {
        BLOCK as nat * self.channels as nat * sample_width(self.bits)
    }
}

/// Where the block of a channel begins in the DSD.
pub open spec fn block_start(chan: nat) -> nat {
    chan * BLOCK as nat
}

/// The blocks of the channels follow each other from the beginning on, each of 4096
/// bytes.
pub proof fn law_blocks_in_turn(chan: nat)
    ensures
        block_start(0) == 0,
        block_start(chan + 1) == block_start(chan) + 4096,
{
    assert((chan + 1) * 4096 == chan * 4096 + 4096) by (nonlinear_arith);
}

/// The options that arguments give are valid.
pub proof fn law_options_valid(args: Seq<Seq<char>>)
    ensures
        options_of(args) matches Ok(o) ==> o.valid(),
{
}

/// Digits that stand for a number below ten are zeros but for the last.
proof fn lemma_small_number(s: Seq<char>)
    requires
        s.len() > 0,
        forall|i: int| 0 <= i < s.len() ==> is_digit(#[trigger] s[i]),
    ensures
        decimal_value(s) <= 9 <==> (forall|i: int| 0 <= i < s.len() - 1 ==> #[trigger] s[i] == '0'),
        decimal_value(s) <= 9 ==> decimal_value(s) == s.last() as int - 48,
    decreases s.len(),
{
    reveal_with_fuel(decimal_value, 2);
    let rest = s.drop_last();
    assert(is_digit(s[s.len() - 1]));
    if rest.len() > 0 {
        assert forall|i: int| 0 <= i < rest.len() implies is_digit(#[trigger] rest[i]) by {
            assert(rest[i] == s[i]);
        }
        lemma_small_number(rest);
        assert(rest.last() == s[s.len() - 2]);
        if decimal_value(s) <= 9 {
            assert(decimal_value(rest) == 0);
            assert forall|i: int| 0 <= i < s.len() - 1 implies #[trigger] s[i] == '0' by {
                assert(is_digit(s[i]));
                if i < rest.len() - 1 {
                    assert(rest[i] == '0');
                }
            }
        }
        if forall|i: int| 0 <= i < s.len() - 1 ==> #[trigger] s[i] == '0' {
            assert forall|i: int| 0 <= i < rest.len() - 1 implies #[trigger] rest[i] == '0' by {
                assert(s[i] == '0');
            }
            assert(s[s.len() - 2] == '0');
        }
    }
}

/// Whether an argument is a number from 1 to 9, written with a plus sign or not
/// and with or without zeros before it.
pub open spec fn is_small_number(s: Seq<char>) -> bool {
    &&& s.len() > 0
    &&& '1' <= s.last() <= '9'
    &&& forall|i: int|
        0 <= i < s.len() - 1 ==> #[trigger] s[i] == '0' || (i == 0 && s[i] == '+')
}

/// Which arguments are numbers of channels, and which numbers they are.
proof fn lemma_channels_argument(s: Seq<char>)
    ensures
        channels_of(s) is Some <==> is_small_number(s),
        channels_of(s) matches Some(n) ==> n == s.last() as int - 48,
{
    let d = without_plus(s);
    let k: int = if s.len() > 0 && s[0] == '+' {
        1
    } else {
        0
    };
    assert(d.len() == s.len() - k);
    assert forall|i: int| 0 <= i < d.len() implies #[trigger] d[i] == s[i + k] by {}
    if channels_of(s) is Some {
        lemma_small_number(d);
        assert forall|i: int| 0 <= i < s.len() - 1 implies #[trigger] s[i] == '0' || (i == 0
            && s[i] == '+') by {
            if i >= k {
                assert(d[i - k] == '0');
            }
        }
        assert(d.last() == s.last());
    }
    if is_small_number(s) {
        assert(d.len() > 0);
        assert(d.last() == s.last());
        assert forall|i: int| 0 <= i < d.len() - 1 implies #[trigger] d[i] == '0' by {
            assert(d[i] == s[i + k]);
        }
        assert forall|i: int| 0 <= i < d.len() implies is_digit(#[trigger] d[i]) by {
            if i < d.len() - 1 {
                assert(d[i] == '0');
            }
        }
        lemma_small_number(d);
    }
}

/// What the options say of the arguments they come from: the channels are the last
/// digit of the first argument; the bit order is the letter that the second one
/// consists of, L for least significant bit first and M for most significant, in
/// either case; the bit depth is the two digits of the third one.
pub proof fn law_options_say(args: Seq<Seq<char>>)
    ensures
        options_of(args) matches Ok(o) ==> {
            &&& args.len() == 4
            &&& is_small_number(args[1])
            &&& o.channels == args[1].last() as int - '0' as int
            &&& args[2].len() == 1
            &&& o.lsb_first <==> (args[2][0] == 'L' || args[2][0] == 'l')
            &&& !o.lsb_first <==> (args[2][0] == 'M' || args[2][0] == 'm')
            &&& args[3].len() == 2
            &&& o.bits == 16 <==> (args[3][0] == '1' && args[3][1] == '6')
            &&& o.bits == 24 <==> (args[3][0] == '2' && args[3][1] == '4')
        },
{
    reveal_strlit("L");
    reveal_strlit("l");
    reveal_strlit("M");
    reveal_strlit("m");
    reveal_strlit("16");
    reveal_strlit("24");
    if args.len() == 4 {
        lemma_channels_argument(args[1]);
    }
}

/// When there are options: three arguments follow the program's name, a number from
/// 1 to 9, one of the letters L and M in either case, and 16 or 24. Any other
/// number of arguments asks for the usage, any other arguments are not valid.
pub proof fn law_options_given(args: Seq<Seq<char>>)
    ensures
        args.len() != 4 <==> options_of(args) == Err::<FilterOptions, OptionsError>(
            OptionsError::Usage,
        ),
        (args.len() == 4 && is_small_number(args[1]) && args[2].len() == 1 && (args[2][0] == 'L'
            || args[2][0] == 'l' || args[2][0] == 'M' || args[2][0] == 'm') && args[3].len() == 2
            && ((args[3][0] == '1' && args[3][1] == '6') || (args[3][0] == '2' && args[3][1]
            == '4'))) <==> options_of(args) is Ok,
{
    reveal_strlit("L");
    reveal_strlit("l");
    reveal_strlit("M");
    reveal_strlit("m");
    reveal_strlit("16");
    reveal_strlit("24");
    if args.len() == 4 {
        lemma_channels_argument(args[1]);
        let (a, b) = (args[2], args[3]);
        if a.len() == 1 {
            assert(a[0] == 'L' ==> a =~= "L"@);
            assert(a[0] == 'l' ==> a =~= "l"@);
            assert(a[0] == 'M' ==> a =~= "M"@);
            assert(a[0] == 'm' ==> a =~= "m"@);
        }
        if b.len() == 2 {
            assert(b[0] == '1' && b[1] == '6' ==> b =~= "16"@);
            assert(b[0] == '2' && b[1] == '4' ==> b =~= "24"@);
        }
    }
}

/// How the bit order argument matters: its case does not, and the two letters give
/// opposite bit orders and the same options otherwise.
pub proof fn law_bit_order_letters(args: Seq<Seq<char>>)
    requires
        args.len() == 4,
    ensures
        options_of(args.update(2, seq!['L'])) == options_of(args.update(2, seq!['l'])),
        options_of(args.update(2, seq!['M'])) == options_of(args.update(2, seq!['m'])),
        match (options_of(args.update(2, seq!['L'])), options_of(args.update(2, seq!['M']))) {
            (Ok(l), Ok(m)) => {
                &&& l.lsb_first
                &&& !m.lsb_first
                &&& l.channels == m.channels
                &&& l.bits == m.bits
            },
            (Err(e), Err(f)) => e == f,
            _ => false,
        },
{
    law_options_say(args.update(2, seq!['L']));
    law_options_say(args.update(2, seq!['l']));
    law_options_say(args.update(2, seq!['M']));
    law_options_say(args.update(2, seq!['m']));
    law_options_given(args.update(2, seq!['L']));
    law_options_given(args.update(2, seq!['l']));
    law_options_given(args.update(2, seq!['M']));
    law_options_given(args.update(2, seq!['m']));
}

/// A block is 4096 bytes of DSD a channel, and gives as many samples of two bytes at
/// 16 bits and of three bytes at 24 bits.
pub proof fn law_block_size(o: FilterOptions)
    requires
        o.valid(),
    ensures
        BLOCK == 4096,
        o.bits == 16 ==> o.pcm_size() == 8192 * o.channels,
        o.bits == 24 ==> o.pcm_size() == 12288 * o.channels,
{
    let c = o.channels as int;
    assert(4096 * c * 2 == 8192 * c && 4096 * c * 3 == 12288 * c) by (nonlinear_arith);
}

/// The PCM of one block of every channel.
pub struct PcmBlock {
    options: FilterOptions,
    pcm: Vec<u8>,
}

impl PcmBlock {
    /// The options of the filter.
    pub closed spec fn options(&self) -> FilterOptions {
        self.options
    }

    /// What every operation keeps.
    pub closed spec fn wf(&self) -> bool {
        self.options.valid() && self.pcm@.len() == self.options.pcm_size()
    }

    /// The PCM.
    pub closed spec fn pcm(&self) -> Seq<u8> {
        self.pcm@
    }

    /// A valid block has valid options and the right size.
    pub proof fn wf_options(&self)
        requires
            self.wf(),
        ensures
            self.options().valid(),
            self.pcm().len() == self.options().pcm_size(),
    {
    }

    /// A block of zeros.
    pub fn new(options: FilterOptions) -> (r: Self)
        requires
            options.valid(),
        ensures
            r.wf(),
            r.options() == options,
            r.pcm() == Seq::new(options.pcm_size(), |i: int| 0u8),
    {
        let width: usize = options.bits / 8;
        let mut pcm: Vec<u8> = Vec::new();
        assert(BLOCK * options.channels * width <= 4096 * 9 * 3) by (nonlinear_arith)
            requires
                BLOCK == 4096,
                options.channels <= 9,
                width <= 3,
        ;
        push_zeros(&mut pcm, BLOCK * options.channels * width);
        assert(pcm@ =~= Seq::new(options.pcm_size(), |i: int| 0u8));
        PcmBlock { options, pcm }
    }

    /// The bytes of DSD in one block of every channel.
    pub fn dsd_size(&self) -> (r: usize)
        requires
            self.wf(),
        ensures
            r == BLOCK * self.options().channels,
    {
        BLOCK * self.options.channels
    }

    /// Where the block of a channel begins in the DSD.
    pub fn dsd_start(&self, chan: usize) -> (r: usize)
        requires
            self.wf(),
            chan < self.options().channels,
        ensures
            r == block_start(chan as nat),
    {
        chan * BLOCK
    }

    /// Takes the samples of one channel.
    pub fn put_channel(&mut self, chan: usize, samples: &Vec<i32>)
        requires
            old(self).wf(),
            chan < old(self).options().channels,
            samples@.len() == BLOCK,
        ensures
            final(self).wf(),
            final(self).options() == old(self).options(),
            final(self).pcm() == ints_packed(
                old(self).options().bits,
                old(self).options().channels as nat,
                old(self).pcm(),
                chan as nat,
                samples@,
            ),
    {
        proof {
            lemma_block_places(self.options, self.pcm@, chan as nat, samples@);
        }
        pack_channel(&mut self.pcm, self.options.bits, self.options.channels, chan, samples);
    }

    /// The PCM.
    pub fn bytes(&self) -> (r: &Vec<u8>)
        ensures
            r@ == self.pcm(),
    {
        &self.pcm
    }
}

/// The samples of a block have their places in the PCM.
proof fn lemma_block_places(o: FilterOptions, pcm: Seq<u8>, chan: nat, samples: Seq<i32>)
    requires
        o.valid(),
        chan < o.channels,
        samples.len() == BLOCK,
        pcm.len() == o.pcm_size(),
    ensures
        has_places(o.bits, o.channels as nat, pcm.len(), samples.len(), chan),
{
    let w = sample_width(o.bits);
    let n = o.channels as nat;
    assert forall|s: nat| s <= BLOCK implies #[trigger] sample_offset(o.bits, n, chan, s) + w
        <= 1_000_000 by {
        assert(chan * w + s * (n * w) + w <= 1_000_000) by (nonlinear_arith)
            requires
                chan <= 9,
                w <= 3,
                s <= 4096,
                n <= 9,
        ;
    }
    assert(BLOCK as nat * n * w <= pcm.len());
}

/// Once the samples of every channel are in, the PCM is all frames, interleaved.
pub proof fn law_block_interleaved(o: FilterOptions, pcm: Seq<u8>, chans: Seq<Seq<i32>>)
    requires
        o.valid(),
        pcm.len() == o.pcm_size(),
        chans.len() == o.channels,
        forall|c: int| 0 <= c < chans.len() ==> (#[trigger] chans[c]).len() == BLOCK,
        forall|c: int, s: int|
            0 <= c < chans.len() && 0 <= s < BLOCK ==> in_range(o.bits, #[trigger] chans[c][s]),
    ensures
        int_channels(o.bits, pcm, chans, chans.len()) == encoded(
            StreamKind::Wav,
            o.bits,
            chans,
            BLOCK as nat,
        ),
{
    law_stdout_interleaves_ints(o.bits, pcm, chans, BLOCK as nat);
    let after = int_channels(o.bits, pcm, chans, chans.len());
    lemma_channels_size(o.bits, pcm, chans, chans.len());
    assert(after.take(o.pcm_size() as int) =~= after);
}

} // verus!
