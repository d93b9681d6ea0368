//! A conversion: where the DSD comes from and the writer that its PCM goes to.
use vstd::prelude::*;
use vstd::arithmetic::div_mod::lemma_fundamental_div_mod;
use crate::pcm_writer::{buffer_fits, new_error, new_model, OutPath, PcmError, PcmModel, PcmWriter};
use crate::samples::sample_width;
use crate::types::{DsdRate, Endianness, FilterType, FmtType, OutputType};

verus! {

/// What is known of the DSD input.
pub struct DsdSource {
    pub in_format: FmtType,
    pub endianness: Endianness,
    pub dsd_rate: DsdRate,
    /// The bytes in a block of one channel
    pub block_size: u32,
    pub channels_num: u32,
    /// The name of the input file; none for standard input
    pub file_name: Option<String>,
}

/// The DSD input, mathematically.
#[verifier::ext_equal]
pub struct SourceModel {
    pub in_format: FmtType,
    pub endianness: Endianness,
    pub dsd_rate: DsdRate,
    pub block_size: u32,
    pub channels_num: u32,
    pub file_name: Option<Seq<char>>,
}

impl View for DsdSource {
    type V = SourceModel;

    open spec fn view(&self) -> SourceModel {
        SourceModel {
            in_format: self.in_format,
            endianness: self.endianness,
            dsd_rate: self.dsd_rate,
            block_size: self.block_size,
            channels_num: self.channels_num,
            file_name: match self.file_name {
                Some(n) => Some(n@),
                None => None,
            },
        }
    }
}

/// What a conversion does between input and output.
pub struct ConversionPlan {
    pub filt_type: FilterType,
    /// Whether the sample rate is appended to file names and album tags
    pub append_rate_suffix: bool,
    /// The directory that output paths are relative to
    pub base_dir: std::path::PathBuf,
    pub decim_ratio: i32,
    pub upsample_ratio: u32,
}

/// The smallest whole number that is not below `a / b`.
pub open spec fn ceil_div(a: int, b: int) -> int {
    (a + b - 1) / b
}

/// The magnitude of a number.
pub open spec fn magnitude(n: int) -> int {
    if n < 0 {
        -n
    } else {
        n
    }
}

/// The extra frames, if the rate is raised.
pub open spec fn frames_slack(upsample: u32) -> int {
    if upsample > 1 {
        16
    } else {
        0
    }
}

/// The frames to make room for, for each block of input: as many as the bits of
/// one channel can give, and some more if the rate is raised.
pub open spec fn frames_cap(block_size: usize, decim: i32, upsample: u32) -> int {
    ceil_div(block_size * 8 * upsample, magnitude(decim as int)) + frames_slack(upsample)
}

/// Whether that number can be computed.
pub open spec fn frames_cap_fits(block_size: usize, decim: i32, upsample: u32) -> bool {
    &&& decim != 0
    &&& decim != i32::MIN
    &&& block_size * 8 <= usize::MAX
    &&& block_size * 8 * upsample + magnitude(decim as int) - 1 <= usize::MAX
    &&& frames_cap(block_size, decim, upsample) <= usize::MAX
}

/// The frames, even without the extra ones, are enough for the bits of a block:
/// every `M / L` bits give one frame at most. No smaller number would do.
pub proof fn law_frames_cap_enough(block_size: usize, decim: i32, upsample: u32)
    requires
        decim != 0,
    ensures
        (frames_cap(block_size, decim, upsample) - frames_slack(upsample)) * magnitude(
            decim as int,
        ) >= block_size * 8 * upsample,
        (frames_cap(block_size, decim, upsample) - frames_slack(upsample) - 1) * magnitude(
            decim as int,
        ) < block_size * 8 * upsample,
        frames_slack(upsample) >= 0,
{
    let a = block_size * 8 * upsample;
    let b = magnitude(decim as int);
    let q = (a + b - 1) / b;
    lemma_fundamental_div_mod(a + b - 1, b);
    assert(q * b == b * q) by (nonlinear_arith);
    assert((q - 1) * b == q * b - b) by (nonlinear_arith);
}

/// Whether the frames to make room for can be computed.
pub fn is_frames_cap_fitting(block_size: usize, decim: i32, upsample: u32) -> (r: bool)
    ensures
        r == frames_cap_fits(block_size, decim, upsample),
{
    if decim == 0 || decim == i32::MIN {
        return false;
    }
    let m: usize = if decim < 0 {
        (-decim) as usize
    } else {
        decim as usize
    };
    let bits: usize = match block_size.checked_mul(8) {
        Some(bits) => bits,
        None => {
            return false;
        },
    };
    let scaled: usize = match bits.checked_mul(upsample as usize) {
        Some(scaled) => scaled,
        None => {
            return false;
        },
    };
    match scaled.checked_add(m - 1) {
        Some(sum) => if upsample > 1 {
            sum / m <= usize::MAX - 16
        } else {
            true
        },
        None => false,
    }
}

/// The input of a conversion: what a container file says of its content takes the
/// place of what the caller says.
pub open spec fn chosen_source(raw: DsdSource, container: Option<DsdSource>) -> DsdSource {
    match container {
        Some(c) => c,
        None => raw,
    }
}

/// What a container says is always believed, and what the caller says only without one.
pub proof fn law_container_first(raw: DsdSource, other: DsdSource, container: DsdSource)
    ensures
        chosen_source(raw, Some(container)) == container,
        chosen_source(raw, Some(container)) == chosen_source(other, Some(container)),
        chosen_source(raw, None) == raw,
{
}

/// A conversion from DSD to PCM.
pub struct Rdsd2Pcm {
    source: DsdSource,
    writer: PcmWriter,
    plan: ConversionPlan,
}

impl Rdsd2Pcm {
    /// The input.
    pub closed spec fn source(&self) -> SourceModel {
        self.source@
    }

    /// The output.
    pub closed spec fn writer_model(&self) -> PcmModel {
        self.writer@
    }

    /// What is done in between.
    pub closed spec fn plan(&self) -> ConversionPlan {
        self.plan
    }

    /// What every operation keeps.
    pub closed spec fn wf(&self) -> bool {
        self.writer.wf()
    }

    /// Makes a conversion. What a container file says of its content takes the
    /// place of what the caller says of the input.
    pub fn new(
        bit_depth: i32,
        out_type: OutputType,
        out_rate: u32,
        out_path: OutPath,
        raw: DsdSource,
        container: Option<DsdSource>,
        plan: ConversionPlan,
    ) -> (r: Result<Self, PcmError>)
        requires
            ({
                let source = chosen_source(raw, container);
                conversion_fits(bit_depth, out_type, out_path, source, plan)
            }),
        ensures
            ({
                let source = chosen_source(raw, container);
                is_conversion(r, bit_depth, out_type, out_rate, out_path, source, plan)
            }),
    {
        let source: DsdSource = match container {
            Some(c) => c,
            None => raw,
        };
        Self::delegate_new(source, bit_depth, out_type, out_rate, out_path, plan)
    }

    /// Makes a conversion of a container file.
    pub fn from_container(
        bit_depth: i32,
        out_type: OutputType,
        out_rate: u32,
        out_path: OutPath,
        container: DsdSource,
        plan: ConversionPlan,
    ) -> (r: Result<Self, PcmError>)
        requires
            conversion_fits(bit_depth, out_type, out_path, container, plan),
        ensures
            is_conversion(r, bit_depth, out_type, out_rate, out_path, container, plan),
    {
        Self::delegate_new(container, bit_depth, out_type, out_rate, out_path, plan)
    }

    /// Makes a conversion.
    fn delegate_new(
        source: DsdSource,
        bit_depth: i32,
        out_type: OutputType,
        out_rate: u32,
        out_path: OutPath,
        plan: ConversionPlan,
    ) -> (r: Result<Self, PcmError>)
        requires
            conversion_fits(bit_depth, out_type, out_path, source, plan),
        ensures
            is_conversion(r, bit_depth, out_type, out_rate, out_path, source, plan),
    {
        let out_frames_capacity: usize = Self::calc_frames_cap(
            source.block_size as usize,
            plan.decim_ratio,
            plan.upsample_ratio,
        );
        let bits: usize = if bit_depth < 0 {
            0
        } else {
            bit_depth as usize
        };
        match PcmWriter::new(
            bits,
            out_type,
            out_rate,
            out_path,
            out_frames_capacity,
            source.channels_num as usize,
        ) {
            Ok(writer) => Ok(Rdsd2Pcm { source, writer, plan }),
            Err(e) => Err(e),
        }
    }

    /// The frames to make room for, for each block of input.
    pub fn calc_frames_cap(block_size: usize, decim: i32, upsample: u32) -> (r: usize)
        requires
            frames_cap_fits(block_size, decim, upsample),
        ensures
            r == frames_cap(block_size, decim, upsample),
    {
        let bits_per_chan: usize = block_size * 8;
        let m: usize = if decim < 0 {
            (-decim) as usize
        } else {
            decim as usize
        };
        let frames_max: usize = (bits_per_chan * (upsample as usize) + (m - 1)) / m;
        let lm_slack: usize = if upsample > 1 {
            16
        } else {
            0
        };
        frames_max + lm_slack
    }

    /// The name of the input file, or the empty text for standard input.
    pub fn file_name(&self) -> (r: String)
        ensures
            r@ == match self.source().file_name {
                Some(n) => n,
                None => Seq::empty(),
            },
    {
        match &self.source.file_name {
            Some(n) => n.clone(),
            None => String::new(),
        }
    }

    /// The input, what is done with it, and the writer for the output.
    pub fn into_parts(self) -> (r: (DsdSource, ConversionPlan, PcmWriter))
        requires
            self.wf(),
        ensures
            r.0@ == self.source(),
            r.1 == self.plan(),
            r.2@ == self.writer_model(),
            r.2.wf(),
    {
        (self.source, self.plan, self.writer)
    }
}

/// The bit depth of a writer for the bit depth that was asked for. No negative
/// number is one.
pub open spec fn writer_bits(bit_depth: i32) -> usize {
    if bit_depth < 0 {
        0
    } else {
        bit_depth as usize
    }
}

/// Whether the room that a conversion needs can be computed and allocated.
pub open spec fn conversion_fits(
    bit_depth: i32,
    out_type: OutputType,
    out_path: OutPath,
    source: DsdSource,
    plan: ConversionPlan,
) -> bool {
    &&& frames_cap_fits(source.block_size as usize, plan.decim_ratio, plan.upsample_ratio)
    &&& new_error(writer_bits(bit_depth), out_type, out_path) is None ==> buffer_fits(
        frames_cap(source.block_size as usize, plan.decim_ratio, plan.upsample_ratio) as usize,
        source.channels_num as usize,
        sample_width(writer_bits(bit_depth)),
    )
}

/// What making a conversion gives.
pub open spec fn is_conversion(
    r: Result<Rdsd2Pcm, PcmError>,
    bit_depth: i32,
    out_type: OutputType,
    out_rate: u32,
    out_path: OutPath,
    source: DsdSource,
    plan: ConversionPlan,
) -> bool {
    match r {
        Ok(c) => {
            &&& new_error(writer_bits(bit_depth), out_type, out_path) is None
            &&& c.wf()
            &&& c.source() == source@
            &&& c.plan() == plan
            &&& c.writer_model() == new_model(
                writer_bits(bit_depth),
                out_type,
                out_rate,
                out_path,
                frames_cap(source.block_size as usize, plan.decim_ratio, plan.upsample_ratio)
                    as usize,
                source.channels_num as usize,
            )
        },
        Err(e) => new_error(writer_bits(bit_depth), out_type, out_path) == Some(e@),
    }
}

/// The room for a block of input: it is the smallest number of frames that is enough
/// for the bits of one channel, each `M / L` of which give a frame, and sixteen
/// frames more if the rate is raised. The sign of the decimation does not matter.
pub proof fn law_frames_cap(block_size: usize, decim: i32, upsample: u32)
    requires
        decim != 0,
    ensures
        ({
            let bits = 8 * block_size * upsample;
            let m = if decim < 0 {
                -decim
            } else {
                decim as int
            };
            let frames = frames_cap(block_size, decim, upsample) - if upsample > 1 {
                16int
            } else {
                0
            };
            &&& frames * m >= bits
            &&& (frames - 1) * m < bits
        }),
        decim != i32::MIN ==> frames_cap(block_size, decim, upsample) == frames_cap(
            block_size,
            (-decim) as i32,
            upsample,
        ),
{
    law_frames_cap_enough(block_size, decim, upsample);
    assert(8 * block_size * upsample == block_size * 8 * upsample) by (nonlinear_arith);
}

/// A conversion that is made has the input and the plan it was made for, and a writer
/// with the bit depth, the output, the rate and the channels that were asked for,
/// without clips and without an open stream. It is made only with one of the four
/// bit depths, and never with a negative one.
pub proof fn law_conversion(
    r: Result<Rdsd2Pcm, PcmError>,
    bit_depth: i32,
    out_type: OutputType,
    out_rate: u32,
    out_path: OutPath,
    source: DsdSource,
    plan: ConversionPlan,
)
    requires
        is_conversion(r, bit_depth, out_type, out_rate, out_path, source, plan),
    ensures
        r matches Ok(c) ==> {
            &&& bit_depth == 16 || bit_depth == 20 || bit_depth == 24 || bit_depth == 32
            &&& c.source() == source@
            &&& c.plan() == plan
            &&& c.writer_model().bits == bit_depth
            &&& c.writer_model().output == out_type
            &&& c.writer_model().rate == out_rate
            &&& c.writer_model().channels == source.channels_num
            &&& c.writer_model().clip.clips == 0
            &&& c.writer_model().stream is None
            &&& (out_path matches OutPath::Resolved(p) ==> c.writer_model().path == Some(p))
            &&& (out_path is Absent ==> c.writer_model().path is None)
        },
        bit_depth != 16 && bit_depth != 20 && bit_depth != 24 && bit_depth != 32 ==> (
        r matches Err(e) && e@ is BitDepth),
{
}

/// The room can be computed if the bits of a block, times the upsampling, are a number
/// of 32 bits with some to spare.
pub proof fn law_frames_cap_fits(block_size: usize, decim: i32, upsample: u32)
    requires
        decim != 0,
        decim != i32::MIN,
        upsample >= 1,
        8 * block_size * upsample + 0x8000_0010 <= 0xffff_ffff,
    ensures
        frames_cap_fits(block_size, decim, upsample),
{
    let a = block_size * 8 * upsample;
    let m = magnitude(decim as int);
    assert(8 * block_size * upsample == a && block_size * 8 <= a) by (nonlinear_arith)
        requires
            a == block_size * 8 * upsample,
            upsample >= 1,
            block_size >= 0,
    ;
    law_frames_cap_enough(block_size, decim, upsample);
    let q = ceil_div(a, m);
    assert(q - 1 <= (q - 1) * m || q < 1) by (nonlinear_arith)
        requires
            m >= 1,
    ;
}

} // verus!
