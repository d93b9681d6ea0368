//! The choices a caller makes about the DSD input and the PCM output.
use vstd::prelude::*;

verus! {

/// DSD bit endianness
#[derive(Copy, Clone, PartialEq, Eq, Debug, Structural)]
pub enum Endianness {
    LsbFirst,
    MsbFirst,
}

/// DSD channel format
#[derive(Copy, Clone, PartialEq, Eq, Debug, Structural)]
pub enum FmtType {
    /// Block per channel
    Planar,
    /// Byte per channel
    Interleaved,
}

/// DSD sample rate, as a multiple of 44.1 kHz
#[derive(Copy, Clone, PartialEq, Eq, Debug, Structural)]
pub enum DsdRate {
    DSD64,
    DSD128,
    DSD256,
}

/// Output dither type
#[derive(Copy, Clone, PartialEq, Eq, Debug, Structural)]
pub enum DitherType {
    /// Triangular probability density function dither
    TPDF,
    /// Airwindows floating-point dither.
    /// Randomizes when casting from the internal double precision sample
    /// values to single precision for 32 bit float outputs.
    FPD,
    Rectangular,
    /// No dither at all
    Off,
}

/// Decimation filter type
#[derive(Copy, Clone, PartialEq, Eq, Debug, Structural)]
pub enum FilterType {
    /// From the dsd2pcm C library (only for DSD64 to 352.8kHz output)
    Dsd2Pcm,
    /// Standard windowed sinc lowpass filter with equiripple design.
    /// Available for all input and output rates supported by the library.
    Equiripple,
    /// Inverse chebyshev. Only available for DSD128 to 88.2kHz multiples
    Chebyshev,
    /// As in XLD. Only for DSD64 to 88.2kHz multiples
    XLD,
}

impl Default for FilterType {
    /// The equiripple filter, the one that every rate supports.
    fn default() -> (r: Self)
        ensures
            r == FilterType::Equiripple,
    {
        FilterType::Equiripple
    }
}

/// Output type to write. Either standard output or file.
#[derive(Copy, Clone, PartialEq, Eq, Debug, Structural)]
pub enum OutputType {
    /// Raw PCM to stdout
    Stdout,
    Wav,
    Aiff,
    Aifc,
    Flac,
}

} // verus!
