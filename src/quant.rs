//! Block formats of GGML tensors and the integer side of their decoders.
//!
//! Every supported block decodes to values of the form
//! `f16(d) * mul[i] - f16(dmin) * sub[i]`, where `d` and `dmin` are half-precision
//! bit patterns stored in the block and `mul`, `sub` are small integers taken
//! from the packed quants and sub-block scales. This module recovers those
//! integers bit-exactly; the final scaling by the half-precision factors is a
//! floating-point step left to the caller.
use vstd::prelude::*;

verus! {

/// GGML tensor element / block formats, as tagged in a GGUF tensor descriptor.
#[derive(Debug, Clone, Copy, PartialEq, Eq, Structural)]
pub enum GgmlType {
    F32,
    F16,
    Q4_0,
    Q4_1,
    Q5_0,
    Q5_1,
    Q8_0,
    Q8_1,
    Q2K,
    Q3K,
    Q4K,
    Q5K,
    Q6K,
    Q8K,
    IQ2XXS,
    IQ2XS,
    IQ3XXS,
    IQ1S,
    IQ4NL,
    IQ3S,
    IQ2S,
    IQ4XS,
    I8,
    I16,
    I32,
    I64,
    F64,
    IQ1M,
    BF16,
}

/// The numeric tag that GGUF files use for each format.
pub open spec fn type_tag(t: GgmlType) -> u32 {
    match t {
        GgmlType::F32 => 0,
        GgmlType::F16 => 1,
        GgmlType::Q4_0 => 2,
        GgmlType::Q4_1 => 3,
        GgmlType::Q5_0 => 6,
        GgmlType::Q5_1 => 7,
        GgmlType::Q8_0 => 8,
        GgmlType::Q8_1 => 9,
        GgmlType::Q2K => 10,
        GgmlType::Q3K => 11,
        GgmlType::Q4K => 12,
        GgmlType::Q5K => 13,
        GgmlType::Q6K => 14,
        GgmlType::Q8K => 15,
        GgmlType::IQ2XXS => 16,
        GgmlType::IQ2XS => 17,
        GgmlType::IQ3XXS => 18,
        GgmlType::IQ1S => 19,
        GgmlType::IQ4NL => 20,
        GgmlType::IQ3S => 21,
        GgmlType::IQ2S => 22,
        GgmlType::IQ4XS => 23,
        GgmlType::I8 => 24,
        GgmlType::I16 => 25,
        GgmlType::I32 => 26,
        GgmlType::I64 => 27,
        GgmlType::F64 => 28,
        GgmlType::IQ1M => 29,
        GgmlType::BF16 => 30,
    }
}

/// The tags that name a format: 0 to 30, but for the retired 4 and 5.
pub open spec fn known_tag(tag: u32) -> bool {
    tag <= 30 && tag != 4 && tag != 5
}

/// Whether the dequantization kernels handle this format.
pub open spec fn supported(t: GgmlType) -> bool {
    matches!(t, GgmlType::F32 | GgmlType::F16 | GgmlType::Q4_0 | GgmlType::Q8_0
        | GgmlType::Q2K | GgmlType::Q3K | GgmlType::Q4K | GgmlType::Q5K | GgmlType::Q6K)
}

/// Elements per block of a supported format.
pub open spec fn spec_block_size(t: GgmlType) -> nat {
    match t {
        GgmlType::F32 | GgmlType::F16 => 1,
        GgmlType::Q4_0 | GgmlType::Q8_0 => 32,
        _ => 256,
    }
}

/// Bytes per block of a supported format.
pub open spec fn spec_type_size(t: GgmlType) -> nat {
    match t {
        GgmlType::F32 => 4,
        GgmlType::F16 => 2,
        GgmlType::Q4_0 => 18,
        GgmlType::Q8_0 => 34,
        GgmlType::Q2K => 84,
        GgmlType::Q3K => 110,
        GgmlType::Q4K => 144,
        GgmlType::Q5K => 176,
        _ => 210,
    }
}

/// A format decoded block by block into `mul` / `sub` codes (all but F32 and F16).
pub open spec fn is_block_format(t: GgmlType) -> bool {
    supported(t) && t != GgmlType::F32 && t != GgmlType::F16
}

impl GgmlType {
    /// The format with the given GGUF tag, if any.
    pub fn from_tag(tag: u32) -> (r: Option<GgmlType>)
        ensures
            r matches Some(t) ==> type_tag(t) == tag,
            r is None <==> !known_tag(tag),
    {
        let r = match tag {
            0 => Some(GgmlType::F32),
            1 => Some(GgmlType::F16),
            2 => Some(GgmlType::Q4_0),
            3 => Some(GgmlType::Q4_1),
            6 => Some(GgmlType::Q5_0),
            7 => Some(GgmlType::Q5_1),
            8 => Some(GgmlType::Q8_0),
            9 => Some(GgmlType::Q8_1),
            10 => Some(GgmlType::Q2K),
            11 => Some(GgmlType::Q3K),
            12 => Some(GgmlType::Q4K),
            13 => Some(GgmlType::Q5K),
            14 => Some(GgmlType::Q6K),
            15 => Some(GgmlType::Q8K),
            16 => Some(GgmlType::IQ2XXS),
            17 => Some(GgmlType::IQ2XS),
            18 => Some(GgmlType::IQ3XXS),
            19 => Some(GgmlType::IQ1S),
            20 => Some(GgmlType::IQ4NL),
            21 => Some(GgmlType::IQ3S),
            22 => Some(GgmlType::IQ2S),
            23 => Some(GgmlType::IQ4XS),
            24 => Some(GgmlType::I8),
            25 => Some(GgmlType::I16),
            26 => Some(GgmlType::I32),
            27 => Some(GgmlType::I64),
            28 => Some(GgmlType::F64),
            29 => Some(GgmlType::IQ1M),
            30 => Some(GgmlType::BF16),
            _ => None,
        };
        r
    }

    /// The GGUF tag of this format.
    pub fn tag(self) -> (r: u32)
        ensures
            r == type_tag(self),
    {
        match self {
            GgmlType::F32 => 0,
            GgmlType::F16 => 1,
            GgmlType::Q4_0 => 2,
            GgmlType::Q4_1 => 3,
            GgmlType::Q5_0 => 6,
            GgmlType::Q5_1 => 7,
            GgmlType::Q8_0 => 8,
            GgmlType::Q8_1 => 9,
            GgmlType::Q2K => 10,
            GgmlType::Q3K => 11,
            GgmlType::Q4K => 12,
            GgmlType::Q5K => 13,
            GgmlType::Q6K => 14,
            GgmlType::Q8K => 15,
            GgmlType::IQ2XXS => 16,
            GgmlType::IQ2XS => 17,
            GgmlType::IQ3XXS => 18,
            GgmlType::IQ1S => 19,
            GgmlType::IQ4NL => 20,
            GgmlType::IQ3S => 21,
            GgmlType::IQ2S => 22,
            GgmlType::IQ4XS => 23,
            GgmlType::I8 => 24,
            GgmlType::I16 => 25,
            GgmlType::I32 => 26,
            GgmlType::I64 => 27,
            GgmlType::F64 => 28,
            GgmlType::IQ1M => 29,
            GgmlType::BF16 => 30,
        }
    }

    /// Elements per block.
    pub fn block_size(self) -> (r: usize)
        requires
            supported(self),
        ensures
            r == spec_block_size(self),
    {
        match self {
            GgmlType::F32 | GgmlType::F16 => 1,
            GgmlType::Q4_0 | GgmlType::Q8_0 => 32,
            _ => 256,
        }
    }

    /// Bytes per block.
    pub fn type_size(self) -> (r: usize)
        requires
            supported(self),
        ensures
            r == spec_type_size(self),
    {
        match self {
            GgmlType::F32 => 4,
            GgmlType::F16 => 2,
            GgmlType::Q4_0 => 18,
            GgmlType::Q8_0 => 34,
            GgmlType::Q2K => 84,
            GgmlType::Q3K => 110,
            GgmlType::Q4K => 144,
            GgmlType::Q5K => 176,
            _ => 210,
        }
    }
}

/// Check if a GGML type is supported by the current backend.
pub fn is_type_supported(ggml_type: GgmlType) -> (r: bool)
    ensures
        r == supported(ggml_type),
{
    match ggml_type {
        GgmlType::F32 | GgmlType::F16 | GgmlType::Q4_0 | GgmlType::Q8_0 | GgmlType::Q2K
        | GgmlType::Q3K | GgmlType::Q4K | GgmlType::Q5K | GgmlType::Q6K => true,
        _ => false,
    }
}

/// Why a row of quantized data could not be decoded.
#[derive(Debug, Clone, Copy, PartialEq, Eq, Structural)]
pub enum QuantError {
    /// The block format has no kernel.
    UnsupportedQuant(GgmlType),
    /// The byte slice is shorter than the blocks it must hold.
    ShapeMismatch,
}

} // verus!
