//! Errors of the inference engine, surfaced to the caller as they are.
use vstd::prelude::*;
use crate::quant::GgmlType;

verus! {

#[derive(Debug, Clone, PartialEq, Eq)]
pub enum BrainError {
    /// The model file is missing.
    NotFound,
    /// Wrong magic or version, truncated stream, unknown type tag.
    BadContainer,
    /// A tensor's declared range escapes the mapping.
    BadOffset,
    /// A required tensor is absent; holds its name.
    MissingWeight(Vec<u8>),
    /// A required tensor uses a block format without a kernel.
    UnsupportedQuant(GgmlType),
    /// The architecture is not a LLaMA-family decoder.
    UnsupportedArch,
    /// Hyperparameters or buffer sizes disagree.
    ShapeMismatch,
    /// Generation would pass the context length.
    GenerationOverflow,
}

} // verus!
