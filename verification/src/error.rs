use vstd::prelude::*;

verus! {

/// A failure of the core byte-accounting pipeline. Every operation either
/// succeeds or reports exactly one of these kinds; no partial output is ever
/// produced alongside a failure.
#[derive(Clone, Copy, Debug, PartialEq, Eq, Structural)]
pub enum BinImageError {
    /// The requested bit-depth code is not one of the supported codes.
    UnsupportedBitDepth,
    /// Both a width and a height constraint were supplied; at most one axis
    /// may be fixed by the caller.
    ConflictingConstraints,
    /// A requested axis demands more pixels than the whole image needs.
    DimensionTooLarge,
    /// Padding would come out negative: the dimensions handed to the padding
    /// step cannot hold the buffer. This signals a defect in the caller's
    /// sequencing, never in a buffer's contents.
    InvariantViolation,
}

impl BinImageError {
    /// A short description of the failure, for callers that print one.
    pub fn message(&self) -> &'static str {
        match self {
            BinImageError::UnsupportedBitDepth => "Unsupported bitdepth",
            BinImageError::ConflictingConstraints => "Both width and height were supplied",
            BinImageError::DimensionTooLarge => "Requested dimension is too large",
            BinImageError::InvariantViolation => "Resolved dimensions cannot hold the buffer",
        }
    }
}

} // verus!
