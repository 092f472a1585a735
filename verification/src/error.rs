//! Error kinds shared across the crate.

use vstd::prelude::*;

verus! {

/// Everything that can go wrong in construction, compute, or (de)serialization.
///
/// Construction validates invariants eagerly; compute operations fail only on
/// out-of-range inputs or type mismatches; readers report malformed bytes as
/// `InvalidSerialization` and unknown encoding codes as `UnknownEncoding`.
#[derive(Clone, Copy, Debug, PartialEq, Eq, Structural)]
pub enum VortexError {
    OutOfBounds,
    InvalidRange,
    TypeMismatch,
    InvalidSerialization,
    InvalidArrowType,
    UnknownEncoding,
    Io,
    InvalidMetadata,
}

/// Short human-readable name of an error kind, for callers that print errors.
pub fn error_name(e: &VortexError) -> (r: &'static str)
{
    match e {
        VortexError::OutOfBounds => "out of bounds",
        VortexError::InvalidRange => "invalid range",
        VortexError::TypeMismatch => "type mismatch",
        VortexError::InvalidSerialization => "invalid serialization",
        VortexError::InvalidArrowType => "invalid arrow type",
        VortexError::UnknownEncoding => "unknown encoding",
        VortexError::Io => "io",
        VortexError::InvalidMetadata => "invalid metadata",
    }
}

} // verus!
