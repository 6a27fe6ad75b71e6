//! The crate-wide error type.
use vstd::prelude::*;

verus! {

/// An error from the `imagine` crate.
#[derive(Debug, Clone, Copy, PartialEq, Eq, Structural)]
pub enum ImagineError {
    /// Failed to parse the data given.
    Parse,
    /// The allocator couldn't give us enough space.
    Alloc,
    /// The image is too large.
    ///
    /// The automatic decoders limit the width and height of images they
    /// process to be 17,000 or less to prevent accidental out-of-memory
    /// problems.
    DimensionsTooLarge,
    /// The declared width and/or height of this image is 0.
    WidthOrHeightZero,
    /// A checked math operation failed.
    CheckedMath,
}

} // verus!
