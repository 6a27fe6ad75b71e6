//! Byte arrays that are expected to hold ASCII text, such as the magic tags
//! of image formats.
use vstd::prelude::*;

verus! {

/// An array of bytes expected to contain ASCII data (nothing enforces it).
#[derive(Debug, Clone, Copy, PartialEq, Eq, Hash)]
pub struct AsciiArray<const N: usize>(pub [u8; N]);

impl<const N: usize> From<[u8; N]> for AsciiArray<N> {
    fn from(array: [u8; N]) -> (out: Self) {
        AsciiArray(array)
    }
}

impl<const N: usize> vstd::std_specs::convert::FromSpecImpl<[u8; N]> for AsciiArray<N> {
    open spec fn obeys_from_spec() -> bool {
        true
    }

    open spec fn from_spec(array: [u8; N]) -> Self {
        AsciiArray(array)
    }
}

} // verus!
