//! Errors of the low-level PNG decoding routines (chunk walking, inflating
//! and unfiltering).
use vstd::prelude::*;

verus! {

/// Something that can go wrong while decoding PNG data.
#[derive(Debug, Clone, Copy, PartialEq, Eq, Structural)]
pub enum PngError {
    /// The data ended before decoding was finished.
    UnexpectedEndOfInput,
    /// The bytes don't start with the PNG signature.
    NoPngSignature,
    /// The zlib compression method isn't 8 (deflate).
    IllegalCompressionMethod,
    /// The zlib compression info is above 7.
    IllegalCompressionInfo,
    /// The zlib flag check failed, or a preset dictionary was requested.
    IllegalFlagCheck,
    /// A stored block's `LEN` and `NLEN` weren't complements.
    LenAndNLenDidNotMatch,
    /// The output buffer is too small for the decompressed data.
    OutputOverflow,
    /// The code lengths of a Huffman tree don't describe a valid tree.
    BadDynamicHuffmanTreeData,
    /// No literal/length symbol matched the input bits.
    CouldNotFindLitLenSymbol,
    /// No distance symbol matched the input bits.
    CouldNotFindDistSymbol,
    /// A back reference points before the start of the output.
    BackRefToBeforeOutputStart,
    /// The header's filter method isn't the adaptive method.
    IllegalFilterMethod,
    /// The buffer given for unfiltering has the wrong size for the header.
    TempMemoryWrongSizeForHeader,
    /// A filter type byte was above 4.
    IllegalAdaptiveFilterType,
    /// Interlaced images can't be unfiltered by this routine.
    InterlaceNotSupported,
}

/// The result of a low-level PNG decoding step.
pub type PngResult<T> = Result<T, PngError>;

} // verus!
