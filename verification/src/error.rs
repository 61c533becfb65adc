//! The error surface of the decoder. Every failure during parsing or
//! decompression is one of these values; nothing is retried or suppressed.

use vstd::prelude::*;

verus! {

/// A fatal parsing or decompression failure.
#[derive(Debug, Clone, PartialEq)]
pub enum ParserError {
    /// Input exhausted in the middle of a field or sub-block.
    UnexpectedEof,
    /// The first three bytes of the stream are not the required signature.
    InvalidSignature,
    /// The three version bytes are neither `87a` nor `89a`; carries them.
    UnsupportedVersion(Vec<u8>),
    /// An extension introducer was followed by an unknown label byte.
    UnknownExtensionLabel(u8),
    /// A block began with a byte that introduces no known block kind.
    UnexpectedBlockLabel(u8),
    /// A fixed-size extension block declared the wrong size, or its
    /// terminator byte (a sub-block length that must be zero) was not zero.
    MalformedExtensionBlockSize { label: u8, expected: u8, actual: u8 },
    /// The stream ended, or a non-image block appeared, while a graphic
    /// control record was still waiting for its image.
    ExpectedImageAfterGraphicControl,
    /// Two graphic control records arrived without an image between them.
    UnexpectedGraphicControl,
    /// A disposal method value above 3.
    InvalidDisposalMethod(u8),
    /// An LZW minimum code size outside 1..=8.
    InvalidLzwCodeSize(u8),
    /// A compressed code referenced a dictionary slot past the next free one.
    InvalidCode,
    /// A code that needs a new dictionary entry arrived with the dictionary
    /// full, so the entry could not be expressed in 12-bit codes.
    CodeWidthOverflow,
    /// The compressed bit stream ran out before the end-of-information code.
    BitStreamTruncated,
    /// A recognized application extension carried a data block of the
    /// wrong length.
    ApplicationDataLengthMismatch { identifier: Vec<u8>, expected: usize, actual: usize },
}

} // verus!
