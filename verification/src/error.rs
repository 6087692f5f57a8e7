//! The error kinds of the codec.

use vstd::prelude::*;

verus! {

/// Every failure the codec can report.
///
/// Each parse-time error aborts the whole parse: there is no
/// partial-document recovery, and no error is silently swallowed.
#[derive(Debug, Clone, Copy, PartialEq, Eq, Structural)]
pub enum PngError {
    /// A chunk type byte is not an ASCII letter, or a type code does not
    /// hold exactly 4 bytes.
    InvalidTypeCode,
    /// A buffer is shorter than one chunk record needs, or does not hold
    /// exactly the bytes its length field declares.
    TruncatedChunk,
    /// A chunk record declares a data length above the 2^31 ceiling.
    OversizedChunk,
    /// The checksum computed over type and data differs from the recorded
    /// one: the record is corrupted or was edited by hand.
    CrcMismatch,
    /// The buffer does not begin with the 8-byte PNG signature.
    BadSignature,
    /// No chunk of the requested type is present in the document.
    ChunkNotFound,
    /// Chunk data is not valid UTF-8 text.
    NotUtf8,
}

} // verus!
