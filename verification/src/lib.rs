//! A codec for the PNG chunk container format: 4-byte type codes and their
//! semantic bit-flags, length-prefixed CRC-checked chunks, and the ordered
//! chunk sequence that makes up a whole PNG byte stream.

use vstd::prelude::*;
use vstd::string::StringExecFns;

pub mod checksum;
pub mod chunk;
pub mod chunk_type;
pub mod encoding;
pub mod png;
pub mod text;

pub use chunk::Chunk;
pub use chunk::ChunkView;
pub use chunk_type::ChunkType;
pub use png::Png;

verus! {

/// The errors that parsing, mutation and text decoding can report.
///
/// Every failure is terminal for the call that reports it: nothing is
/// retried or repaired, and malformed input is rejected outright.
#[derive(Debug, Clone, Copy, PartialEq, Eq, Structural)]
pub enum PMSGError {
    /// A declared chunk length exceeds 2^31.
    InvalidChunkLength,
    /// A chunk type code holds a byte that is not an ASCII letter, or a
    /// textual type key is not exactly 4 bytes long.
    InvalidChunkType,
    /// A stored checksum does not match the checksum recomputed from the
    /// chunk's type and data bytes.
    InvalidCRC,
    /// The fixed 8-byte PNG signature does not match.
    InvalidPNGFileHeader,
    /// The first chunk of a parsed stream is not an `IHDR` chunk.
    InvalidStartingChunk,
    /// No chunk of the requested type is present during removal.
    ChunkTypeNotFound,
    /// Fewer bytes remain than a field declares.
    TruncatedInput,
    /// Chunk data requested as text is not valid UTF-8.
    InvalidTextEncoding,
}

impl PMSGError {
    /// The text that `message` returns for this error.
    pub open spec fn spec_message(self) -> Seq<char> {
        match self {
            PMSGError::InvalidChunkLength => "invalid chunk length"@,
            PMSGError::InvalidChunkType => "invalid chunk type"@,
            PMSGError::InvalidCRC => "invalid CRC"@,
            PMSGError::InvalidPNGFileHeader => "invalid PNG file header"@,
            PMSGError::InvalidStartingChunk => "invalid starting chunk"@,
            PMSGError::ChunkTypeNotFound => "chunk type not found"@,
            PMSGError::TruncatedInput => "truncated input"@,
            PMSGError::InvalidTextEncoding => "invalid text encoding"@,
        }
    }

    /// A short human-readable description of the error.
    pub fn message(&self) -> (r: String)
        ensures
            r@ == self.spec_message(),
    {
        match self {
            PMSGError::InvalidChunkLength => String::from_str("invalid chunk length"),
            PMSGError::InvalidChunkType => String::from_str("invalid chunk type"),
            PMSGError::InvalidCRC => String::from_str("invalid CRC"),
            PMSGError::InvalidPNGFileHeader => String::from_str("invalid PNG file header"),
            PMSGError::InvalidStartingChunk => String::from_str("invalid starting chunk"),
            PMSGError::ChunkTypeNotFound => String::from_str("chunk type not found"),
            PMSGError::TruncatedInput => String::from_str("truncated input"),
            PMSGError::InvalidTextEncoding => String::from_str("invalid text encoding"),
        }
    }
}

} // verus!
