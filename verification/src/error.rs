//! The single error type shared by every operation of the library.

use vstd::prelude::*;

verus! {

/// Everything that can go wrong while reading, building or editing a PNG.
///
/// Each operation reports exactly one of these variants; no operation
/// leaves partial state behind.
#[derive(Debug, Clone, Copy, PartialEq, Eq, Structural)]
pub enum PngError {
    /// The first eight bytes are not the PNG signature.
    BadSignature,
    /// Fewer bytes are available than a declared structure needs.
    Truncated,
    /// A chunk type was built from a string that is not four bytes long.
    InvalidTypeLength,
    /// A chunk type holds a byte that is not an ASCII letter.
    InvalidTypeByte,
    /// The CRC stored after a chunk's data disagrees with the recomputed one.
    CrcMismatch,
    /// The chunk list ended without an `IEND` chunk.
    NoIend,
    /// Bytes remain after the `IEND` chunk.
    TrailingGarbage,
    /// No chunk of the requested type exists.
    ChunkNotFound,
    /// Chunk data could not be decoded as UTF-8.
    NotUtf8,
    /// An underlying file read or write failed.
    Io,
    /// The requested output path is already occupied.
    OutputExists,
}

} // verus!
