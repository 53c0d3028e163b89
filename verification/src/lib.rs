//! A library for hiding textual messages inside PNG files.
//!
//! A PNG file is a fixed eight-byte signature followed by a sequence of
//! chunks, each carrying a four-letter type, a payload and a CRC-32
//! checksum. The library models that container byte-exactly: it parses and
//! serializes chunks and whole files, and appends, finds or removes the
//! ancillary chunks that carry a hidden message.

pub mod chunk;
pub mod chunk_type;
pub mod commands;
pub mod crc32;
pub mod error;
pub mod png;
pub mod text;
pub mod wire;
