//! A steganographic PNG chunk codec: hide a byte payload inside a
//! syntactically valid PNG file as a custom chunk, and locate, read or
//! remove it again by its 4-byte type code.
//!
//! The library models the PNG chunk framing rules: a [`chunk_type::ChunkType`]
//! is a 4-byte identifier with per-byte bit-flag semantics, a
//! [`chunk::Chunk`] pairs a type with a payload and a CRC-32/ISO-HDLC
//! checksum, and a [`png::Png`] is the 8-byte signature followed by an
//! ordered list of chunks that parses from and serializes to bytes
//! bit-for-bit.

pub mod checksum;
pub mod chunk;
pub mod chunk_type;
pub mod error;
pub mod png;
pub mod text;
pub mod wire;
