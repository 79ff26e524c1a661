//! A codec for the PNG chunk format: validated 4-byte chunk type codes,
//! checksummed chunks with byte-exact parsing and serialization, and a
//! container holding the ordered chunk sequence of a whole PNG file.

pub mod be_bytes;
pub mod chunk;
pub mod chunk_type;
mod crc32;
pub mod png;
mod text;
