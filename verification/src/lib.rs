//! A verified library for the chunk-based container format of PNG image
//! files: typed 4-byte chunk identifiers with bit-encoded flags, length-
//! prefixed chunk records guarded by a CRC-32 checksum, and a whole-file
//! container supporting lookup, insertion and removal of chunks.

pub mod chunk;
pub mod chunk_type;
pub mod codec;
pub mod png;

pub use chunk::Chunk;
pub use chunk_type::ChunkType;
pub use chunk_type::PngDecodeError;
pub use png::Png;
