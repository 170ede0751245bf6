//! A codec for PNG-style containers: a fixed signature followed by
//! length-prefixed, CRC-checked chunks that carry typed payloads.

pub mod chunk;
pub mod chunk_type;
pub mod commands;
pub mod encoding;
pub mod png;

pub use chunk::{Chunk, ChunkError, ChunkView};
pub use chunk_type::{ChunkType, ChunkTypeError};
pub use commands::Handler;
pub use png::{Png, PngError};

use vstd::prelude::*;

verus! {

/// The largest payload a chunk may carry, in bytes.
pub const MAX_CHUNK_LEN: u32 = 2147483648;

} // verus!
