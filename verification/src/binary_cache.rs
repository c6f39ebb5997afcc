//! Remote binary caches: their metadata, their addresses, and the order in
//! which they are asked.

pub mod cache;
pub mod narinfo;
pub mod number;

pub use cache::{BinaryCache, Compression, CompressionError, Fallback};
pub use narinfo::{NarInfo, NarInfoError};
