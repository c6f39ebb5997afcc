//! The archive format: a rooted tree of regular files, symlinks and
//! directories, written as length-prefixed, 8-byte aligned strings.

pub mod format;
pub mod laws;
pub mod order;
pub mod paths;
pub mod reader;
pub mod teller;
pub mod tree;

pub use format::NarError;
pub use reader::{find, Contents, Entry, Reader};
pub use teller::Teller;
