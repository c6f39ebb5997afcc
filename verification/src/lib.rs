//! Network-boot artifact server core: a decoder for the archive format in
//! which build artifacts travel, the content-addressed store layout, the
//! resolution of files through symlinks that cross artifacts, and the signed
//! URLs that authorise a download.

pub mod binary_cache;
pub mod config;
pub mod hosts;
pub mod ipmi;
pub mod nar;
pub mod pxe;
pub mod store;
pub mod text;
