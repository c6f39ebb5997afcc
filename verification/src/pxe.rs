//! Boot files out of the package store: where a symlink leads, which file a
//! request resolves to, and the signed URLs that authorise a download.

pub mod boot;
pub mod error;
pub mod pin;
pub mod resolve;
pub mod signer;
pub mod store_path;

pub use boot::{boot_descriptor, host_for_mac, BootDescriptor};
pub use error::{error, ErrorDetail, PxeError};
pub use pin::{cachix_pin_url, find_cachix_pin, CachixPin, LastRevision, PinError};
pub use resolve::{Found, Resolution, ResolveError, Step, MAX_HOPS};
pub use signer::Signer;
pub use store_path::{parse_store_path, StorePathError};
