//! What a booting host is told: its kernel command line and the signed URLs
//! of its kernel and initial ramdisk.

use vstd::prelude::*;
use vstd::utf8::{decode_utf8, valid_utf8};
use crate::config::{has_mac, Config};
use crate::pxe::error::PxeError;
use crate::pxe::signer::Signer;
use crate::text::{string_from_utf8, trim, trimmed};

verus! {

/// The answer to a boot request.
#[derive(Debug)]
pub struct BootDescriptor {
    pub cmdline: String,
    pub kernel: String,
    pub initrd: Vec<String>,
}

/// The host that boots from the MAC address `mac`, by its place among the
/// configured hosts.
pub fn host_for_mac(config: &Config, mac: &str) -> (r: Result<usize, PxeError>)
    ensures
        match r {
            Ok(i) => {
                &&& i < config.host@.len()
                &&& has_mac(config.host@[i as int].1, mac@)
                &&& forall|j: int| 0 <= j < i ==> !has_mac(#[trigger] config.host@[j].1, mac@)
            },
            Err(e) => {
                &&& e matches PxeError::UnknownHost(m) && m@ == mac@
                &&& forall|j: int|
                    0 <= j < config.host@.len() ==> !has_mac(#[trigger] config.host@[j].1, mac@)
            },
        },
{
    match config.find_host_by_mac(mac) {
        Some(i) => Ok(i),
        None => Err(PxeError::UnknownHost(mac.to_owned())),
    }
}

/// The answer for a host that boots the artifact `hash`, whose file
/// `cmdline` holds `cmdline`: the command line without the white space
/// around it, and signed URLs for the files `bzImage` and `initrd` of the
/// artifact.  A command line that is not UTF-8 is an internal error.
pub fn boot_descriptor(signer: &Signer, hash: &str, cmdline: Vec<u8>) -> (r: Result<
    BootDescriptor,
    PxeError,
>)
    ensures
        match r {
            Ok(d) => {
                &&& valid_utf8(cmdline@)
                &&& d.cmdline@ == trimmed(decode_utf8(cmdline@))
                &&& d.kernel@ == signer.spec_file_url(hash@, "bzImage"@)
                &&& d.initrd@.len() == 1
                &&& d.initrd@[0]@ == signer.spec_file_url(hash@, "initrd"@)
            },
            Err(e) => {
                &&& !valid_utf8(cmdline@)
                &&& e matches PxeError::Internal(m) && m@ == "cmdline is not UTF-8"@
            },
        },
{
    let text = match string_from_utf8(cmdline) {
        Some(text) => text,
        None => {
            return Err(PxeError::Internal("cmdline is not UTF-8".to_owned()));
        },
    };
    let mut initrd: Vec<String> = Vec::new();
    initrd.push(signer.file_url(hash, "initrd"));
    Ok(
        BootDescriptor {
            cmdline: trim(text.as_str()),
            kernel: signer.file_url(hash, "bzImage"),
            initrd,
        },
    )
}

} // verus!
