//! The server's configuration, as values.

use vstd::prelude::*;
use crate::text::{chars_of, string_of};

verus! {

/// Where boot files come from.
#[derive(Debug, Clone)]
pub struct Pxe {
    /// The binary caches, in the order in which they are asked.
    pub caches: Vec<String>,
    /// The name of the cache that holds the pins.
    pub cachix: String,
    /// The root directory of the local store.
    pub store: String,
}

/// How the server logs in to the hosts' management controllers.
#[derive(Debug, Clone)]
pub struct Ipmi {
    pub username: String,
    pub password: Option<String>,
    pub password_file: Option<String>,
}

/// One managed host.
#[derive(Debug, Clone)]
pub struct Host {
    pub address: String,
    pub mac: Option<String>,
}

/// The whole configuration.  Hosts are kept with their names, in the order
/// in which they were given.
#[derive(Debug, Clone)]
pub struct Config {
    pub host: Vec<(String, Host)>,
    pub ipmi: Ipmi,
    pub pxe: Pxe,
}

/// Where the management password is to be taken from.
#[derive(Debug)]
pub enum PasswordSource {
    /// The configuration holds the password itself.
    Inline(String),
    /// The password is the content of this file.
    File(String),
}

/// Why a configuration is refused.
#[derive(Copy, Clone, Debug, PartialEq, Eq, Structural)]
pub enum ConfigError {
    /// Neither `password` nor `password_file` is set.
    MissingPassword,
    /// Both `password` and `password_file` are set.
    AmbiguousPassword,
}

/// Whether the host has the MAC address `mac`.
pub open spec fn has_mac(host: Host, mac: Seq<char>) -> bool {
    host.mac matches Some(m) && m@ == mac
}

/// `s` without the newlines at its end.
pub open spec fn without_trailing_newlines(s: Seq<char>) -> Seq<char>
    decreases s.len(),
{
    if s.len() > 0 && s.last() == '\n' {
        without_trailing_newlines(s.drop_last())
    } else {
        s
    }
}

/// The password as it stands in a password file: the file's text without
/// the newlines at its end.
pub fn password_from_file(text: &str) -> (password: String)
    ensures
        password@ == without_trailing_newlines(text@),
{
    let chars = chars_of(text);
    let mut end: usize = chars.len();
    assert(chars@.subrange(0, end as int) =~= chars@);
    while end > 0 && chars[end - 1] == '\n'
        invariant
            end <= chars@.len(),
            without_trailing_newlines(chars@) == without_trailing_newlines(
                chars@.subrange(0, end as int),
            ),
        decreases end,
    {
        assert(chars@.subrange(0, end as int).drop_last() =~= chars@.subrange(0, end - 1));
        end = end - 1;
    }
    string_of(&chars, 0, end)
}

impl Ipmi {
    /// Where the password comes from.  Exactly one of `password` and
    /// `password_file` has to be set.
    pub fn password_source(&self) -> (r: Result<PasswordSource, ConfigError>)
        ensures
            match (self.password, self.password_file) {
                (Some(p), None) => r matches Ok(PasswordSource::Inline(s)) && s@ == p@,
                (None, Some(f)) => r matches Ok(PasswordSource::File(s)) && s@ == f@,
                (None, None) => r matches Err(ConfigError::MissingPassword),
                (Some(_), Some(_)) => r matches Err(ConfigError::AmbiguousPassword),
            },
    {
        match (&self.password, &self.password_file) {
            (Some(p), None) => Ok(PasswordSource::Inline(p.clone())),
            (None, Some(f)) => Ok(PasswordSource::File(f.clone())),
            (None, None) => Err(ConfigError::MissingPassword),
            (Some(_), Some(_)) => Err(ConfigError::AmbiguousPassword),
        }
    }
}

impl Config {
    /// The first host with the MAC address `mac`, by its place among the
    /// hosts, if there is one.
    pub fn find_host_by_mac(&self, mac: &str) -> (found: Option<usize>)
        ensures
            match found {
                Some(i) => {
                    &&& i < self.host@.len()
                    &&& has_mac(self.host@[i as int].1, mac@)
                    &&& forall|j: int| 0 <= j < i ==> !has_mac(#[trigger] self.host@[j].1, mac@)
                },
                None => forall|j: int|
                    0 <= j < self.host@.len() ==> !has_mac(#[trigger] self.host@[j].1, mac@),
            },
    {
        let wanted = mac.to_owned();
        let mut i: usize = 0;
        while i < self.host.len()
            invariant
                i <= self.host@.len(),
                wanted@ == mac@,
                forall|j: int| 0 <= j < i ==> !has_mac(#[trigger] self.host@[j].1, mac@),
            decreases self.host.len() - i,
        {
            let is_it = match &self.host[i].1.mac {
                Some(m) => *m == wanted,
                None => false,
            };
            if is_it {
                return Some(i);
            }
            i = i + 1;
        }
        None
    }
}

} // verus!
