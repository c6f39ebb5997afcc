//! Pins: the names under which a cache publishes the artifact that a host
//! boots.

use vstd::prelude::*;
use vstd::string::StringExecFns;
use crate::binary_cache::cache::{join_url, url_join};
use crate::pxe::store_path::{parse_store_path, spec_parse_store_path, StorePathError};

verus! {

/// The artifact that a pin points to.
#[derive(Debug, Clone)]
pub struct LastRevision {
    pub store_path: String,
}

/// A named pin.
#[derive(Debug, Clone)]
pub struct CachixPin {
    pub name: String,
    pub last_revision: LastRevision,
}

/// Why no artifact is known for a name.
#[derive(Copy, Clone, Debug, PartialEq, Eq, Structural)]
pub enum PinError {
    /// No pin has the name.
    NotFound,
    /// The pin does not point into the store.
    BadStorePath(StorePathError),
}

/// The place of the first pin called `name`, or the number of pins when
/// there is none.
pub open spec fn first_named(pins: Seq<CachixPin>, name: Seq<char>) -> int
    decreases pins.len(),
{
    if pins.len() == 0 {
        0
    } else if pins[0].name@ == name {
        0
    } else {
        1 + first_named(pins.drop_first(), name)
    }
}

/// The hash of the artifact that the first pin called `name` points to.
pub open spec fn spec_find_pin(pins: Seq<CachixPin>, name: Seq<char>) -> Result<
    Seq<char>,
    PinError,
> {
    let i = first_named(pins, name);
    if i >= pins.len() {
        Err(PinError::NotFound)
    } else {
        match spec_parse_store_path(pins[i].last_revision.store_path@) {
            Ok((hash, _)) => Ok(hash),
            Err(e) => Err(PinError::BadStorePath(e)),
        }
    }
}

proof fn lemma_first_named(pins: Seq<CachixPin>, name: Seq<char>, i: int)
    requires
        0 <= i <= pins.len(),
        forall|j: int| 0 <= j < i ==> (#[trigger] pins[j]).name@ != name,
        i < pins.len() ==> pins[i].name@ == name,
    ensures
        first_named(pins, name) == i,
    decreases pins.len(),
{
    if pins.len() > 0 && i > 0 {
        assert(pins[0].name@ != name);
        let rest = pins.drop_first();
        assert forall|j: int| 0 <= j < i - 1 implies (#[trigger] rest[j]).name@ != name by {
            assert(rest[j] == pins[j + 1]);
        }
        lemma_first_named(rest, name, i - 1);
    }
}

/// The hash of the artifact that the first pin called `name` points to.
pub fn find_cachix_pin(pins: &Vec<CachixPin>, name: &str) -> (r: Result<String, PinError>)
    ensures
        match r {
            Ok(hash) => spec_find_pin(pins@, name@) == Ok::<_, PinError>(hash@),
            Err(e) => spec_find_pin(pins@, name@) == Err::<Seq<char>, _>(e),
        },
{
    let wanted = name.to_owned();
    let mut i: usize = 0;
    while i < pins.len()
        invariant
            i <= pins@.len(),
            wanted@ == name@,
            forall|j: int| 0 <= j < i ==> (#[trigger] pins@[j]).name@ != name@,
        decreases pins.len() - i,
    {
        if pins[i].name == wanted {
            proof {
                lemma_first_named(pins@, name@, i as int);
            }
            return match parse_store_path(pins[i].last_revision.store_path.as_str()) {
                Ok((hash, _)) => Ok(hash),
                Err(e) => Err(PinError::BadStorePath(e)),
            };
        }
        i = i + 1;
    }
    proof {
        lemma_first_named(pins@, name@, i as int);
    }
    Err(PinError::NotFound)
}

/// Where the pins of the cache `cache` are listed.
pub open spec fn spec_pin_url(cache: Seq<char>) -> Option<Seq<char>> {
    match url_join("https://app.cachix.org/api/v1/cache/"@, cache + "/"@) {
        Some(base) => url_join(base, "pin"@),
        None => None,
    }
}

/// Where the pins of the cache `cache` are listed.
pub fn cachix_pin_url(cache: &str) -> (r: Option<String>)
    ensures
        match r {
            Some(url) => spec_pin_url(cache@) == Some(url@),
            None => spec_pin_url(cache@) is None,
        },
{
    let mut name = cache.to_owned();
    name.append("/");
    match join_url("https://app.cachix.org/api/v1/cache/", name.as_str()) {
        Some(base) => join_url(base.as_str(), "pin"),
        None => None,
    }
}

} // verus!
