//! The content-addressed store: one directory per artifact, named by the
//! artifact's hash, under one root.
//!
//! Nothing here touches the disk.  The store says where things are and what
//! is to be written; the caller looks, writes into a private directory, and
//! renames that directory into place, so that a directory found under its
//! final name is always complete.

use vstd::prelude::*;
use vstd::string::StringExecFns;
use crate::nar::format::{archive_trace, EntryView, NarError};
use crate::nar::reader::{entry_views, Entry, Reader};
use crate::pxe::store_path::{is_content_hash, is_hash_char};
use crate::text::chars_of;

verus! {

/// `name` below the directory `base`, as paths are joined on Unix: a `name`
/// that starts at the root stands for itself, and a separator is put between
/// the two unless `base` is empty or ends in one.
pub open spec fn join_path(base: Seq<char>, name: Seq<char>) -> Seq<char> {
    if name.len() > 0 && name[0] == '/' {
        name
    } else if base.len() == 0 || base.last() == '/' {
        base + name
    } else {
        base + seq!['/'] + name
    }
}

/// `name` below the directory `base`.
pub fn join(base: &str, name: &str) -> (path: String)
    ensures
        path@ == join_path(base@, name@),
{
    let head = chars_of(base);
    let tail = chars_of(name);
    if tail.len() > 0 && tail[0] == '/' {
        return name.to_owned();
    }
    let mut path = base.to_owned();
    if head.len() > 0 && head[head.len() - 1] != '/' {
        proof {
            reveal_strlit("/");
            assert("/"@ =~= seq!['/']);
        }
        path.append("/");
    }
    path.append(name);
    path
}

/// What [`Store::add`] asks its caller to do: write `entries` below `staging`,
/// then rename `staging` to `target`.
#[derive(Debug)]
pub struct Publication {
    /// The private directory to extract into.
    pub staging: String,
    /// The artifact's final place in the store.
    pub target: String,
    /// The tree to write, parents before children.
    pub entries: Vec<Entry>,
}

/// A store rooted at one directory.
pub struct Store {
    path: String,
}

impl Store {
    /// The store's root directory.
    pub closed spec fn root(&self) -> Seq<char> {
        self.path@
    }

    /// Where the artifact `hash` is found once it is in the store.
    pub open spec fn spec_location(&self, hash: Seq<char>) -> Seq<char> {
        join_path(self.root(), hash)
    }

    /// A store rooted at `path`.
    pub fn new(path: String) -> (store: Store)
        ensures
            store.root() == path@,
    {
        Store { path }
    }

    /// Where the artifact `hash` is found once it is in the store.
    pub fn location(&self, hash: &str) -> (path: String)
        ensures
            path@ == self.spec_location(hash@),
    {
        join(self.path.as_str(), hash)
    }

    /// The answer to a lookup of `hash`, given whether anything exists at its
    /// location: the location if so, nothing if not.
    pub fn lookup(&self, hash: &str, present: bool) -> (found: Option<String>)
        ensures
            match found {
                Some(path) => present && path@ == self.spec_location(hash@),
                None => !present,
            },
    {
        if present {
            Some(self.location(hash))
        } else {
            None
        }
    }

    /// Prepares the artifact `hash`, whose archive is `data`, for the store.
    /// `workdir` is a fresh directory inside the store's root.  A faulty
    /// archive gives its error and nothing to write, so that nothing of it is
    /// ever published.
    pub fn add(&self, hash: &str, workdir: &str, data: Vec<u8>) -> (r: Result<
        Publication,
        NarError,
    >)
        ensures
            match r {
                Ok(publication) => {
                    &&& archive_trace(data@).end is Ok
                    &&& entry_views(publication.entries@) == archive_trace(data@).entries
                    &&& publication.staging@ == join_path(workdir@, hash@)
                    &&& publication.target@ == self.spec_location(hash@)
                },
                Err(e) => archive_trace(data@).end == Err::<int, _>(e),
            },
    {
        let mut reader = Reader::new(data);
        match reader.read_all() {
            Ok(entries) => Ok(
                Publication { staging: join(workdir, hash), target: self.location(hash), entries },
            ),
            Err(e) => Err(e),
        }
    }
}

/// Different artifacts have different places in the store.
pub proof fn lemma_locations_differ(store: Store, first: Seq<char>, second: Seq<char>)
    requires
        is_content_hash(first),
        is_content_hash(second),
        first != second,
    ensures
        store.spec_location(first) != store.spec_location(second),
{
    let root = store.root();
    let front = if root.len() == 0 || root.last() == '/' {
        root
    } else {
        root + seq!['/']
    };
    assert(is_hash_char(first[0]) && is_hash_char(second[0]));
    assert(store.spec_location(first) =~= front + first);
    assert(store.spec_location(second) =~= front + second);
    if front + first == front + second {
        assert(first =~= (front + first).subrange(front.len() as int, front.len() as int + 32));
        assert(second =~= (front + second).subrange(front.len() as int, front.len() as int + 32));
    }
}

/// What the store's root holds: for each directory in it, by its path, the
/// entries that were written there.
pub type Shelf = Map<Seq<char>, Seq<EntryView>>;

/// The shelf once `entries` have been renamed into place at `target`.
pub open spec fn published(shelf: Shelf, target: Seq<char>, entries: Seq<EntryView>) -> Shelf {
    shelf.insert(target, entries)
}

/// What is added is what is found.  Once the publication that
/// [`Store::add`] prepares for a sound archive has been carried out, the
/// location that [`Store::lookup`] inspects holds exactly the entries of the
/// archive; carrying it out a second time changes nothing; and no other
/// location is touched.
pub proof fn lemma_added_is_found(store: Store, shelf: Shelf, hash: Seq<char>, data: Seq<u8>)
    requires
        archive_trace(data).end is Ok,
    ensures
        ({
            let entries = archive_trace(data).entries;
            let place = store.spec_location(hash);
            let after = published(shelf, place, entries);
            &&& after.dom().contains(place)
            &&& after[place] == entries
            &&& published(after, place, entries) == after
            &&& forall|other: Seq<char>|
                other != place ==> (after.dom().contains(other) <==> shelf.dom().contains(other))
                    && (shelf.dom().contains(other) ==> after[other] == shelf[other])
        }),
{
    let entries = archive_trace(data).entries;
    let place = store.spec_location(hash);
    let after = published(shelf, place, entries);
    assert(published(after, place, entries) =~= after);
}

} // verus!
