//! A binary cache, the addresses it serves under, and the order in which
//! several caches are asked.

use url::Url;
use vstd::prelude::*;
use vstd::string::StringExecFns;
use crate::binary_cache::narinfo::NarInfo;
use crate::text::same;

verus! {

/// How the archive behind a [`NarInfo`] is packed.
#[derive(Copy, Clone, Debug, PartialEq, Eq, Structural)]
pub enum Compression {
    /// The archive is served as it is.
    Plain,
    Xz,
    Zstd,
}

/// Why an archive cannot be unpacked.
#[derive(Copy, Clone, Debug, PartialEq, Eq, Structural)]
pub enum CompressionError {
    /// The method is known, but there is no decoder for it: `bzip2`, `gzip`.
    NotImplemented,
    /// The method is not known.
    Unsupported,
}

/// The method that `name` stands for.
pub open spec fn spec_compression(name: Seq<char>) -> Result<Compression, CompressionError> {
    if name == "none"@ {
        Ok(Compression::Plain)
    } else if name == "xz"@ {
        Ok(Compression::Xz)
    } else if name == "zstd"@ {
        Ok(Compression::Zstd)
    } else if name == "bzip2"@ || name == "gzip"@ {
        Err(CompressionError::NotImplemented)
    } else {
        Err(CompressionError::Unsupported)
    }
}

impl Compression {
    /// The method that `name` stands for.
    pub fn from_name(name: &str) -> (r: Result<Compression, CompressionError>)
        ensures
            r == spec_compression(name@),
    {
        if same(name, "none") {
            Ok(Compression::Plain)
        } else if same(name, "xz") {
            Ok(Compression::Xz)
        } else if same(name, "zstd") {
            Ok(Compression::Zstd)
        } else if same(name, "bzip2") || same(name, "gzip") {
            Err(CompressionError::NotImplemented)
        } else {
            Err(CompressionError::Unsupported)
        }
    }
}

impl NarInfo {
    /// How the archive is packed.
    pub fn codec(&self) -> (r: Result<Compression, CompressionError>)
        ensures
            r == spec_compression(self.compression@),
    {
        Compression::from_name(self.compression.as_str())
    }
}

/// The URL that `reference` stands for when it is met in a document at
/// `base`; nothing where `base` is no absolute URL or the two do not make one.
pub uninterp spec fn url_join(base: Seq<char>, reference: Seq<char>) -> Option<Seq<char>>;

/// `Url::join` of the crate url, on the URL that `Url::parse` makes of
/// `base`: the text of the joined URL, or nothing where either call fails.
/// The answer depends on the two texts alone.
#[verifier::external_body]
pub(crate) fn join_url(base: &str, reference: &str) -> (r: Option<String>)
    ensures
        match r {
            Some(joined) => url_join(base@, reference@) == Some(joined@),
            None => url_join(base@, reference@) is None,
        },
{
    match Url::parse(base) {
        Ok(url) => match url.join(reference) {
            Ok(joined) => Some(String::from(joined)),
            Err(_) => None,
        },
        Err(_) => None,
    }
}

/// A remote cache, known by its base URL.
#[derive(Debug, Clone)]
pub struct BinaryCache {
    url: String,
}

impl BinaryCache {
    /// The cache's base URL.
    pub closed spec fn base(&self) -> Seq<char> {
        self.url@
    }

    /// The cache at `url`.
    pub fn new(url: String) -> (cache: BinaryCache)
        ensures
            cache.base() == url@,
    {
        BinaryCache { url }
    }

    /// The cache's base URL.
    pub fn url(&self) -> (url: &str)
        ensures
            url@ == self.base(),
    {
        self.url.as_str()
    }

    /// Where the cache keeps the metadata of the artifact `hash`:
    /// `<hash>.narinfo`, relative to the base URL.
    pub fn narinfo_url(&self, hash: &str) -> (r: Option<String>)
        ensures
            match r {
                Some(url) => url_join(self.base(), hash@ + ".narinfo"@) == Some(url@),
                None => url_join(self.base(), hash@ + ".narinfo"@) is None,
            },
    {
        let mut name = hash.to_owned();
        name.append(".narinfo");
        join_url(self.url.as_str(), name.as_str())
    }

    /// Where the cache keeps the archive that `narinfo` describes: the URL of
    /// the metadata, relative to the base URL.
    pub fn nar_url(&self, narinfo: &NarInfo) -> (r: Option<String>)
        ensures
            match r {
                Some(url) => url_join(self.base(), narinfo.url@) == Some(url@),
                None => url_join(self.base(), narinfo.url@) is None,
            },
    {
        join_url(self.url.as_str(), narinfo.url.as_str())
    }
}

/// What is reported when no cache is configured.
pub open spec fn no_cache_message() -> Seq<char> {
    "No configured binary cache"@
}

/// The order in which caches are asked for an artifact: one after the other
/// as configured, until one delivers.  When all have failed, the failure of
/// the last one is reported, and those of the others are dropped.
pub struct Fallback {
    caches: usize,
    tried: usize,
    last: Option<String>,
}

impl Fallback {
    /// How many caches there are.
    pub closed spec fn caches(&self) -> nat {
        self.caches as nat
    }

    /// How many caches have failed.
    pub closed spec fn tried(&self) -> nat {
        self.tried as nat
    }

    /// The failure of the cache that was asked last.
    pub closed spec fn last_error(&self) -> Option<Seq<char>> {
        match self.last {
            Some(e) => Some(e@),
            None => None,
        }
    }

    #[verifier::type_invariant]
    spec fn in_range(self) -> bool {
        self.tried <= self.caches
    }

    /// The start of a download from `caches` caches.
    pub fn new(caches: usize) -> (f: Fallback)
        ensures
            f.caches() == caches,
            f.tried() == 0,
            f.last_error() is None,
    {
        Fallback { caches, tried: 0, last: None }
    }

    /// The cache to ask next, by its place among the caches; nothing when all
    /// have failed.
    pub fn next(&self) -> (r: Option<usize>)
        ensures
            r == if self.tried() < self.caches() {
                Some(self.tried() as usize)
            } else {
                None::<usize>
            },
    {
        if self.tried < self.caches {
            Some(self.tried)
        } else {
            None
        }
    }

    /// Records that the cache that [`Fallback::next`] named has failed with
    /// `error`.
    pub fn failed(&mut self, error: String)
        ensures
            final(self).caches() == old(self).caches(),
            final(self).tried() == if old(self).tried() < old(self).caches() {
                old(self).tried() + 1
            } else {
                old(self).tried()
            },
            final(self).last_error() == Some(error@),
    {
        proof {
            use_type_invariant(&*self);
        }
        if self.tried < self.caches {
            self.tried = self.tried + 1;
        }
        self.last = Some(error);
    }

    /// What is reported when no cache delivered: the last failure, or that
    /// there is no cache at all.
    pub fn error(&self) -> (message: String)
        ensures
            message@ == match self.last_error() {
                Some(e) => e,
                None => no_cache_message(),
            },
    {
        match &self.last {
            Some(e) => e.clone(),
            None => "No configured binary cache".to_owned(),
        }
    }
}

} // verus!
