//! From an artifact and a path inside it to the file that is served: through
//! symlinks, which may lead into other artifacts.
//!
//! The caller does the work on disk.  It makes sure that the artifact is in
//! the store, looks at what lies at the path without following a symlink
//! there, and hands that to [`Resolution::step`], which says how to go on.

use vstd::prelude::*;
use crate::pxe::store_path::{parse_store_path, spec_parse_store_path, StorePathError};

verus! {

/// How many symlinks one resolution follows at most.
pub const MAX_HOPS: u32 = 32;

/// Why a path resolves to no file.
#[derive(Copy, Clone, Debug, PartialEq, Eq, Structural)]
pub enum ResolveError {
    /// Nothing lies at the path.
    NotFound,
    /// The path names a directory.
    IsDirectory,
    /// More than [`MAX_HOPS`] symlinks in a row.
    TooManyLinks,
    /// A symlink leads out of the store.
    BadTarget(StorePathError),
}

/// What lies at a path, the last symlink not followed.
#[derive(Debug)]
pub enum Found {
    /// Nothing lies there.
    Missing,
    Directory,
    Symlink { target: String },
    Regular,
}

/// [`Found`] as mathematical values.
pub enum FoundView {
    Missing,
    Directory,
    Symlink { target: Seq<char> },
    Regular,
}

impl View for Found {
    type V = FoundView;

    open spec fn view(&self) -> FoundView {
        match self {
            Found::Missing => FoundView::Missing,
            Found::Directory => FoundView::Directory,
            Found::Symlink { target } => FoundView::Symlink { target: target@ },
            Found::Regular => FoundView::Regular,
        }
    }
}

/// Where a resolution stands: the artifact and the path to look at next, and
/// the number of symlinks followed so far.
#[derive(Debug)]
pub struct Resolution {
    pub hash: String,
    pub path: String,
    pub hops: u32,
}

/// [`Resolution`] as mathematical values.
pub struct ResolutionView {
    pub hash: Seq<char>,
    pub path: Seq<char>,
    pub hops: nat,
}

impl View for Resolution {
    type V = ResolutionView;

    open spec fn view(&self) -> ResolutionView {
        ResolutionView { hash: self.hash@, path: self.path@, hops: self.hops as nat }
    }
}

/// How a resolution goes on.
#[derive(Debug)]
pub enum Step {
    /// The path names a regular file: read it.
    Read,
    /// The path names a symlink: look again, here.
    Follow(Resolution),
    /// There is no file to serve.
    Fail(ResolveError),
}

/// [`Step`] as mathematical values.
pub enum StepView {
    Read,
    Follow(ResolutionView),
    Fail(ResolveError),
}

impl View for Step {
    type V = StepView;

    open spec fn view(&self) -> StepView {
        match self {
            Step::Read => StepView::Read,
            Step::Follow(next) => StepView::Follow(next@),
            Step::Fail(e) => StepView::Fail(*e),
        }
    }
}

/// The start of the resolution of `path` in the artifact `hash`.
pub open spec fn spec_start(hash: Seq<char>, path: Seq<char>) -> ResolutionView {
    ResolutionView { hash, path, hops: 0 }
}

/// How the resolution `at` goes on when `found` lies at its path.  A symlink
/// is followed into the artifact that its target names, at the path behind
/// that artifact's name, unless [`MAX_HOPS`] symlinks were followed already.
pub open spec fn spec_step(at: ResolutionView, found: FoundView) -> StepView {
    match found {
        FoundView::Missing => StepView::Fail(ResolveError::NotFound),
        FoundView::Directory => StepView::Fail(ResolveError::IsDirectory),
        FoundView::Regular => StepView::Read,
        FoundView::Symlink { target } => if at.hops >= MAX_HOPS {
            StepView::Fail(ResolveError::TooManyLinks)
        } else {
            match spec_parse_store_path(target) {
                Ok((hash, path)) => StepView::Follow(
                    ResolutionView { hash, path, hops: at.hops + 1 },
                ),
                Err(e) => StepView::Fail(ResolveError::BadTarget(e)),
            }
        },
    }
}

impl Resolution {
    /// The start of the resolution of `path` in the artifact `hash`.
    pub fn new(hash: String, path: String) -> (r: Resolution)
        ensures
            r@ == spec_start(hash@, path@),
    {
        Resolution { hash, path, hops: 0 }
    }

    /// How to go on when `found` lies at the path.
    pub fn step(&self, found: Found) -> (step: Step)
        ensures
            step@ == spec_step(self@, found@),
    {
        match found {
            Found::Missing => Step::Fail(ResolveError::NotFound),
            Found::Directory => Step::Fail(ResolveError::IsDirectory),
            Found::Regular => Step::Read,
            Found::Symlink { target } => {
                if self.hops >= MAX_HOPS {
                    Step::Fail(ResolveError::TooManyLinks)
                } else {
                    match parse_store_path(target.as_str()) {
                        Ok((hash, path)) => Step::Follow(
                            Resolution { hash, path, hops: self.hops + 1 },
                        ),
                        Err(e) => Step::Fail(ResolveError::BadTarget(e)),
                    }
                }
            },
        }
    }
}

/// Where a resolution ends.
pub enum Outcome {
    /// At a regular file: this path of this artifact.
    File { hash: Seq<char>, path: Seq<char> },
    /// Without a file.
    Failed(ResolveError),
}

/// Where the resolution `at` ends in a store that holds `world(hash, path)`
/// at each path of each artifact, when at most `fuel` symlinks are followed;
/// nothing when that is not enough.
pub open spec fn spec_resolve(
    world: spec_fn(Seq<char>, Seq<char>) -> FoundView,
    at: ResolutionView,
    fuel: nat,
) -> Option<Outcome>
    decreases fuel,
{
    match spec_step(at, world(at.hash, at.path)) {
        StepView::Read => Some(Outcome::File { hash: at.hash, path: at.path }),
        StepView::Fail(e) => Some(Outcome::Failed(e)),
        StepView::Follow(next) => if fuel == 0 {
            None
        } else {
            spec_resolve(world, next, (fuel - 1) as nat)
        },
    }
}

/// Every resolution ends, whatever the store holds, be it symlinks that lead
/// in a circle: [`MAX_HOPS`] steps through symlinks are enough to reach a
/// file or a failure.
pub proof fn lemma_resolution_ends(
    world: spec_fn(Seq<char>, Seq<char>) -> FoundView,
    at: ResolutionView,
)
    requires
        at.hops <= MAX_HOPS,
    ensures
        spec_resolve(world, at, (MAX_HOPS - at.hops) as nat) is Some,
    decreases MAX_HOPS - at.hops,
{
    if let StepView::Follow(next) = spec_step(at, world(at.hash, at.path)) {
        lemma_resolution_ends(world, next);
    }
}

/// A chain of symlinks is followed to its end.  Let `places` be artifacts and
/// paths of which each but the last holds a symlink whose target names the
/// next, and the last holds a regular file.  Then the resolution that starts
/// at the first place ends at that file, and each of its steps leads from one
/// place to the next.  The chain may have up to [`MAX_HOPS`] symlinks.
pub proof fn lemma_chain_resolves(
    world: spec_fn(Seq<char>, Seq<char>) -> FoundView,
    places: Seq<(Seq<char>, Seq<char>)>,
    targets: Seq<Seq<char>>,
)
    requires
        places.len() == targets.len() + 1,
        targets.len() <= MAX_HOPS,
        forall|i: int|
            0 <= i < targets.len() ==> world(places[i].0, places[i].1) == (FoundView::Symlink {
                target: #[trigger] targets[i],
            }),
        forall|i: int|
            0 <= i < targets.len() ==> spec_parse_store_path(#[trigger] targets[i]) == Ok::<
                _,
                StorePathError,
            >(places[i + 1]),
        world(places.last().0, places.last().1) == FoundView::Regular,
    ensures
        spec_resolve(world, spec_start(places[0].0, places[0].1), MAX_HOPS as nat) == Some(
            Outcome::File { hash: places.last().0, path: places.last().1 },
        ),
        forall|k: int|
            0 <= k < targets.len() ==> spec_step(
                ResolutionView { hash: places[k].0, path: places[k].1, hops: k as nat },
                FoundView::Symlink { target: #[trigger] targets[k] },
            ) == StepView::Follow(
                ResolutionView {
                    hash: places[k + 1].0,
                    path: places[k + 1].1,
                    hops: (k + 1) as nat,
                },
            ),
{
    lemma_chain_from(world, places, targets, 0);
}

/// The resolution that has followed the first `k` symlinks of a chain ends
/// at the chain's file.
proof fn lemma_chain_from(
    world: spec_fn(Seq<char>, Seq<char>) -> FoundView,
    places: Seq<(Seq<char>, Seq<char>)>,
    targets: Seq<Seq<char>>,
    k: int,
)
    requires
        0 <= k <= targets.len(),
        places.len() == targets.len() + 1,
        targets.len() <= MAX_HOPS,
        forall|i: int|
            0 <= i < targets.len() ==> world(places[i].0, places[i].1) == (FoundView::Symlink {
                target: #[trigger] targets[i],
            }),
        forall|i: int|
            0 <= i < targets.len() ==> spec_parse_store_path(#[trigger] targets[i]) == Ok::<
                _,
                StorePathError,
            >(places[i + 1]),
        world(places.last().0, places.last().1) == FoundView::Regular,
    ensures
        spec_resolve(
            world,
            ResolutionView { hash: places[k].0, path: places[k].1, hops: k as nat },
            (MAX_HOPS - k) as nat,
        ) == Some(Outcome::File { hash: places.last().0, path: places.last().1 }),
    decreases targets.len() - k,
{
    if k < targets.len() {
        let target = targets[k];
        assert(world(places[k].0, places[k].1) == FoundView::Symlink { target });
        assert(spec_parse_store_path(target) == Ok::<_, StorePathError>(places[k + 1]));
        lemma_chain_from(world, places, targets, k + 1);
    }
}

} // verus!
