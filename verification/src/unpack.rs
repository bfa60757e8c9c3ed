//! Where the members of a package are unpacked to.
//!
//! A package wraps its files in one top-level directory. Unpacking strips
//! that directory: each member goes to its path without the first component,
//! below the extension's directory, and a member without anything below the
//! wrapper is skipped. A `..` component is kept as it stands.

use vstd::prelude::*;
use crate::archive::listed;
use crate::paths::{
    components_from, join_components, lemma_separator_from_bounds, path_components,
    separator_from, strip_wrapper, stripped_path, SEPARATOR,
};

verus! {

/// What to do with the members of a package, in the order of the archive.
#[derive(Debug, PartialEq, Eq)]
pub struct UnpackPlan {
    /// For each member up to the first that could not be read: the path to
    /// unpack it to, relative to the extension's directory, or `None` for a
    /// member that is skipped.
    pub targets: Vec<Option<Vec<u8>>>,
    /// Whether every member could be read. Where not, unpacking fails after
    /// the members planned here.
    pub complete: bool,
}

/// How many members stand before the first that could not be read.
pub open spec fn readable_prefix(listing: Seq<Option<Seq<u8>>>) -> int
    decreases listing.len(),
{
    if listing.len() == 0 || listing[0] is None {
        0
    } else {
        1 + readable_prefix(listing.skip(1))
    }
}

/// The target of each member up to the first that could not be read.
pub open spec fn planned_targets(listing: Seq<Option<Seq<u8>>>) -> Seq<Option<Seq<u8>>> {
    Seq::new(
        readable_prefix(listing) as nat,
        |i: int|
            match listing[i] {
                Some(path) => stripped_path(path),
                None => None,
            },
    )
}

/// The readable prefix ends within the listing, holds readable members only,
/// and is followed by an unreadable member or by nothing.
pub proof fn lemma_readable_prefix(listing: Seq<Option<Seq<u8>>>)
    ensures
        0 <= readable_prefix(listing) <= listing.len(),
        forall|i: int| 0 <= i < readable_prefix(listing) ==> (#[trigger] listing[i]) is Some,
        readable_prefix(listing) < listing.len() ==> listing[readable_prefix(listing)] is None,
    decreases listing.len(),
{
    if listing.len() > 0 && listing[0] is Some {
        let rest = listing.skip(1);
        lemma_readable_prefix(rest);
        assert forall|i: int| 0 <= i < readable_prefix(listing) implies (#[trigger] listing[i])
            is Some by {
            if i > 0 {
                assert(listing[i] == rest[i - 1]);
            }
        }
        if readable_prefix(listing) < listing.len() {
            assert(listing[readable_prefix(listing)] == rest[readable_prefix(rest)]);
        }
    }
}

/// Plans the unpacking of a package from the listing of its members.
pub fn plan_unpack(paths: &Vec<Option<Vec<u8>>>) -> (plan: UnpackPlan)
    ensures
        listed(plan.targets@) == planned_targets(listed(paths@)),
        plan.complete == (readable_prefix(listed(paths@)) == paths.len()),
{
    let ghost listing = listed(paths@);
    let mut targets: Vec<Option<Vec<u8>>> = Vec::new();
    let mut i: usize = 0;
    let mut complete = true;
    proof {
        assert(listing.skip(0) == listing);
    }
    while i < paths.len() && complete
        invariant
            0 <= i <= paths.len(),
            listing == listed(paths@),
            targets.len() == (if complete {
                i as int
            } else {
                i - 1
            }),
            complete ==> readable_prefix(listing) == i + readable_prefix(listing.skip(i as int)),
            !complete ==> i >= 1 && readable_prefix(listing) == i - 1,
            forall|j: int|
                0 <= j < targets.len() ==> (#[trigger] listed(targets@)[j]) == (match listing[j] {
                    Some(path) => stripped_path(path),
                    None => None,
                }),
        decreases paths.len() - i,
    {
        proof {
            assert(listing.skip(i as int)[0] == listing[i as int]);
            assert(listing.skip(i as int).skip(1) == listing.skip(i + 1));
        }
        match &paths[i] {
            Some(path) => {
                let target = strip_wrapper(path.as_slice());
                let ghost before = listed(targets@);
                targets.push(target);
                proof {
                    assert(listed(targets@) =~= before.push(stripped_path(path@)));
                }
            },
            None => {
                complete = false;
            },
        }
        i = i + 1;
    }
    proof {
        lemma_readable_prefix(listing);
        assert(listed(targets@) =~= planned_targets(listing));
    }
    UnpackPlan { targets, complete }
}

/// Every component that a path contributes is a name: it is not empty and
/// holds no separator.
pub proof fn lemma_components_are_names(path: Seq<u8>, start: int)
    ensures
        forall|i: int|
            0 <= i < components_from(path, start).len() ==> (#[trigger] components_from(
                path,
                start,
            )[i]).len() > 0 && !components_from(path, start)[i].contains(SEPARATOR),
    decreases path.len() - start,
{
    if 0 <= start <= path.len() {
        lemma_separator_from_bounds(path, start);
        let end = separator_from(path, start);
        let piece = path.subrange(start, end);
        if end < path.len() {
            lemma_components_are_names(path, end + 1);
        }
        assert(!piece.contains(SEPARATOR)) by {
            if piece.contains(SEPARATOR) {
                let k = choose|k: int| 0 <= k < piece.len() && piece[k] == SEPARATOR;
                assert(path[start + k] == SEPARATOR);
            }
        }
        let rest = if end < path.len() {
            components_from(path, end + 1)
        } else {
            Seq::empty()
        };
        let all = components_from(path, start);
        assert forall|i: int| 0 <= i < all.len() implies (#[trigger] all[i]).len() > 0
            && !all[i].contains(SEPARATOR) by {
            if crate::paths::counts(piece, start == 0) {
                assert(all == seq![piece] + rest);
                if i > 0 {
                    assert(all[i] == rest[i - 1]);
                }
            } else {
                assert(all == rest);
            }
        }
    }
}

/// A joined path starts as its first component does.
pub proof fn lemma_join_starts_with_first(parts: Seq<Seq<u8>>)
    requires
        parts.len() > 0,
        parts[0].len() > 0,
    ensures
        join_components(parts).len() > 0,
        join_components(parts)[0] == parts[0][0],
    decreases parts.len(),
{
    if parts.len() > 1 {
        lemma_join_starts_with_first(parts.drop_last());
    }
}

/// The target of a member is a relative path: it is not empty and does not
/// start with a separator, so that joined onto the extension's directory it
/// names a place below it, as far as its `..` components let it.
pub proof fn lemma_target_is_relative(path: Seq<u8>)
    requires
        stripped_path(path) is Some,
    ensures
        stripped_path(path)->0.len() > 0,
        stripped_path(path)->0[0] != SEPARATOR,
{
    let components = path_components(path);
    let named = components_from(path, 0);
    lemma_components_are_names(path, 0);
    let rest = components.skip(1);
    assert(rest[0] == components[1]);
    if path.len() > 0 && path[0] == SEPARATOR {
        assert(components[1] == named[0]);
    } else {
        assert(components =~= named);
        assert(components[1] == named[1]);
    }
    assert(rest[0].len() > 0 && !rest[0].contains(SEPARATOR));
    lemma_join_starts_with_first(rest);
    assert(rest[0].contains(rest[0][0]));
}

} // verus!
