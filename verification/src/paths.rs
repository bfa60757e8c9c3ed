//! Paths of archive members, and paths of directories on disk.
//!
//! A member's path is a byte string in which `/` separates the components.
//! Empty components and `.` components do not count, except for a `.` at the
//! very start; a path that starts with `/` has the root as its first component.

use vstd::prelude::*;
use vstd::string::*;
use crate::text::{first_char, last_char};

verus! {

/// The byte that separates the components of a path.
pub const SEPARATOR: u8 = 47;

/// The byte of which the current-directory component is made.
pub const DOT: u8 = 46;

/// Each byte string of a sequence of byte vectors.
pub open spec fn byte_strings(parts: Seq<Vec<u8>>) -> Seq<Seq<u8>> {
    parts.map_values(|part: Vec<u8>| part@)
}

/// The first position at or after `start` that holds a separator; the length
/// of `path` where there is none.
pub open spec fn separator_from(path: Seq<u8>, start: int) -> int
    decreases path.len() - start,
{
    if start < 0 || start >= path.len() {
        path.len() as int
    } else if path[start] == SEPARATOR {
        start
    } else {
        separator_from(path, start + 1)
    }
}

/// Whether the piece between two separators counts as a component. `leading`
/// says that the piece stands at the very start of the path.
pub open spec fn counts(piece: Seq<u8>, leading: bool) -> bool {
    piece.len() > 0 && (leading || piece != seq![DOT])
}

/// The components that the part of `path` from `start` on contributes, where
/// `start` is the start of the path or one past a separator.
pub open spec fn components_from(path: Seq<u8>, start: int) -> Seq<Seq<u8>>
    decreases path.len() - start,
    via components_from_decreases
{
    if start < 0 || start > path.len() {
        Seq::empty()
    } else {
        let end = separator_from(path, start);
        let piece = path.subrange(start, end);
        let rest = if end < path.len() {
            components_from(path, end + 1)
        } else {
            Seq::empty()
        };
        if counts(piece, start == 0) {
            seq![piece] + rest
        } else {
            rest
        }
    }
}

#[via_fn]
proof fn components_from_decreases(path: Seq<u8>, start: int) {
    if 0 <= start <= path.len() {
        lemma_separator_from_bounds(path, start);
    }
}

/// The separator found from `start` lies at or after `start` and within the path.
pub proof fn lemma_separator_from_bounds(path: Seq<u8>, start: int)
    requires
        0 <= start <= path.len(),
    ensures
        start <= separator_from(path, start) <= path.len(),
        separator_from(path, start) < path.len() ==> path[separator_from(path, start)]
            == SEPARATOR,
        forall|i: int| start <= i < separator_from(path, start) ==> path[i] != SEPARATOR,
    decreases path.len() - start,
{
    if start < path.len() && path[start] != SEPARATOR {
        lemma_separator_from_bounds(path, start + 1);
    }
}

/// The components of a path: the root, where the path starts with a
/// separator, and then every piece that counts.
pub open spec fn path_components(path: Seq<u8>) -> Seq<Seq<u8>> {
    let root = if path.len() > 0 && path[0] == SEPARATOR {
        seq![seq![SEPARATOR]]
    } else {
        Seq::empty()
    };
    root + components_from(path, 0)
}

/// The components written one after the other with a separator between them.
pub open spec fn join_components(parts: Seq<Seq<u8>>) -> Seq<u8>
    decreases parts.len(),
{
    if parts.len() == 0 {
        Seq::empty()
    } else if parts.len() == 1 {
        parts[0]
    } else {
        join_components(parts.drop_last()) + seq![SEPARATOR] + parts.last()
    }
}

/// Where a member is unpacked to, relative to the target directory: its path
/// without the first component. `None` where the path has no component beyond
/// the first, so that nothing is unpacked for it.
pub open spec fn stripped_path(path: Seq<u8>) -> Option<Seq<u8>> {
    let components = path_components(path);
    if components.len() > 1 {
        Some(join_components(components.skip(1)))
    } else {
        None
    }
}

/// The position of the first separator at or after `start`.
fn find_separator(path: &[u8], start: usize) -> (end: usize)
    requires
        start <= path.len(),
    ensures
        end == separator_from(path@, start as int),
        start <= end <= path.len(),
{
    let mut i: usize = start;
    while i < path.len() && path[i] != SEPARATOR
        invariant
            start <= i <= path.len(),
            separator_from(path@, start as int) == separator_from(path@, i as int),
        decreases path.len() - i,
    {
        i = i + 1;
    }
    i
}

/// A copy of the bytes from `start` up to `end`.
fn copy_range(bytes: &[u8], start: usize, end: usize) -> (copy: Vec<u8>)
    requires
        start <= end <= bytes.len(),
    ensures
        copy@ == bytes@.subrange(start as int, end as int),
{
    let mut copy: Vec<u8> = Vec::new();
    let mut i: usize = start;
    while i < end
        invariant
            start <= i <= end <= bytes.len(),
            copy@ == bytes@.subrange(start as int, i as int),
        decreases end - i,
    {
        copy.push(bytes[i]);
        proof {
            assert(bytes@.subrange(start as int, i + 1) == bytes@.subrange(
                start as int,
                i as int,
            ).push(bytes@[i as int]));
        }
        i = i + 1;
    }
    copy
}

/// Splits a member's path into its components.
pub fn split_components(path: &[u8]) -> (components: Vec<Vec<u8>>)
    ensures
        byte_strings(components@) == path_components(path@),
{
    let mut components: Vec<Vec<u8>> = Vec::new();
    if path.len() > 0 && path[0] == SEPARATOR {
        let mut root: Vec<u8> = Vec::new();
        root.push(SEPARATOR);
        components.push(root);
        proof {
            assert(root@ == seq![SEPARATOR]);
            assert(byte_strings(components@) == seq![seq![SEPARATOR]]);
        }
    } else {
        proof {
            assert(byte_strings(components@) == Seq::<Seq<u8>>::empty());
        }
    }
    let mut start: usize = 0;
    let mut more: bool = true;
    while more
        invariant
            start <= path.len(),
            path_components(path@) == byte_strings(components@) + (if more {
                components_from(path@, start as int)
            } else {
                Seq::empty()
            }),
        decreases (if more { path.len() - start + 1 } else { 0 }),
    {
        let end = find_separator(path, start);
        let ghost before = byte_strings(components@);
        let ghost piece = path@.subrange(start as int, end as int);
        let single_dot = end - start == 1 && path[start] == DOT;
        proof {
            if end - start == 1 {
                assert(piece == seq![path@[start as int]]);
                if path@[start as int] == DOT {
                    assert(piece == seq![DOT]);
                } else {
                    assert(piece[0] != seq![DOT][0]);
                }
            } else {
                assert(piece.len() != seq![DOT].len());
            }
        }
        if end > start && (start == 0 || !single_dot) {
            let part = copy_range(path, start, end);
            components.push(part);
            proof {
                assert(byte_strings(components@) == before.push(piece));
                assert(before.push(piece) == before + seq![piece]);
            }
        }
        if end < path.len() {
            proof {
                let rest = components_from(path@, end + 1);
                if counts(piece, start == 0) {
                    assert(before + (seq![piece] + rest) == (before + seq![piece]) + rest);
                }
            }
            start = end + 1;
        } else {
            proof {
                if counts(piece, start == 0) {
                    assert(before + (seq![piece] + Seq::<Seq<u8>>::empty()) == (before + seq![
                        piece,
                    ]) + Seq::<Seq<u8>>::empty());
                }
            }
            more = false;
        }
    }
    proof {
        assert(byte_strings(components@) + Seq::<Seq<u8>>::empty() == byte_strings(components@));
    }
    components
}

/// Writes the components from position `from` on one after the other, with a
/// separator between them.
pub fn join_from(components: &Vec<Vec<u8>>, from: usize) -> (joined: Vec<u8>)
    requires
        from <= components.len(),
    ensures
        joined@ == join_components(byte_strings(components@).skip(from as int)),
{
    let ghost all = byte_strings(components@);
    let mut joined: Vec<u8> = Vec::new();
    let mut i: usize = from;
    proof {
        assert(all.subrange(from as int, from as int) == Seq::<Seq<u8>>::empty());
    }
    while i < components.len()
        invariant
            from <= i <= components.len(),
            all == byte_strings(components@),
            joined@ == join_components(all.subrange(from as int, i as int)),
        decreases components.len() - i,
    {
        let ghost done = all.subrange(from as int, i as int);
        let ghost next = all.subrange(from as int, i + 1);
        proof {
            assert(next.drop_last() == done);
            assert(next.last() == components@[i as int]@);
        }
        if i > from {
            joined.push(SEPARATOR);
        }
        let part = &components[i];
        let mut j: usize = 0;
        let ghost base = joined@;
        while j < part.len()
            invariant
                0 <= j <= part.len(),
                joined@ == base + part@.take(j as int),
            decreases part.len() - j,
        {
            joined.push(part[j]);
            proof {
                assert(part@.take(j + 1) == part@.take(j as int).push(part@[j as int]));
            }
            j = j + 1;
        }
        proof {
            assert(part@.take(part@.len() as int) == part@);
            if i > from {
                assert(joined@ == join_components(done) + seq![SEPARATOR] + part@);
            } else {
                assert(done.len() == 0);
                assert(joined@ == part@);
                assert(next.len() == 1);
            }
        }
        i = i + 1;
    }
    proof {
        assert(all.subrange(from as int, components@.len() as int) == all.skip(from as int));
    }
    joined
}

/// Strips the first component, the archive's wrapper directory, from a
/// member's path. `None` says that the member is to be skipped: its path has
/// nothing below the wrapper directory.
pub fn strip_wrapper(path: &[u8]) -> (relative: Option<Vec<u8>>)
    ensures
        match relative {
            Some(rest) => stripped_path(path@) == Some(rest@),
            None => stripped_path(path@) is None,
        },
{
    let components = split_components(path);
    if components.len() > 1 {
        Some(join_from(&components, 1))
    } else {
        None
    }
}

/// Whether two byte strings hold the same bytes.
pub fn bytes_eq(a: &[u8], b: &[u8]) -> (same: bool)
    ensures
        same == (a@ == b@),
{
    if a.len() != b.len() {
        return false;
    }
    let mut i: usize = 0;
    while i < a.len()
        invariant
            0 <= i <= a.len(),
            a.len() == b.len(),
            a@.take(i as int) == b@.take(i as int),
        decreases a.len() - i,
    {
        if a[i] != b[i] {
            return false;
        }
        proof {
            assert(a@.take(i + 1) == a@.take(i as int).push(a@[i as int]));
            assert(b@.take(i + 1) == b@.take(i as int).push(b@[i as int]));
        }
        i = i + 1;
    }
    proof {
        assert(a@.take(a@.len() as int) == a@);
        assert(b@.take(b@.len() as int) == b@);
    }
    true
}

/// The path `tail` taken relative to the directory `base`. A tail that starts
/// with a separator stands for itself; otherwise it follows the base, after a
/// separator where the base is not empty and does not end with one.
pub open spec fn joined_path(base: Seq<char>, tail: Seq<char>) -> Seq<char> {
    if tail.len() > 0 && tail[0] == '/' {
        tail
    } else if base.len() > 0 && base.last() != '/' {
        base + seq!['/'] + tail
    } else {
        base + tail
    }
}

/// Joins a path onto a directory, both written with `/` as separator.
pub fn join_path(base: &str, tail: &str) -> (joined: String)
    ensures
        joined@ == joined_path(base@, tail@),
{
    if first_char(tail) == Some('/') {
        return tail.to_owned();
    }
    let mut joined = base.to_owned();
    match last_char(base) {
        Some(c) => {
            if c != '/' {
                proof {
                    reveal_strlit("/");
                    assert("/"@ == seq!['/']);
                }
                joined.append("/");
            }
        },
        None => {},
    }
    joined.append(tail);
    joined
}

} // verus!
