//! File paths under the root directory.
//!
//! A request path is taken relative to the root: the slashes in front of it
//! are dropped and what is left is appended to the root as it stands. Dot
//! segments are not resolved: `join` lets `..` climb out of the root.
//! `is_confined` tells the paths that never do, by their text alone, with
//! `/` as the only separator. It knows nothing of symbolic links; a caller
//! that has to rule those out resolves the file on the file system as well.

use crate::text::{append, DOT, SLASH};
use vstd::prelude::*;
use vstd::slice::slice_subrange;

verus! {

/// The number of slashes in front of `path`.
pub open spec fn leading_slashes(path: Seq<u8>) -> nat
    decreases path.len(),
{
    if path.len() > 0 && path[0] == SLASH {
        1 + leading_slashes(path.drop_first())
    } else {
        0
    }
}

/// `path` without the slashes in front of it.
pub open spec fn relative(path: Seq<u8>) -> Seq<u8> {
    path.skip(leading_slashes(path) as int)
}

/// The file that `path` names under `root`: the root, a slash unless the
/// root is empty or ends in one, and the relative path.
pub open spec fn joined(root: Seq<u8>, path: Seq<u8>) -> Seq<u8> {
    if root.len() == 0 || root.last() == SLASH {
        root + relative(path)
    } else {
        root + seq![SLASH] + relative(path)
    }
}

/// `leading_slashes` stops at the first byte that is no slash, or at the end.
pub proof fn lemma_leading_slashes(path: Seq<u8>)
    ensures
        leading_slashes(path) <= path.len(),
        forall|k: int| 0 <= k < leading_slashes(path) ==> #[trigger] path[k] == SLASH,
        leading_slashes(path) < path.len() ==> path[leading_slashes(path) as int] != SLASH,
    decreases path.len(),
{
    if path.len() > 0 && path[0] == SLASH {
        let t = path.drop_first();
        lemma_leading_slashes(t);
        assert forall|k: int| 0 <= k < leading_slashes(path) implies #[trigger] path[k]
            == SLASH by {
            if k > 0 {
                assert(path[k] == t[k - 1]);
            }
        }
        assert(leading_slashes(t) < t.len() ==> path[leading_slashes(path) as int]
            == t[leading_slashes(t) as int]);
    }
}

/// `leading_slashes(path)` is the only position that ends a run of slashes
/// starting at the front of `path`.
pub proof fn lemma_leading_slashes_unique(path: Seq<u8>, n: int)
    requires
        0 <= n <= path.len(),
        forall|k: int| 0 <= k < n ==> #[trigger] path[k] == SLASH,
        n < path.len() ==> path[n] != SLASH,
    ensures
        leading_slashes(path) == n,
{
    // A shorter or a longer run would put a slash and a byte that is none
    // at the same position.
    lemma_leading_slashes(path);
}

/// Slashes in front of a request path do not change the file it names.
pub proof fn lemma_joined_ignores_leading_slash(root: Seq<u8>, path: Seq<u8>)
    ensures
        joined(root, seq![SLASH] + path) == joined(root, path),
{
    let p = seq![SLASH] + path;
    assert(p.drop_first() =~= path);
    lemma_leading_slashes(path);
}

/// Builds the path of the file that `path` names under `root`.
pub fn join(root: &[u8], path: &[u8]) -> (file: Vec<u8>)
    ensures
        file@ == joined(root@, path@),
{
    let len = path.len();
    let mut start: usize = 0;
    while start < len && path[start] == SLASH
        invariant
            len == path@.len(),
            start <= len,
            forall|k: int| 0 <= k < start ==> #[trigger] path@[k] == SLASH,
        decreases len - start,
    {
        start += 1;
    }
    proof {
        lemma_leading_slashes_unique(path@, start as int);
    }
    let mut file: Vec<u8> = Vec::new();
    append(&mut file, root);
    if root.len() > 0 && root[root.len() - 1] != SLASH {
        file.push(SLASH);
    }
    append(&mut file, slice_subrange(path, start, len));
    file
}

/// The segments of a path: the texts between its slashes, empty ones too.
/// A path without a slash is one segment.
pub open spec fn segments(path: Seq<u8>) -> Seq<Seq<u8>>
    decreases path.len(),
{
    if path.len() == 0 {
        seq![Seq::empty()]
    } else {
        let front = segments(path.drop_last());
        if path.last() == SLASH {
            front.push(Seq::empty())
        } else {
            front.drop_last().push(front.last().push(path.last()))
        }
    }
}

/// Whether a segment names the parent directory.
pub open spec fn is_parent(segment: Seq<u8>) -> bool {
    segment == seq![DOT, DOT]
}

/// Whether a segment names the directory it stands in: the empty segment
/// and the single dot.
pub open spec fn is_here(segment: Seq<u8>) -> bool {
    segment.len() == 0 || segment == seq![DOT]
}

/// The depth below the starting directory after one more segment, or `None`
/// once the walk has left that directory.
pub open spec fn step(depth: Option<nat>, segment: Seq<u8>) -> Option<nat> {
    match depth {
        None => None,
        Some(d) => if is_parent(segment) {
            if d == 0 {
                None
            } else {
                Some((d - 1) as nat)
            }
        } else if is_here(segment) {
            Some(d)
        } else {
            Some(d + 1)
        },
    }
}

/// The depth after walking `segs` in order from depth `from`.
pub open spec fn descend(from: Option<nat>, segs: Seq<Seq<u8>>) -> Option<nat>
    decreases segs.len(),
{
    if segs.len() == 0 {
        from
    } else {
        step(descend(from, segs.drop_last()), segs.last())
    }
}

/// Whether a request path stays under the directory it is joined to: at no
/// point of the path do its `..` segments outnumber the directories entered
/// before them.
pub open spec fn confined(path: Seq<u8>) -> bool {
    descend(Some(0), segments(path)) is Some
}

/// The directory reached from `dir` by one segment, each directory given
/// by the names that lead to it. The parent of the topmost directory is
/// that directory itself.
pub open spec fn enter(dir: Seq<Seq<u8>>, segment: Seq<u8>) -> Seq<Seq<u8>> {
    if is_parent(segment) {
        if dir.len() > 0 {
            dir.drop_last()
        } else {
            dir
        }
    } else if is_here(segment) {
        dir
    } else {
        dir.push(segment)
    }
}

/// The directory, or file, reached from `dir` by walking `segs` in order.
pub open spec fn walk(dir: Seq<Seq<u8>>, segs: Seq<Seq<u8>>) -> Seq<Seq<u8>>
    decreases segs.len(),
{
    if segs.len() == 0 {
        dir
    } else {
        enter(walk(dir, segs.drop_last()), segs.last())
    }
}

/// A path has at least one segment.
pub proof fn lemma_segments_nonempty(path: Seq<u8>)
    ensures
        segments(path).len() >= 1,
    decreases path.len(),
{
    if path.len() > 0 {
        lemma_segments_nonempty(path.drop_last());
    }
}

/// A slash cuts a path in two: the segments of `a/b` are those of `a`
/// followed by those of `b`.
pub proof fn lemma_segments_concat(a: Seq<u8>, b: Seq<u8>)
    ensures
        segments(a + seq![SLASH] + b) == segments(a) + segments(b),
    decreases b.len(),
{
    let whole = a + seq![SLASH] + b;
    if b.len() == 0 {
        assert(whole.drop_last() =~= a);
    } else {
        let shorter = b.drop_last();
        assert(whole.drop_last() =~= a + seq![SLASH] + shorter);
        lemma_segments_concat(a, shorter);
        lemma_segments_nonempty(shorter);
    }
}

/// Walking `a` and then `b` is walking `a + b`, for the depth.
pub proof fn lemma_descend_concat(from: Option<nat>, a: Seq<Seq<u8>>, b: Seq<Seq<u8>>)
    ensures
        descend(from, a + b) == descend(descend(from, a), b),
    decreases b.len(),
{
    if b.len() > 0 {
        assert((a + b).drop_last() =~= a + b.drop_last());
        lemma_descend_concat(from, a, b.drop_last());
    }
}

/// Walking `a` and then `b` is walking `a + b`, for the directory reached.
pub proof fn lemma_walk_concat(dir: Seq<Seq<u8>>, a: Seq<Seq<u8>>, b: Seq<Seq<u8>>)
    ensures
        walk(dir, a + b) == walk(walk(dir, a), b),
    decreases b.len(),
{
    if b.len() > 0 {
        assert((a + b).drop_last() =~= a + b.drop_last());
        lemma_walk_concat(dir, a, b.drop_last());
    }
}

/// A walk that is inside at its end was inside all the way.
pub proof fn lemma_descend_prefix(from: Option<nat>, segs: Seq<Seq<u8>>, k: int)
    requires
        0 <= k <= segs.len(),
        descend(from, segs) is Some,
    ensures
        descend(from, segs.take(k)) is Some,
    decreases segs.len(),
{
    if k == segs.len() {
        assert(segs.take(k) =~= segs);
    } else {
        assert(segs.drop_last().take(k) =~= segs.take(k));
        lemma_descend_prefix(from, segs.drop_last(), k);
    }
}

/// The depth counts the directories below the start: a walk whose depth
/// goes from `from` to `to` without leaving changes only the last `from`
/// names of the directory it starts in, and ends `to` names below the rest.
pub proof fn lemma_walk_keeps_base(dir: Seq<Seq<u8>>, from: nat, segs: Seq<Seq<u8>>, to: nat)
    requires
        from <= dir.len(),
        descend(Some(from), segs) == Some(to),
    ensures
        walk(dir, segs).len() == dir.len() - from + to,
        walk(dir, segs).take(dir.len() - from) == dir.take(dir.len() - from),
    decreases segs.len(),
{
    if segs.len() > 0 {
        // The walk was inside before its last segment, or it would be
        // outside now.
        let before = descend(Some(from), segs.drop_last());
        lemma_walk_keeps_base(dir, from, segs.drop_last(), before->0);
    }
}

/// A confined walk stays under the directory it starts in, at every point.
pub proof fn lemma_confined_walk_stays_under(dir: Seq<Seq<u8>>, segs: Seq<Seq<u8>>, k: int)
    requires
        descend(Some(0), segs) is Some,
        0 <= k <= segs.len(),
    ensures
        dir.is_prefix_of(walk(dir, segs.take(k))),
{
    lemma_descend_prefix(Some(0), segs, k);
    let to = descend(Some(0), segs.take(k))->0;
    lemma_walk_keeps_base(dir, 0, segs.take(k), to);
}

/// A walk that is not confined does leave the directory it starts in, where
/// that directory has a parent: at some point it stands above it.
pub proof fn lemma_unconfined_walk_leaves(dir: Seq<Seq<u8>>, segs: Seq<Seq<u8>>) -> (k: int)
    requires
        descend(Some(0), segs) is None,
        dir.len() > 0,
    ensures
        0 < k <= segs.len(),
        walk(dir, segs.take(k)).len() < dir.len(),
    decreases segs.len(),
{
    let before = descend(Some(0), segs.drop_last());
    if before is None {
        let k = lemma_unconfined_walk_leaves(dir, segs.drop_last());
        assert(segs.drop_last().take(k) =~= segs.take(k));
        k
    } else {
        lemma_walk_keeps_base(dir, 0, segs.drop_last(), before->0);
        assert(segs.take(segs.len() as int) =~= segs);
        segs.len() as int
    }
}

/// The empty path leads nowhere: it is one empty segment, which stays in
/// the directory and at the depth where the walk stands.
pub proof fn lemma_empty_path(dir: Seq<Seq<u8>>)
    ensures
        walk(dir, segments(Seq::empty())) == dir,
        descend(Some(0), segments(Seq::empty())) == Some(0nat),
{
    let only = segments(Seq::<u8>::empty());
    assert(walk(dir, only.drop_last()) == dir);
    assert(descend(Some(0), only.drop_last()) == Some(0nat));
}

/// Slashes in front of a path do not change whether it is confined.
pub proof fn lemma_confined_relative(path: Seq<u8>)
    ensures
        confined(relative(path)) == confined(path),
    decreases path.len(),
{
    if path.len() > 0 && path[0] == SLASH {
        let rest = path.drop_first();
        lemma_confined_relative(rest);
        lemma_leading_slashes(rest);
        assert(relative(path) =~= relative(rest));
        assert(path =~= Seq::<u8>::empty() + seq![SLASH] + rest);
        lemma_segments_concat(Seq::empty(), rest);
        lemma_descend_concat(Some(0), segments(Seq::empty()), segments(rest));
        lemma_empty_path(Seq::empty());
    } else {
        assert(relative(path) =~= path);
    }
}

/// The file that a confined path names lies under the root: walking the
/// joined path from any directory `from` passes through the directory that
/// the root names and ends in it or below it.
pub proof fn lemma_confined_file_is_under_root(from: Seq<Seq<u8>>, root: Seq<u8>, path: Seq<u8>)
    requires
        confined(path),
    ensures
        walk(from, segments(root)).is_prefix_of(walk(from, segments(joined(root, path)))),
{
    let rel = relative(path);
    lemma_confined_relative(path);
    let inner = segments(rel);
    assert(inner.take(inner.len() as int) =~= inner);
    if root.len() == 0 {
        lemma_empty_path(from);
        lemma_confined_walk_stays_under(from, inner, inner.len() as int);
    } else if root.last() == SLASH {
        let stem = root.drop_last();
        assert(root =~= stem + seq![SLASH] + Seq::<u8>::empty());
        lemma_segments_concat(stem, Seq::empty());
        lemma_segments_concat(stem, rel);
        lemma_walk_concat(from, segments(stem), segments(Seq::empty()));
        lemma_walk_concat(from, segments(stem), inner);
        let base = walk(from, segments(stem));
        lemma_empty_path(base);
        lemma_confined_walk_stays_under(base, inner, inner.len() as int);
    } else {
        lemma_segments_concat(root, rel);
        lemma_walk_concat(from, segments(root), inner);
        lemma_confined_walk_stays_under(walk(from, segments(root)), inner, inner.len() as int);
    }
}

/// A name without a slash is a single segment; it is confined unless it is
/// `..`.
pub proof fn lemma_plain_name_is_confined(name: Seq<u8>)
    requires
        forall|k: int| 0 <= k < name.len() ==> name[k] != SLASH,
        name.len() != 2,
    ensures
        segments(name) == seq![name],
        confined(name),
{
    lemma_single_segment(name);
    let only = seq![name];
    assert(descend(Some(0), only.drop_last()) == Some(0nat));
}

/// A text without a slash is one segment.
pub proof fn lemma_single_segment(name: Seq<u8>)
    requires
        forall|k: int| 0 <= k < name.len() ==> name[k] != SLASH,
    ensures
        segments(name) == seq![name],
    decreases name.len(),
{
    if name.len() > 0 {
        let shorter = name.drop_last();
        lemma_single_segment(shorter);
        assert(seq![shorter].drop_last().push(shorter.push(name.last())) =~= seq![name]) by {
            assert(shorter.push(name.last()) =~= name);
        }
    } else {
        assert(name =~= Seq::<u8>::empty());
    }
}

/// The path `/` is confined.
pub proof fn lemma_root_path_is_confined()
    ensures
        confined(seq![SLASH]),
{
    lemma_segments_concat(Seq::empty(), Seq::empty());
    lemma_descend_concat(Some(0), segments(Seq::empty()), segments(Seq::empty()));
    lemma_empty_path(Seq::empty());
}

/// Whether the bytes of `path` from `start` up to `end` are `..`.
fn names_parent(path: &[u8], start: usize, end: usize) -> (r: bool)
    requires
        start <= end <= path@.len(),
    ensures
        r == is_parent(path@.subrange(start as int, end as int)),
{
    let ghost segment = path@.subrange(start as int, end as int);
    if end - start == 2 && path[start] == DOT && path[start + 1] == DOT {
        assert(segment =~= seq![DOT, DOT]);
        true
    } else {
        assert(segment.len() == 2 ==> segment[0] == path@[start as int] && segment[1]
            == path@[start + 1]);
        false
    }
}

/// Whether the bytes of `path` from `start` up to `end` are empty or `.`.
fn names_here(path: &[u8], start: usize, end: usize) -> (r: bool)
    requires
        start <= end <= path@.len(),
    ensures
        r == is_here(path@.subrange(start as int, end as int)),
{
    let ghost segment = path@.subrange(start as int, end as int);
    if end == start {
        true
    } else if end - start == 1 && path[start] == DOT {
        assert(segment =~= seq![DOT]);
        true
    } else {
        assert(segment.len() == 1 ==> segment[0] == path@[start as int]);
        assert(seq![DOT][0] == DOT);
        false
    }
}

/// Whether `path` stays under the directory it is joined to.
pub fn is_confined(path: &[u8]) -> (r: bool)
    ensures
        r == confined(path@),
{
    let len = path.len();
    let mut inside: bool = true;
    let mut depth: usize = 0;
    let mut start: usize = 0;
    let mut i: usize = 0;
    let ghost mut done: Seq<Seq<u8>> = Seq::empty();
    assert(path@.take(0) =~= Seq::<u8>::empty());
    while i < len
        invariant
            len == path@.len(),
            start <= i <= len,
            depth <= done.len() <= i,
            segments(path@.take(i as int)) == done.push(path@.subrange(start as int, i as int)),
            descend(Some(0), done) == (if inside {
                Some(depth as nat)
            } else {
                None
            }),
        decreases len - i,
    {
        let ghost current = path@.subrange(start as int, i as int);
        assert(path@.take(i + 1).drop_last() =~= path@.take(i as int));
        if path[i] == SLASH {
            let parent = names_parent(path, start, i);
            let here = names_here(path, start, i);
            proof {
                assert(done.push(current).drop_last() =~= done);
                assert(path@.subrange(i + 1, i + 1) =~= Seq::<u8>::empty());
                done = done.push(current);
            }
            if inside {
                if parent {
                    if depth == 0 {
                        inside = false;
                    } else {
                        depth -= 1;
                    }
                } else if !here {
                    depth += 1;
                }
            }
            start = i + 1;
        } else {
            assert(current.push(path@[i as int]) =~= path@.subrange(start as int, i + 1));
        }
        i += 1;
    }
    let parent = names_parent(path, start, len);
    proof {
        let current = path@.subrange(start as int, len as int);
        assert(path@.take(len as int) =~= path@);
        assert(done.push(current).drop_last() =~= done);
    }
    inside && !(parent && depth == 0)
}

} // verus!
