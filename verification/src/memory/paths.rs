//! The directories of project paths.
//!
//! A path is text with `/` between its components. Empty components and
//! components `.` do not count, except that a path that begins with `/` has
//! the root `/` as its first component, and a path whose first component is
//! `.` keeps it.

use crate::language::is_text;
use crate::split::{lemma_rows_push, pieces, rows, split};
use crate::text::{chars_of, copy_chars, has_prefix, same_chars, starts_with};
use vstd::prelude::*;

verus! {

/// The segments that count as components: all but the empty ones and `.`.
pub open spec fn kept_segments(segments: Seq<Seq<char>>) -> Seq<Seq<char>>
    decreases segments.len(),
{
    if segments.len() == 0 {
        Seq::empty()
    } else {
        let init = kept_segments(segments.drop_last());
        let last = segments.last();
        if last.len() == 0 || last == "."@ {
            init
        } else {
            init.push(last)
        }
    }
}

/// What stands before the segments of a path: the root, or a leading `.`.
pub open spec fn lead(path: Seq<char>) -> Seq<Seq<char>> {
    if has_prefix(path, "/"@) {
        seq!["/"@]
    } else if pieces(path, "/"@)[0] == "."@ {
        seq!["."@]
    } else {
        Seq::empty()
    }
}

/// The components of a path.
pub open spec fn components(path: Seq<char>) -> Seq<Seq<char>> {
    lead(path) + kept_segments(pieces(path, "/"@))
}

/// The directory a path lies in: its components without the last. The
/// root and the empty path lie in the empty directory.
pub open spec fn dir_of(path: Seq<char>) -> Seq<Seq<char>> {
    let cs = components(path);
    if cs.len() == 0 || cs.last() == "/"@ {
        Seq::empty()
    } else {
        cs.drop_last()
    }
}

/// `sub` begins with the components of `parent`.
pub open spec fn is_under(sub: Seq<Seq<char>>, parent: Seq<Seq<char>>) -> bool {
    parent.len() <= sub.len() && sub.take(parent.len() as int) == parent
}

pub fn path_components(path: &[char]) -> (r: Vec<Vec<char>>)
    ensures
        rows(r@) == components(path@),
{
    let slash = chars_of("/");
    let segments = split(path, slash.as_slice());
    let ghost all = rows(segments@);
    let mut out: Vec<Vec<char>> = Vec::new();
    assert(rows(out@) =~= Seq::<Seq<char>>::empty());
    assert(all[0] == segments@[0]@);
    if starts_with(path, slash.as_slice()) {
        let ghost before = out@;
        let root = copy_chars(slash.as_slice());
        out.push(root);
        proof {
            lemma_rows_push(before, root);
            assert(rows(out@) =~= lead(path@));
        }
    } else if is_text(segments[0].as_slice(), ".") {
        let ghost before = out@;
        let dot = chars_of(".");
        out.push(dot);
        proof {
            lemma_rows_push(before, dot);
            assert(rows(out@) =~= lead(path@));
        }
    }
    let mut i: usize = 0;
    proof {
        assert(all.take(0) =~= Seq::<Seq<char>>::empty());
        assert(rows(out@) =~= lead(path@) + kept_segments(all.take(0)));
    }
    while i < segments.len()
        invariant
            i <= segments.len(),
            all == rows(segments@),
            rows(out@) == lead(path@) + kept_segments(all.take(i as int)),
        decreases segments.len() - i,
    {
        let segment = segments[i].as_slice();
        proof {
            assert(all.take(i + 1).drop_last() =~= all.take(i as int));
            assert(all.take(i + 1).last() == segment@);
        }
        if segment.len() > 0 && !is_text(segment, ".") {
            let ghost before = out@;
            let s = copy_chars(segment);
            out.push(s);
            proof {
                lemma_rows_push(before, s);
                assert(rows(out@) =~= lead(path@) + kept_segments(all.take(i + 1)));
            }
        }
        i += 1;
    }
    proof {
        assert(all.take(segments.len() as int) =~= all);
    }
    out
}

/// The directory of a path, as components.
pub fn parent_dir(path: &[char]) -> (r: Vec<Vec<char>>)
    ensures
        rows(r@) == dir_of(path@),
{
    let mut cs = path_components(path);
    let n: usize = cs.len();
    assert(rows(cs@).len() == cs@.len());
    if n == 0 {
        return cs;
    }
    assert(rows(cs@).last() == cs@[n - 1]@);
    let ghost before = cs@;
    if is_text(cs[n - 1].as_slice(), "/") {
        let out: Vec<Vec<char>> = Vec::new();
        assert(rows(out@) =~= Seq::<Seq<char>>::empty());
        out
    } else {
        cs.pop();
        proof {
            assert(rows(cs@) =~= rows(before).drop_last());
        }
        cs
    }
}

/// Whether two directories are the same.
pub fn same_dir(a: &Vec<Vec<char>>, b: &Vec<Vec<char>>) -> (r: bool)
    ensures
        r == (rows(a@) == rows(b@)),
{
    if a.len() != b.len() {
        assert(rows(a@).len() != rows(b@).len());
        return false;
    }
    let mut i: usize = 0;
    while i < a.len()
        invariant
            i <= a.len(),
            a.len() == b.len(),
            forall|j: int| 0 <= j < i ==> rows(a@)[j] == rows(b@)[j],
        decreases a.len() - i,
    {
        if !same_chars(a[i].as_slice(), b[i].as_slice()) {
            assert(rows(a@)[i as int] != rows(b@)[i as int]);
            return false;
        }
        i += 1;
    }
    assert(rows(a@) =~= rows(b@));
    true
}

/// Whether `sub` lies in `parent` or below it.
pub fn is_subdirectory(sub: &Vec<Vec<char>>, parent: &Vec<Vec<char>>) -> (r: bool)
    ensures
        r == is_under(rows(sub@), rows(parent@)),
{
    if parent.len() > sub.len() {
        return false;
    }
    let mut i: usize = 0;
    while i < parent.len()
        invariant
            i <= parent.len() <= sub.len(),
            forall|j: int| 0 <= j < i ==> rows(sub@)[j] == rows(parent@)[j],
        decreases parent.len() - i,
    {
        if !same_chars(sub[i].as_slice(), parent[i].as_slice()) {
            assert(rows(sub@).take(parent.len() as int)[i as int] != rows(parent@)[i as int]);
            return false;
        }
        i += 1;
    }
    assert(rows(sub@).take(parent.len() as int) =~= rows(parent@));
    true
}

} // verus!
