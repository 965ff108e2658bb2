//! Which directories of the archive a reconciliation leaves empty.

use vstd::prelude::*;
use vstd::string::*;
use crate::address::{lemma_text_order_irreflexive, lemma_text_order_total,
    lemma_text_order_transitive, text_before, text_precedes};
use crate::archive::paths;
use crate::text::{chars_of, starts_with};

verus! {

/// `true` when `dir` is a directory above the file at `path`: a proper prefix
/// of it that ends just before a separator, and not the root of the archive,
/// which is the empty path.
pub open spec fn is_dir_above(dir: Seq<char>, path: Seq<char>) -> bool {
    &&& 0 < dir.len() < path.len()
    &&& dir.last() != '/'
    &&& path[dir.len() as int] == '/'
    &&& dir.is_prefix_of(path)
}

/// `true` when `dir` is a directory above one of the files of `listing`.
pub open spec fn above_any(dir: Seq<char>, listing: Seq<Seq<char>>) -> bool {
    exists|i: int| 0 <= i < listing.len() && is_dir_above(dir, #[trigger] listing[i])
}

/// `true` when `dir` lost a file and holds none any more.
pub open spec fn prunable(dir: Seq<char>, removed: Seq<Seq<char>>, remaining: Seq<Seq<char>>) -> bool {
    above_any(dir, removed) && !above_any(dir, remaining)
}

/// Whether `dir` is a directory above the file at `path`.
pub fn dir_above(dir: &Vec<char>, path: &Vec<char>) -> (r: bool)
    ensures
        r == is_dir_above(dir@, path@),
{
    let n = dir.len();
    n > 0 && n < path.len() && dir[n - 1] != '/' && path[n] == '/' && starts_with(path, dir)
}

/// Whether `dir` is a directory above one of the files of `listing`.
pub fn above_some(dir: &Vec<char>, listing: &[String]) -> (r: bool)
    ensures
        r == above_any(dir@, paths(listing@)),
{
    let mut i: usize = 0;
    while i < listing.len()
        invariant
            i <= listing.len(),
            forall|j: int| 0 <= j < i ==> !is_dir_above(dir@, #[trigger] paths(listing@)[j]),
        decreases listing.len() - i,
    {
        let path = chars_of(listing[i].as_str());
        assert(paths(listing@)[i as int] == path@);
        if dir_above(dir, &path) {
            return true;
        }
        i += 1;
    }
    false
}

/// The order in which directories are deleted: the longer path first, and of
/// two paths of one length the one that comes first in the order of texts.
/// A directory is longer than every directory above it, so it comes before
/// them.
pub open spec fn dir_precedes(a: Seq<char>, b: Seq<char>) -> bool {
    a.len() > b.len() || (a.len() == b.len() && text_precedes(a, b))
}

/// `true` when each directory of `dirs` comes before all that follow it, so
/// that none occurs twice.
pub open spec fn dirs_ordered(dirs: Seq<Seq<char>>) -> bool {
    forall|i: int, j: int| 0 <= i < j < dirs.len() ==> dir_precedes(dirs[i], dirs[j])
}

/// The order of deletion is strict: irreflexive and transitive, and any two
/// different paths are ordered one way or the other.
pub proof fn lemma_dir_order(a: Seq<char>, b: Seq<char>, c: Seq<char>)
    ensures
        !dir_precedes(a, a),
        dir_precedes(a, b) && dir_precedes(b, c) ==> dir_precedes(a, c),
        a != b ==> dir_precedes(a, b) || dir_precedes(b, a),
        is_dir_above(a, b) ==> dir_precedes(b, a),
{
    lemma_text_order_irreflexive(a, 0);
    if text_precedes(a, b) && text_precedes(b, c) {
        lemma_text_order_transitive(a, b, c, 0);
    }
    if a != b && !text_precedes(a, b) && !text_precedes(b, a) {
        assert(a.take(0) =~= b.take(0));
        lemma_text_order_total(a, b, 0);
    }
}

/// Whether `a` is deleted before `b`.
pub fn dir_before(a: &str, b: &str) -> (r: bool)
    ensures
        r == dir_precedes(a@, b@),
{
    let m = a.unicode_len();
    let n = b.unicode_len();
    m > n || (m == n && text_before(a, b))
}

/// Puts `dir` at its place in the order of deletion, unless it is there.
fn insert_dir(out: &mut Vec<String>, dir: String)
    requires
        dirs_ordered(paths(old(out)@)),
    ensures
        dirs_ordered(paths(final(out)@)),
        forall|d: Seq<char>|
            #![trigger paths(final(out)@).contains(d)]
            paths(final(out)@).contains(d) <==> paths(old(out)@).contains(d) || d == dir@,
{
    let ghost before = paths(out@);
    let mut at: usize = 0;
    while at < out.len() && dir_before(out[at].as_str(), dir.as_str())
        invariant
            at <= out.len(),
            before == paths(out@),
            forall|j: int| 0 <= j < at ==> dir_precedes(before[j], dir@),
        decreases out.len() - at,
    {
        assert(before[at as int] == out@[at as int]@);
        at += 1;
    }
    if at < out.len() && out[at] == dir {
        assert(before[at as int] == dir@);
        return ;
    }
    proof {
        if at < out.len() {
            assert(before[at as int] == out@[at as int]@);
        }
    }
    out.insert(at, dir);
    proof {
        let after = paths(out@);
        assert(after =~= before.insert(at as int, dir@));
        assert forall|a: int, b: int| 0 <= a < b < after.len() implies dir_precedes(
            after[a],
            after[b],
        ) by {
            if b < at {
                assert(dir_precedes(before[a], before[b]));
            } else if b == at {
                assert(dir_precedes(before[a], dir@));
            } else if a == at {
                lemma_dir_order(dir@, before[at as int], before[b - 1]);
                lemma_dir_order(before[at as int], dir@, dir@);
                if b - 1 > at {
                    assert(dir_precedes(before[at as int], before[b - 1]));
                }
            } else if a < at {
                assert(dir_precedes(before[a], before[b - 1]));
            } else {
                assert(dir_precedes(before[a - 1], before[b - 1]));
            }
        }
        assert forall|d: Seq<char>| after.contains(d) <==> before.contains(d) || d == dir@ by {
            if before.contains(d) {
                let j = choose|j: int| 0 <= j < before.len() && before[j] == d;
                if j < at {
                    assert(after[j] == d);
                } else {
                    assert(after[j + 1] == d);
                }
            }
            assert(after[at as int] == dir@);
            if after.contains(d) && d != dir@ {
                let j = choose|j: int| 0 <= j < after.len() && after[j] == d;
                if j < at {
                    assert(before[j] == d);
                } else {
                    assert(before[j - 1] == d);
                }
            }
        }
    }
}

/// The directories to delete after the files of `removed` left the archive
/// and those of `remaining` stayed: every directory above a removed file that
/// holds no file any more, each once, in the order of deletion, which puts a
/// directory before the directories above it. The root of the archive is
/// never among them. All paths are relative to the root of the archive.
pub fn remove_empty_dir_all(removed: &[String], remaining: &[String]) -> (out: Vec<String>)
    ensures
        forall|d: Seq<char>|
            paths(out@).contains(d) <==> prunable(d, paths(removed@), paths(remaining@)),
        dirs_ordered(paths(out@)),
        paths(out@).no_duplicates(),
        forall|i: int, j: int|
            0 <= i < j < out@.len() ==> !is_dir_above(paths(out@)[i], paths(out@)[j]),
        forall|i: int| 0 <= i < out@.len() ==> (#[trigger] paths(out@)[i]).len() > 0,
{
    let mut out: Vec<String> = Vec::new();
    let ghost gone = paths(removed@);
    let ghost kept = paths(remaining@);
    let mut i: usize = 0;
    assert(gone.take(0) =~= Seq::<Seq<char>>::empty());
    while i < removed.len()
        invariant
            i <= removed.len(),
            gone == paths(removed@),
            kept == paths(remaining@),
            forall|d: Seq<char>|
                #![trigger paths(out@).contains(d)]
                paths(out@).contains(d) <==> prunable(d, gone.take(i as int), kept),
            dirs_ordered(paths(out@)),
        decreases removed.len() - i,
    {
        let path = removed[i].as_str();
        let chars = chars_of(path);
        assert(gone[i as int] == chars@);
        let mut k: usize = 1;
        while k < chars.len()
            invariant
                1 <= k,
                i < removed.len(),
                gone == paths(removed@),
                kept == paths(remaining@),
                chars@ == gone[i as int],
                chars@ == path@,
                forall|d: Seq<char>|
                    #![trigger paths(out@).contains(d)]
                    paths(out@).contains(d) <==> (above_any(d, gone.take(i as int)) || (
                    is_dir_above(d, chars@) && d.len() < k)) && !above_any(d, kept),
                dirs_ordered(paths(out@)),
            decreases chars.len() - k,
        {
            let ghost before = paths(out@);
            let ghost dir_view = chars@.subrange(0, k as int);
            let ghost mut inserted = false;
            if chars[k] == '/' && chars[k - 1] != '/' {
                let dir = String::from_str(path.substring_char(0, k));
                let dir_chars = chars_of(dir.as_str());
                assert(dir@ == dir_view);
                assert(is_dir_above(dir_view, chars@));
                if !above_some(&dir_chars, remaining) {
                    insert_dir(&mut out, dir);
                    proof {
                        inserted = true;
                    }
                }
            }
            proof {
                let after = paths(out@);
                assert forall|d: Seq<char>| after.contains(d) <==> (above_any(
                    d,
                    gone.take(i as int),
                ) || (is_dir_above(d, chars@) && d.len() < k + 1)) && !above_any(d, kept) by {
                    assert(before.contains(d) <==> (above_any(d, gone.take(i as int)) || (
                    is_dir_above(d, chars@) && d.len() < k)) && !above_any(d, kept));
                    assert(after.contains(d) <==> before.contains(d) || (inserted && d
                        == dir_view));
                    if is_dir_above(d, chars@) && d.len() == k {
                        assert(d =~= dir_view);
                    }
                }
            }
            k += 1;
        }
        proof {
            assert(gone.take(i + 1) =~= gone.take(i as int).push(chars@));
            assert forall|d: Seq<char>| above_any(d, gone.take(i + 1)) <==> above_any(
                d,
                gone.take(i as int),
            ) || is_dir_above(d, chars@) by {
                if above_any(d, gone.take(i as int)) {
                    let j = choose|j: int|
                        0 <= j < gone.take(i as int).len() && is_dir_above(
                            d,
                            #[trigger] gone.take(i as int)[j],
                        );
                    assert(gone.take(i + 1)[j] == gone.take(i as int)[j]);
                }
                if is_dir_above(d, chars@) {
                    assert(gone.take(i + 1)[i as int] == chars@);
                }
                if above_any(d, gone.take(i + 1)) {
                    let j = choose|j: int|
                        0 <= j < gone.take(i + 1).len() && is_dir_above(
                            d,
                            #[trigger] gone.take(i + 1)[j],
                        );
                    if j < i {
                        assert(gone.take(i as int)[j] == gone.take(i + 1)[j]);
                    }
                }
            }
            assert forall|d: Seq<char>| paths(out@).contains(d) <==> prunable(
                d,
                gone.take(i + 1),
                kept,
            ) by {
                assert(paths(out@).contains(d) <==> (above_any(d, gone.take(i as int)) || (
                is_dir_above(d, chars@) && d.len() < k)) && !above_any(d, kept));
                assert(above_any(d, gone.take(i + 1)) <==> above_any(d, gone.take(i as int))
                    || is_dir_above(d, chars@));
            }
        }
        i += 1;
    }
    proof {
        assert(gone.take(gone.len() as int) =~= gone);
        let dirs = paths(out@);
        assert forall|j: int| 0 <= j < dirs.len() implies (#[trigger] dirs[j]).len() > 0 by {
            assert(dirs.contains(dirs[j]));
        }
        assert forall|a: int, b: int| 0 <= a < dirs.len() && 0 <= b < dirs.len() && a
            != b implies dirs[a] != dirs[b] by {
            lemma_dir_order(dirs[a], dirs[b], dirs[a]);
            if a < b {
                assert(dir_precedes(dirs[a], dirs[b]));
            } else {
                assert(dir_precedes(dirs[b], dirs[a]));
            }
        }
        assert forall|a: int, b: int| 0 <= a < b < dirs.len() implies !is_dir_above(
            dirs[a],
            dirs[b],
        ) by {
            assert(dir_precedes(dirs[a], dirs[b]));
        }
    }
    out
}

} // verus!
