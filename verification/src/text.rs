//! Paths as character sequences: joining, prefixes and the checks that a
//! tracked relative path has to pass.

use vstd::prelude::*;
use vstd::string::*;

verus! {

/// `true` when a `..` segment starts at index `i` of `s`: two dots that are
/// bounded on both sides by a separator or by an end of the path.
pub open spec fn parent_segment_at(s: Seq<char>, i: int) -> bool {
    &&& 0 <= i
    &&& i + 2 <= s.len()
    &&& s[i] == '.'
    &&& s[i + 1] == '.'
    &&& (i == 0 || s[i - 1] == '/')
    &&& (i + 2 == s.len() || s[i + 2] == '/')
}

/// `true` when some segment of `s` is `..`.
pub open spec fn has_parent_segment(s: Seq<char>) -> bool {
    exists|i: int| parent_segment_at(s, i)
}

/// What a tracked relative path must satisfy: it is not empty, does not start
/// with a separator and has no `..` segment.
pub open spec fn valid_relative(s: Seq<char>) -> bool {
    &&& s.len() > 0
    &&& s[0] != '/'
    &&& !has_parent_segment(s)
}

/// `rel` appended to the directory `base`, with exactly one separator between
/// them unless `base` is empty or already ends in one.
pub open spec fn join(base: Seq<char>, rel: Seq<char>) -> Seq<char> {
    if base.len() == 0 || base.last() == '/' {
        base + rel
    } else {
        base + seq!['/'] + rel
    }
}

/// What is left of `path` below the directory `base`, when `path` lies under it.
pub open spec fn below(base: Seq<char>, path: Seq<char>) -> Option<Seq<char>> {
    let cut = join(base, Seq::<char>::empty()).len() as int;
    if cut <= path.len() && join(base, path.subrange(cut, path.len() as int)) == path {
        Some(path.subrange(cut, path.len() as int))
    } else {
        None
    }
}

/// The characters of `s`, in order.
pub fn chars_of(s: &str) -> (v: Vec<char>)
    ensures
        v@ == s@,
{
    let mut v: Vec<char> = Vec::new();
    for c in it: s.chars()
        invariant
            v@ == it.seq().take(it.index() as int),
            it.seq() == s@,
    {
        v.push(c);
    }
    v
}

/// Whether `p` is a prefix of `s`.
pub fn starts_with(s: &Vec<char>, p: &Vec<char>) -> (r: bool)
    ensures
        r == p@.is_prefix_of(s@),
{
    if p.len() > s.len() {
        return false;
    }
    let mut i: usize = 0;
    while i < p.len()
        invariant
            i <= p.len() <= s.len(),
            forall|k: int| 0 <= k < i ==> s@[k] == p@[k],
        decreases p.len() - i,
    {
        if s[i] != p[i] {
            assert(s@.subrange(0, p@.len() as int)[i as int] != p@[i as int]);
            return false;
        }
        i += 1;
    }
    assert(s@.subrange(0, p@.len() as int) =~= p@);
    true
}

/// Whether some segment of `s` is `..`.
pub fn contains_parent_segment(s: &Vec<char>) -> (r: bool)
    ensures
        r == has_parent_segment(s@),
{
    let n = s.len();
    if n < 2 {
        return false;
    }
    let mut i: usize = 0;
    while i <= n - 2
        invariant
            n == s.len(),
            2 <= n,
            i + 1 <= n,
            forall|k: int| 0 <= k < i ==> !parent_segment_at(s@, k),
        decreases n - i,
    {
        if s[i] == '.' && s[i + 1] == '.' && (i == 0 || s[i - 1] == '/') && (i == n - 2 || s[i + 2]
            == '/') {
            assert(parent_segment_at(s@, i as int));
            return true;
        }
        i += 1;
    }
    false
}

/// Whether `s` may stand as the relative path of a tracked file.
pub fn is_valid_relative(s: &Vec<char>) -> (r: bool)
    ensures
        r == valid_relative(s@),
{
    s.len() > 0 && s[0] != '/' && !contains_parent_segment(s)
}

/// `rel` appended to the directory `base`.
pub fn join_paths(base: &str, rel: &str) -> (r: String)
    ensures
        r@ == join(base@, rel@),
{
    let n = base.unicode_len();
    let mut out = String::from_str(base);
    if n > 0 && base.get_char(n - 1) != '/' {
        out.append("/");
        proof {
            reveal_strlit("/");
            assert("/"@ =~= seq!['/']);
        }
    }
    out.append(rel);
    out
}

/// The part of `s` from character `from` on, as an owned string; nothing
/// where `s` has fewer characters.
pub fn tail_from(s: &str, from: usize) -> (r: String)
    ensures
        from <= s@.len() ==> r@ == s@.subrange(from as int, s@.len() as int),
        from > s@.len() ==> r@ == Seq::<char>::empty(),
{
    let n = s.unicode_len();
    if from <= n {
        String::from_str(s.substring_char(from, n))
    } else {
        String::new()
    }
}

/// What is left of `path` below the directory `base`, if `path` lies under it.
pub fn strip_base(base: &str, path: &str) -> (r: Option<String>)
    ensures
        match below(base@, path@) {
            Some(rest) => r matches Some(found) && found@ == rest,
            None => r is None,
        },
{
    let dir = join_paths(base, "");
    let dir_chars = chars_of(dir.as_str());
    let path_chars = chars_of(path);
    proof {
        reveal_strlit("");
        assert(""@ =~= Seq::<char>::empty());
        assert(dir@ =~= join(base@, Seq::<char>::empty()));
        let cut = dir@.len() as int;
        if cut <= path@.len() {
            let rest = path@.subrange(cut, path@.len() as int);
            assert(join(base@, rest) =~= dir@ + rest);
            if dir@.is_prefix_of(path@) {
                assert(dir@ + rest =~= path@);
            }
            if dir@ + rest == path@ {
                assert(path@.subrange(0, cut) =~= dir@);
            }
        }
    }
    if starts_with(&path_chars, &dir_chars) {
        Some(tail_from(path, dir_chars.len()))
    } else {
        None
    }
}

} // verus!
