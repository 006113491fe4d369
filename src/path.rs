//! Paths as strings of `/`-separated segments: joining a relative path onto a
//! root, and taking a root back off.

use vstd::prelude::*;
use crate::text::{chars_of, string_of, chars_equal, starts_with_chars, concat_chars, chars_from};

verus! {

/// A path that does not start at `/` (the empty path included).
pub open spec fn is_relative(p: Seq<char>) -> bool {
    p.len() == 0 || p[0] != '/'
}

/// `rel` placed under `base`: an empty `rel` names `base` itself, an absolute
/// `rel` stands alone, and otherwise one `/` separates the two.
pub open spec fn path_join(base: Seq<char>, rel: Seq<char>) -> Seq<char> {
    if rel.len() == 0 {
        base
    } else if rel[0] == '/' {
        rel
    } else if base.len() == 0 {
        rel
    } else if base.last() == '/' {
        base + rel
    } else {
        base.push('/') + rel
    }
}

/// What `base` is followed by, with the separator, for a path under it.
pub open spec fn dir_head(base: Seq<char>) -> Seq<char> {
    if base.len() > 0 && base.last() == '/' {
        base
    } else {
        base.push('/')
    }
}

/// The path of `p` relative to `base`, when `p` lies at or under `base`.
pub open spec fn path_strip(p: Seq<char>, base: Seq<char>) -> Option<Seq<char>> {
    if p == base {
        Some(Seq::empty())
    } else if base.len() == 0 {
        if is_relative(p) {
            Some(p)
        } else {
            None
        }
    } else {
        let head = dir_head(base);
        if p.len() > head.len() && p.subrange(0, head.len() as int) == head && p[head.len() as int] != '/' {
            Some(p.subrange(head.len() as int, p.len() as int))
        } else {
            None
        }
    }
}

/// Taking a root off a path is the inverse of joining a relative path onto it.
pub proof fn lemma_strip_join(p: Seq<char>, base: Seq<char>, rel: Seq<char>)
    ensures
        path_strip(p, base) == Some(rel) <==> (is_relative(rel) && path_join(base, rel) == p),
{
    if is_relative(rel) && path_join(base, rel) == p {
        lemma_join_then_strip(base, rel);
    }
    if path_strip(p, base) == Some(rel) {
        lemma_strip_then_join(p, base);
    }
}

proof fn lemma_join_then_strip(base: Seq<char>, rel: Seq<char>)
    requires
        is_relative(rel),
    ensures
        path_strip(path_join(base, rel), base) == Some(rel),
{
    let p = path_join(base, rel);
    if rel.len() == 0 {
        assert(rel =~= Seq::<char>::empty());
    } else if base.len() == 0 {
        assert(p == rel);
        assert(p != base);
    } else {
        let head = dir_head(base);
        assert(p =~= head + rel);
        assert(p.subrange(0, head.len() as int) =~= head);
        assert(p.subrange(head.len() as int, p.len() as int) =~= rel);
        assert(p[head.len() as int] == rel[0]);
        assert(p.len() > base.len());
        assert(p != base);
    }
}

proof fn lemma_strip_then_join(p: Seq<char>, base: Seq<char>)
    requires
        path_strip(p, base) is Some,
    ensures
        is_relative(path_strip(p, base)->Some_0),
        path_join(base, path_strip(p, base)->Some_0) == p,
{
    let rel = path_strip(p, base)->Some_0;
    if p == base {
        assert(rel.len() == 0);
    } else if base.len() == 0 {
        assert(rel == p);
    } else {
        let head = dir_head(base);
        assert(p =~= head + rel);
        assert(rel.len() > 0 && rel[0] != '/');
    }
}

pub fn join_chars(base: &Vec<char>, rel: &Vec<char>) -> (r: Vec<char>)
    ensures
        r@ == path_join(base@, rel@),
{
    if rel.len() == 0 {
        base.clone()
    } else if rel[0] == '/' {
        rel.clone()
    } else if base.len() == 0 {
        rel.clone()
    } else if base[base.len() - 1] == '/' {
        concat_chars(base, rel)
    } else {
        let mut head = base.clone();
        head.push('/');
        concat_chars(&head, rel)
    }
}

pub fn strip_chars(p: &Vec<char>, base: &Vec<char>) -> (r: Option<Vec<char>>)
    ensures
        r matches Some(v) ==> path_strip(p@, base@) == Some(v@),
        r is None ==> path_strip(p@, base@) is None,
{
    if chars_equal(p, base) {
        return Some(Vec::new());
    }
    if base.len() == 0 {
        if p.len() == 0 || p[0] != '/' {
            return Some(p.clone());
        }
        return None;
    }
    let mut head = base.clone();
    if base[base.len() - 1] != '/' {
        head.push('/');
    }
    assert(head@ == dir_head(base@));
    if p.len() > head.len() && starts_with_chars(p, &head) && p[head.len()] != '/' {
        Some(chars_from(p, head.len()))
    } else {
        None
    }
}

/// Whether `p` is a relative path.
pub fn is_relative_path(p: &str) -> (r: bool)
    ensures
        r == is_relative(p@),
{
    let cs = chars_of(p);
    cs.len() == 0 || cs[0] != '/'
}

/// `rel` placed under `base`, as `path_join` describes.
pub fn join_path(base: &str, rel: &str) -> (r: String)
    ensures
        r@ == path_join(base@, rel@),
{
    let b = chars_of(base);
    let k = chars_of(rel);
    string_of(&join_chars(&b, &k))
}

/// The path of `path` relative to `base`, or `None` where it does not lie under it.
pub fn strip_base(path: &str, base: &str) -> (r: Option<String>)
    ensures
        r matches Some(v) ==> path_strip(path@, base@) == Some(v@),
        r is None ==> path_strip(path@, base@) is None,
{
    let p = chars_of(path);
    let b = chars_of(base);
    match strip_chars(&p, &b) {
        Some(v) => Some(string_of(&v)),
        None => None,
    }
}

} // verus!
