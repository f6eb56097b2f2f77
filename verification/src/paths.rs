use vstd::prelude::*;
use crate::strutil::{matches_at, occurs_at, seq_has, str_eq_str, str_has};

verus! {

// The library models paths as plain '/'-separated strings, as they come from
// a directory walk on a Unix-like system: no trailing separator, no repeated
// separators.

/// An absolute path starts with a separator.
pub open spec fn is_absolute(p: Seq<char>) -> bool {
    p.len() > 0 && p[0] == '/'
}

/// `pre` is an ancestor-or-equal directory of `p`: either the empty path
/// (ancestor of everything), or `p` itself, or a proper prefix of `p` that
/// ends at a component boundary.
pub open spec fn is_path_prefix(pre: Seq<char>, p: Seq<char>) -> bool {
    ||| pre.len() == 0
    ||| p == pre
    ||| (p.len() > pre.len() && p.subrange(0, pre.len() as int) == pre && p[pre.len() as int]
        == '/')
}

/// Joining a relative path onto a base directory.
pub open spec fn path_join(root: Seq<char>, rel: Seq<char>) -> Seq<char> {
    if root.len() == 0 {
        rel
    } else if root.last() == '/' {
        root + rel
    } else {
        root + seq!['/'] + rel
    }
}

/// The part of `p` below the directory `root`; `p` itself when `root` is
/// empty, empty when `p` is `root` itself.
pub open spec fn rel_to(p: Seq<char>, root: Seq<char>) -> Seq<char> {
    if root.len() == 0 {
        p
    } else if p.len() <= root.len() {
        Seq::empty()
    } else {
        p.skip(root.len() as int + 1)
    }
}

/// A path surrounded by separators, so that whole components can be found by
/// substring search.
pub open spec fn slashed(p: Seq<char>) -> Seq<char> {
    seq!['/'] + p + seq!['/']
}

/// Some '/'-separated component of `p` is exactly `c`.
pub open spec fn has_component(p: Seq<char>, c: Seq<char>) -> bool {
    seq_has(slashed(p), slashed(c))
}

/// The final '/'-separated component of `p` (empty when `p` ends in '/').
pub open spec fn after_last_slash(p: Seq<char>) -> Seq<char>
    decreases p.len(),
{
    if p.len() == 0 {
        p
    } else if p.last() == '/' {
        Seq::empty()
    } else {
        after_last_slash(p.drop_last()).push(p.last())
    }
}

/// The directory part of `p`: everything before the last separator, empty
/// when `p` has no separator.
pub open spec fn before_last_slash(p: Seq<char>) -> Seq<char>
    decreases p.len(),
{
    if p.len() == 0 {
        p
    } else if p.last() == '/' {
        p.drop_last()
    } else {
        before_last_slash(p.drop_last())
    }
}

/// The path's final component has the source-file suffix with a nonempty
/// stem, the way a file extension is recognised.
pub open spec fn has_rs_extension(p: Seq<char>) -> bool {
    let name = after_last_slash(p);
    name.len() >= 4 && matches_at(name, ".rs"@, name.len() - 3)
}

pub proof fn lemma_last_slash_segment(p: Seq<char>, i: int)
    requires
        0 <= i < p.len(),
        p[i] == '/',
        forall|k: int| i < k < p.len() ==> p[k] != '/',
    ensures
        after_last_slash(p) == p.skip(i + 1),
        before_last_slash(p) == p.take(i),
    decreases p.len(),
{
    if i == p.len() - 1 {
        assert(after_last_slash(p) =~= p.skip(i + 1));
        assert(before_last_slash(p) =~= p.take(i));
    } else {
        lemma_last_slash_segment(p.drop_last(), i);
        assert(after_last_slash(p) =~= p.skip(i + 1)) by {
            assert(p.drop_last().skip(i + 1).push(p.last()) =~= p.skip(i + 1));
        }
        assert(before_last_slash(p) =~= p.take(i)) by {
            assert(p.drop_last().take(i) =~= p.take(i));
        }
    }
}

pub proof fn lemma_no_slash_segment(p: Seq<char>)
    requires
        forall|k: int| 0 <= k < p.len() ==> p[k] != '/',
    ensures
        after_last_slash(p) == p,
        before_last_slash(p) == Seq::<char>::empty(),
    decreases p.len(),
{
    if p.len() > 0 {
        lemma_no_slash_segment(p.drop_last());
        assert(after_last_slash(p) =~= p) by {
            assert(p.drop_last().push(p.last()) =~= p);
        }
        assert(before_last_slash(p) =~= Seq::<char>::empty());
    } else {
        assert(before_last_slash(p) =~= Seq::<char>::empty());
    }
}

/// Position of the last separator of `p`, if any.
pub fn last_slash_pos(p: &str) -> (r: Option<usize>)
    ensures
        match r {
            Some(i) => i < p@.len() && p@[i as int] == '/' && (forall|k: int|
                i < k < p@.len() ==> p@[k] != '/'),
            None => forall|k: int| 0 <= k < p@.len() ==> p@[k] != '/',
        },
{
    let len: usize = p.unicode_len();
    let mut i: usize = len;
    while i > 0
        invariant
            len == p@.len(),
            0 <= i <= len,
            forall|k: int| i <= k < len ==> p@[k] != '/',
        decreases i,
    {
        if p.get_char(i - 1) == '/' {
            return Some(i - 1);
        }
        i = i - 1;
    }
    None
}

/// The final component of `p` as a slice of it.
pub fn str_last_segment<'a>(p: &'a str) -> (r: &'a str)
    ensures
        r@ == after_last_slash(p@),
{
    let len: usize = p.unicode_len();
    match last_slash_pos(p) {
        Some(i) => {
            proof {
                lemma_last_slash_segment(p@, i as int);
            }
            let r = p.substring_char(i + 1, len);
            assert(r@ =~= p@.skip(i + 1));
            r
        },
        None => {
            proof {
                lemma_no_slash_segment(p@);
            }
            p
        },
    }
}

/// The directory part of `p` as a slice of it.
pub fn str_parent_dir<'a>(p: &'a str) -> (r: &'a str)
    ensures
        r@ == before_last_slash(p@),
{
    match last_slash_pos(p) {
        Some(i) => {
            proof {
                lemma_last_slash_segment(p@, i as int);
            }
            let r = p.substring_char(0, i);
            assert(r@ =~= p@.take(i as int));
            r
        },
        None => {
            proof {
                lemma_no_slash_segment(p@);
            }
            let r = p.substring_char(0, 0);
            assert(r@ =~= Seq::<char>::empty());
            r
        },
    }
}

pub fn str_is_absolute(p: &str) -> (r: bool)
    ensures
        r == is_absolute(p@),
{
    let len: usize = p.unicode_len();
    len > 0 && p.get_char(0) == '/'
}

/// Decides the ancestor-or-equal relation between two paths.
pub fn str_is_path_prefix(pre: &str, p: &str) -> (r: bool)
    ensures
        r == is_path_prefix(pre@, p@),
{
    let pre_len: usize = pre.unicode_len();
    let p_len: usize = p.unicode_len();
    if pre_len == 0 {
        return true;
    }
    if str_eq_str(p, pre) {
        return true;
    }
    if p_len > pre_len && occurs_at(p, pre, 0) {
        assert(p@.subrange(0, pre@.len() as int) == pre@);
        return p.get_char(pre_len) == '/';
    }
    assert(p_len > pre_len ==> p@.subrange(0, pre@.len() as int) != pre@);
    false
}

/// Joins a relative path onto a base directory.
pub fn str_path_join(root: &str, rel: &str) -> (r: String)
    ensures
        r@ == path_join(root@, rel@),
{
    let root_len: usize = root.unicode_len();
    if root_len == 0 {
        let r = String::from_str(rel);
        r
    } else if root.get_char(root_len - 1) == '/' {
        let r = String::from_str(root).concat(rel);
        r
    } else {
        let r = String::from_str(root).concat("/").concat(rel);
        proof {
            reveal_strlit("/");
            assert(root@ + "/"@ + rel@ =~= root@ + seq!['/'] + rel@);
        }
        r
    }
}

/// The part of `p` below `root`, as a slice of `p`.
pub fn str_rel_to<'a>(p: &'a str, root: &str) -> (r: &'a str)
    ensures
        r@ == rel_to(p@, root@),
{
    let p_len: usize = p.unicode_len();
    let root_len: usize = root.unicode_len();
    if root_len == 0 {
        p
    } else if p_len <= root_len {
        let r = p.substring_char(0, 0);
        assert(r@ =~= Seq::<char>::empty());
        r
    } else {
        let r = p.substring_char(root_len + 1, p_len);
        assert(r@ =~= p@.skip(root@.len() as int + 1));
        r
    }
}

/// Tests whether some component of `p` is exactly `c`.
pub fn str_has_component(p: &str, c: &str) -> (r: bool)
    ensures
        r == has_component(p@, c@),
{
    let sp = String::from_str("/").concat(p).concat("/");
    let sc = String::from_str("/").concat(c).concat("/");
    proof {
        reveal_strlit("/");
        assert(sp@ =~= slashed(p@));
        assert(sc@ =~= slashed(c@));
    }
    str_has(sp.as_str(), sc.as_str())
}

/// Tests whether the path's final component carries the source-file suffix.
pub fn str_has_rs_extension(p: &str) -> (r: bool)
    ensures
        r == has_rs_extension(p@),
{
    let name = str_last_segment(p);
    let name_len: usize = name.unicode_len();
    proof {
        reveal_strlit(".rs");
    }
    if name_len < 4 {
        return false;
    }
    occurs_at(name, ".rs", name_len - 3)
}

} // verus!
