use vstd::prelude::*;
use crate::paths::{
    after_last_slash, before_last_slash, is_path_prefix, str_is_path_prefix, str_last_segment,
    str_parent_dir,
};
use crate::strutil::str_eq_str;

verus! {

/// The byte length of a path as the machine measures it: the length of its
/// UTF-8 encoding. This is the measure the root ordering goes by.
pub open spec fn path_byte_len(p: Seq<char>) -> usize {
    vstd::utf8::encode_utf8(p).len() as usize
}

/// `p` names a package manifest file.
pub open spec fn is_manifest_path(p: Seq<char>) -> bool {
    after_last_slash(p) == "Cargo.toml"@
}

/// The parent directory of every manifest file of a walked listing, in walk
/// order: the crate roots that the listing shows, before ordering.
pub open spec fn manifest_parents(entries: Seq<String>) -> Seq<Seq<char>>
    decreases entries.len(),
{
    if entries.len() == 0 {
        Seq::empty()
    } else {
        let rest = manifest_parents(entries.drop_last());
        if is_manifest_path(entries.last()@) {
            rest.push(before_last_slash(entries.last()@))
        } else {
            rest
        }
    }
}

/// Finds every crate root in a walked listing and orders the roots by byte
/// length, longest first, so that a nested crate stands before every crate
/// that contains it. The walk itself is the caller's: `entries` holds every
/// file path found under the workspace root.
pub fn discover_crate_roots(entries: &Vec<String>) -> (r: Vec<String>)
    ensures
        r.deep_view().to_multiset() == manifest_parents(entries@).to_multiset(),
        forall|i: int, j: int|
            0 <= i < j < r.deep_view().len() ==> path_byte_len(r.deep_view()[i]) >= path_byte_len(r.deep_view()[j]),
{
    let n: usize = entries.len();
    let mut found: Vec<String> = Vec::new();
    assert(found.deep_view() =~= manifest_parents(entries@.take(0)));
    let mut i: usize = 0;
    while i < n
        invariant
            n == entries.len(),
            0 <= i <= n,
            found.deep_view() == manifest_parents(entries@.take(i as int)),
        decreases n - i,
    {
        let e: &String = &entries[i];
        let seg = str_last_segment(e.as_str());
        let ghost prev = found.deep_view();
        if str_eq_str(seg, "Cargo.toml") {
            let parent = String::from_str(str_parent_dir(e.as_str()));
            found.push(parent);
            proof {
                assert(found.deep_view() =~= prev.push(before_last_slash(entries@[i as int]@)));
            }
        }
        proof {
            assert(entries@.take(i + 1).drop_last() =~= entries@.take(i as int));
            assert(entries@.take(i + 1).last() == entries@[i as int]);
            assert(found.deep_view() =~= manifest_parents(entries@.take(i + 1)));
        }
        i = i + 1;
    }
    proof {
        assert(entries@.take(n as int) =~= entries@);
    }
    sort_by_len_desc(found)
}

/// Selection sort by byte length, longest first: the same paths with the
/// same multiplicities, reordered. Order among equal lengths is not
/// specified.
fn sort_by_len_desc(input: Vec<String>) -> (r: Vec<String>)
    ensures
        r.deep_view().to_multiset() == input.deep_view().to_multiset(),
        forall|i: int, j: int|
            0 <= i < j < r.deep_view().len() ==> path_byte_len(r.deep_view()[i]) >= path_byte_len(r.deep_view()[j]),
{
    broadcast use vstd::seq_lib::group_to_multiset_ensures;

    let mut work = input;
    let mut out: Vec<String> = Vec::new();
    proof {
        assert(out.deep_view().to_multiset().add(work.deep_view().to_multiset())
            =~= input.deep_view().to_multiset());
    }
    while work.len() > 0
        invariant
            out.deep_view().to_multiset().add(work.deep_view().to_multiset())
                == input.deep_view().to_multiset(),
            forall|i: int, j: int|
                0 <= i < j < out.deep_view().len() ==> path_byte_len(out.deep_view()[i])
                    >= path_byte_len(out.deep_view()[j]),
            forall|i: int, j: int|
                0 <= i < out.deep_view().len() && 0 <= j < work.deep_view().len()
                    ==> path_byte_len(out.deep_view()[i]) >= path_byte_len(work.deep_view()[j]),
        decreases work.len(),
    {
        let m = index_of_longest(&work);
        let ghost prev_work = work.deep_view();
        let ghost prev_out = out.deep_view();
        let s = work.remove(m);
        out.push(s);
        proof {
            assert(work.deep_view() =~= prev_work.remove(m as int));
            assert(out.deep_view() =~= prev_out.push(prev_work[m as int]));
            broadcast use vstd::multiset::group_multiset_axioms;

            assert(0 <= m < prev_work.len());
            vstd::seq_lib::to_multiset_remove::<Seq<char>>(prev_work, m as int);
            vstd::seq_lib::to_multiset_build::<Seq<char>>(prev_out, prev_work[m as int]);
            assert(prev_work.contains(prev_work[m as int]));
            vstd::seq_lib::to_multiset_contains::<Seq<char>>(prev_work, prev_work[m as int]);
            assert(prev_work.to_multiset().count(prev_work[m as int]) > 0);
            assert(work.deep_view().to_multiset() =~= prev_work.to_multiset().remove(
                prev_work[m as int],
            ));
            assert(out.deep_view().to_multiset() =~= prev_out.to_multiset().insert(
                prev_work[m as int],
            ));
            assert(out.deep_view().to_multiset().add(work.deep_view().to_multiset())
                =~= prev_out.to_multiset().add(prev_work.to_multiset()));
            assert(forall|j: int|
                0 <= j < work.deep_view().len() ==> #[trigger] path_byte_len(work.deep_view()[j])
                    <= path_byte_len(prev_work[m as int]));
        }
    }
    proof {
        assert(out.deep_view().to_multiset().add(work.deep_view().to_multiset())
            =~= out.deep_view().to_multiset());
    }
    out
}

/// Index of a longest element of a nonempty vector of paths.
fn index_of_longest(v: &Vec<String>) -> (r: usize)
    requires
        v.len() > 0,
    ensures
        r < v.len(),
        forall|j: int|
            0 <= j < v.deep_view().len() ==> path_byte_len(v.deep_view()[j])
                <= path_byte_len(v.deep_view()[r as int]),
{
    let n: usize = v.len();
    let mut best: usize = 0;
    let mut best_len: usize = v[0].as_str().len();
    let mut i: usize = 1;
    while i < n
        invariant
            n == v.len(),
            1 <= i <= n,
            best < n,
            best_len == path_byte_len(v.deep_view()[best as int]),
            forall|j: int| 0 <= j < i ==> #[trigger] path_byte_len(v.deep_view()[j]) <= best_len,
        decreases n - i,
    {
        let l = v[i].as_str().len();
        if l > best_len {
            best = i;
            best_len = l;
        }
        i = i + 1;
    }
    best
}

/// The crate identifier a file resolves to under an ordered root list: the
/// first root that is an ancestor of the file, the empty identifier when
/// none is.
pub open spec fn spec_owning_crate(roots: Seq<Seq<char>>, file: Seq<char>) -> Seq<char>
    decreases roots.len(),
{
    if roots.len() == 0 {
        Seq::empty()
    } else if is_path_prefix(roots[0], file) {
        roots[0]
    } else {
        spec_owning_crate(roots.drop_first(), file)
    }
}

/// Looks the owning crate of a file up: the first root in the list that is
/// an ancestor of the file, so that with a longest-first list a file under
/// nested crates resolves to the most deeply nested one. `None` exactly when
/// no root is an ancestor of the file.
pub fn crate_for_file(file: &str, crate_roots: &Vec<String>) -> (r: Option<String>)
    ensures
        match r {
            Option::None => spec_owning_crate(crate_roots.deep_view(), file@)
                == Seq::<char>::empty() && forall|j: int|
                0 <= j < crate_roots.deep_view().len() ==> !is_path_prefix(
                    crate_roots.deep_view()[j],
                    file@,
                ),
            Option::Some(s) => s@ == spec_owning_crate(crate_roots.deep_view(), file@) && exists|
                i: int,
            |
                0 <= i < crate_roots.deep_view().len() && s@ == crate_roots.deep_view()[i]
                    && is_path_prefix(crate_roots.deep_view()[i], file@) && (forall|j: int|
                    0 <= j < i ==> !is_path_prefix(crate_roots.deep_view()[j], file@)),
        },
{
    let ghost dv = crate_roots.deep_view();
    let n: usize = crate_roots.len();
    let mut i: usize = 0;
    proof {
        assert(dv.skip(0) =~= dv);
    }
    while i < n
        invariant
            dv == crate_roots.deep_view(),
            n == crate_roots.len(),
            0 <= i <= n,
            forall|j: int| 0 <= j < i ==> !is_path_prefix(crate_roots.deep_view()[j], file@),
            spec_owning_crate(dv, file@) == spec_owning_crate(dv.skip(i as int), file@),
        decreases n - i,
    {
        let root: &String = &crate_roots[i];
        if str_is_path_prefix(root.as_str(), file) {
            let s = root.clone();
            proof {
                let ii = i as int;
                assert(dv.skip(ii)[0] == dv[ii]);
                assert(spec_owning_crate(dv.skip(ii), file@) == dv[ii]);
                assert(0 <= ii < crate_roots.deep_view().len() && s@
                    == crate_roots.deep_view()[ii] && is_path_prefix(
                    crate_roots.deep_view()[ii],
                    file@,
                ) && (forall|j: int|
                    0 <= j < ii ==> !is_path_prefix(crate_roots.deep_view()[j], file@)));
            }
            return Some(s);
        }
        proof {
            assert(dv.skip(i as int)[0] == dv[i as int]);
            assert(dv.skip(i as int).drop_first() =~= dv.skip(i + 1));
        }
        i = i + 1;
    }
    proof {
        assert(dv.skip(n as int) =~= Seq::<Seq<char>>::empty());
    }
    None
}

/// With the roots ordered longest first, the first root that is an ancestor
/// of a file is a deepest one: no other ancestor root in the list is longer.
/// A file under both an outer crate and a crate nested inside it therefore
/// resolves to the nested crate.
pub proof fn lemma_first_match_is_deepest(roots: Seq<Seq<char>>, file: Seq<char>, i: int)
    requires
        forall|a: int, b: int|
            0 <= a < b < roots.len() ==> path_byte_len(roots[a]) >= path_byte_len(roots[b]),
        0 <= i < roots.len(),
        is_path_prefix(roots[i], file),
        forall|j: int| 0 <= j < i ==> !is_path_prefix(roots[j], file),
    ensures
        forall|j: int|
            0 <= j < roots.len() && is_path_prefix(roots[j], file) ==> path_byte_len(roots[j])
                <= path_byte_len(roots[i]),
{
}

} // verus!
