use vstd::prelude::*;
use vstd::multiset::Multiset;
use vstd::relations::{sorted_by, total_ordering};
use crate::engine::{node_positions, node_text, query_matches, rust_grammar_check, rust_parse_ok,
    rust_query_capture_names, rust_query_new, rust_query_ok};
use crate::error::ArbolError;
use crate::fs::parse_src_lang;
use crate::strutil::{lemma_lex_lt_transitive, lemma_lex_lt_trichotomy, lex_lt, spec_line_at,
    spec_trim, str_eq_str, str_lex_lt, str_line_at, str_trim};
use crate::types::{Capture, CrateCaptures, SourceText};
use crate::workspace::{crate_for_file, spec_owning_crate};

verus! {

// ---------------------------------------------------------------------------
// The mathematical view of a capture and the total order over captures
// ---------------------------------------------------------------------------

/// What a capture is mathematically: its field tuple, with every string as
/// a character sequence.
#[verifier::ext_equal]
pub ghost struct CaptureV {
    pub crate_path: Seq<char>,
    pub file: Seq<char>,
    pub line: int,
    pub column: int,
    pub name: Seq<char>,
    pub text: Seq<char>,
    pub line_text: Seq<char>,
}

impl View for Capture {
    type V = CaptureV;

    open spec fn view(&self) -> CaptureV {
        CaptureV {
            crate_path: self.crate_path@,
            file: self.file@,
            line: self.line as int,
            column: self.column as int,
            name: self.name@,
            text: self.text@,
            line_text: self.line_text@,
        }
    }
}

/// The views of a sequence of captures.
pub open spec fn views_of(s: Seq<Capture>) -> Seq<CaptureV> {
    s.map_values(|c: Capture| c@)
}

/// The strict total order that aggregation imposes on captures: compare by
/// crate path, file, line, column, capture name and matched text, in that
/// order; a tie on all six keys is broken by the context line, so that the
/// order depends on nothing but the capture values themselves.
pub open spec fn capv_lt(a: CaptureV, b: CaptureV) -> bool {
    if a.crate_path != b.crate_path {
        lex_lt(a.crate_path, b.crate_path)
    } else if a.file != b.file {
        lex_lt(a.file, b.file)
    } else if a.line != b.line {
        a.line < b.line
    } else if a.column != b.column {
        a.column < b.column
    } else if a.name != b.name {
        lex_lt(a.name, b.name)
    } else if a.text != b.text {
        lex_lt(a.text, b.text)
    } else {
        lex_lt(a.line_text, b.line_text)
    }
}

/// The reflexive closure of the capture order.
pub open spec fn capv_le(a: CaptureV, b: CaptureV) -> bool {
    capv_lt(a, b) || a == b
}

/// The capture order as a relation value, the shape the sorting
/// specifications take.
pub open spec fn capv_le_rel() -> spec_fn(CaptureV, CaptureV) -> bool {
    |a: CaptureV, b: CaptureV| capv_le(a, b)
}

proof fn lemma_capv_lt_facts(a: CaptureV, b: CaptureV)
    ensures
        !(capv_lt(a, b) && capv_lt(b, a)),
        capv_lt(a, b) || capv_lt(b, a) || a == b,
{
    lemma_lex_lt_trichotomy(a.crate_path, b.crate_path);
    lemma_lex_lt_trichotomy(a.file, b.file);
    lemma_lex_lt_trichotomy(a.name, b.name);
    lemma_lex_lt_trichotomy(a.text, b.text);
    lemma_lex_lt_trichotomy(a.line_text, b.line_text);
    crate::strutil::lemma_lex_lt_asymmetric(a.crate_path, b.crate_path);
    crate::strutil::lemma_lex_lt_asymmetric(a.file, b.file);
    crate::strutil::lemma_lex_lt_asymmetric(a.name, b.name);
    crate::strutil::lemma_lex_lt_asymmetric(a.text, b.text);
    crate::strutil::lemma_lex_lt_asymmetric(a.line_text, b.line_text);
    if !capv_lt(a, b) && !capv_lt(b, a) {
        assert(a =~= b);
    }
}

proof fn lemma_capv_lt_transitive(a: CaptureV, b: CaptureV, c: CaptureV)
    requires
        capv_lt(a, b),
        capv_lt(b, c),
    ensures
        capv_lt(a, c),
{
    lemma_capv_lt_facts(a, b);
    lemma_capv_lt_facts(b, c);
    lemma_capv_lt_facts(a, c);
    if a.crate_path == c.crate_path {
        if a.crate_path != b.crate_path {
            lemma_lex_lt_transitive(a.crate_path, b.crate_path, c.crate_path);
            crate::strutil::lemma_lex_lt_irreflexive(a.crate_path);
        }
    } else {
        if a.crate_path != b.crate_path && b.crate_path != c.crate_path {
            lemma_lex_lt_transitive(a.crate_path, b.crate_path, c.crate_path);
        }
    }
    if a.crate_path == c.crate_path && a.file == c.file {
        if a.crate_path == b.crate_path && b.crate_path == c.crate_path && a.file != b.file {
            lemma_lex_lt_transitive(a.file, b.file, c.file);
            crate::strutil::lemma_lex_lt_irreflexive(a.file);
        }
    } else if a.crate_path == c.crate_path {
        if a.crate_path == b.crate_path && a.file != b.file && b.file != c.file {
            lemma_lex_lt_transitive(a.file, b.file, c.file);
        }
    }
    if a.crate_path == c.crate_path && a.file == c.file && a.line == c.line && a.column == c.column
    {
        if a.crate_path == b.crate_path && a.file == b.file && a.line == b.line && a.column
            == b.column {
            if a.name != b.name && b.name != c.name {
                lemma_lex_lt_transitive(a.name, b.name, c.name);
            }
            if a.name == c.name {
                if a.name != b.name {
                    lemma_lex_lt_transitive(a.name, b.name, c.name);
                    crate::strutil::lemma_lex_lt_irreflexive(a.name);
                }
                if a.name == b.name && b.name == c.name {
                    if a.text != b.text && b.text != c.text {
                        lemma_lex_lt_transitive(a.text, b.text, c.text);
                    }
                    if a.text == c.text {
                        if a.text != b.text {
                            lemma_lex_lt_transitive(a.text, b.text, c.text);
                            crate::strutil::lemma_lex_lt_irreflexive(a.text);
                        }
                        if a.text == b.text && b.text == c.text {
                            lemma_lex_lt_transitive(a.line_text, b.line_text, c.line_text);
                        }
                    }
                }
            }
        }
    }
}

proof fn lemma_capv_le_transitive(a: CaptureV, b: CaptureV, c: CaptureV)
    requires
        capv_le(a, b),
        capv_le(b, c),
    ensures
        capv_le(a, c),
{
    if capv_lt(a, b) && capv_lt(b, c) {
        lemma_capv_lt_transitive(a, b, c);
    }
}

/// The capture order is a total order, the hypothesis the sorting lemmas
/// ask for.
pub proof fn lemma_capv_le_total_ordering()
    ensures
        total_ordering(capv_le_rel()),
{
    let r = capv_le_rel();
    assert forall|a: CaptureV, b: CaptureV| #[trigger] r(a, b) && #[trigger] r(b, a) implies a
        == b by {
        lemma_capv_lt_facts(a, b);
    }
    assert forall|a: CaptureV, b: CaptureV, c: CaptureV|
        #[trigger] r(a, b) && #[trigger] r(b, c) implies r(a, c) by {
        if capv_lt(a, b) && capv_lt(b, c) {
            lemma_capv_lt_transitive(a, b, c);
        }
    }
    assert forall|a: CaptureV, b: CaptureV| #[trigger] r(a, b) || #[trigger] r(b, a) by {
        lemma_capv_lt_facts(a, b);
    }
}

/// Decides the capture order between two captures.
fn cap_le(a: &Capture, b: &Capture) -> (r: bool)
    ensures
        r == capv_le(a@, b@),
{
    if !str_eq_str(a.crate_path.as_str(), b.crate_path.as_str()) {
        return str_lex_lt(a.crate_path.as_str(), b.crate_path.as_str());
    }
    if !str_eq_str(a.file.as_str(), b.file.as_str()) {
        return str_lex_lt(a.file.as_str(), b.file.as_str());
    }
    if a.line != b.line {
        return a.line < b.line;
    }
    if a.column != b.column {
        return a.column < b.column;
    }
    if !str_eq_str(a.name.as_str(), b.name.as_str()) {
        return str_lex_lt(a.name.as_str(), b.name.as_str());
    }
    if !str_eq_str(a.text.as_str(), b.text.as_str()) {
        return str_lex_lt(a.text.as_str(), b.text.as_str());
    }
    if str_eq_str(a.line_text.as_str(), b.line_text.as_str()) {
        assert(a@ =~= b@);
        return true;
    }
    str_lex_lt(a.line_text.as_str(), b.line_text.as_str())
}

// ---------------------------------------------------------------------------
// Sorting captures
// ---------------------------------------------------------------------------

/// Sorts captures into the aggregation order. The result is, viewed
/// mathematically, exactly the sorted image of the input: the one sorted
/// sequence with the input's multiset of captures.
pub fn sort_captures(input: Vec<Capture>) -> (r: Vec<Capture>)
    ensures
        views_of(r@) == views_of(input@).sort_by(capv_le_rel()),
{
    broadcast use vstd::seq_lib::group_to_multiset_ensures;

    let ghost goal = views_of(input@);
    let mut rest = input;
    let mut out: Vec<Capture> = Vec::new();
    proof {
        assert(views_of(out@).to_multiset().add(views_of(rest@).to_multiset()) =~= goal
            .to_multiset());
    }
    while rest.len() > 0
        invariant
            views_of(out@).to_multiset().add(views_of(rest@).to_multiset()) == goal.to_multiset(),
            sorted_by(views_of(out@), capv_le_rel()),
        decreases rest.len(),
    {
        let ghost prev_rest = views_of(rest@);
        let ghost prev_out = views_of(out@);
        let c = rest.pop().unwrap();
        proof {
            assert(views_of(rest@) =~= prev_rest.drop_last());
            vstd::seq_lib::to_multiset_remove::<CaptureV>(prev_rest, prev_rest.len() - 1);
            assert(prev_rest.remove(prev_rest.len() - 1) =~= prev_rest.drop_last());
        }
        let pos = insert_position(&out, &c);
        let ghost mid_out = views_of(out@);
        out.insert(pos, c);
        proof {
            assert(views_of(out@) =~= mid_out.insert(pos as int, c@));
            vstd::seq_lib::to_multiset_insert::<CaptureV>(mid_out, pos as int, c@);
            assert(views_of(out@).to_multiset().add(views_of(rest@).to_multiset()) =~= goal
                .to_multiset()) by {
                broadcast use vstd::multiset::group_multiset_axioms;

                vstd::seq_lib::to_multiset_contains::<CaptureV>(prev_rest, prev_rest.last());
                assert(prev_rest.contains(prev_rest.last()));
            }
            assert(sorted_by(views_of(out@), capv_le_rel())) by {
                let s = views_of(out@);
                assert forall|x: int, y: int| 0 <= x < y < s.len() implies #[trigger] capv_le_rel()(
                    s[x],
                    s[y],
                ) by {
                    assert(forall|k: int| 0 <= k < pos ==> s[k] == mid_out[k]);
                    assert(s[pos as int] == c@);
                    assert(forall|k: int| pos < k < s.len() ==> s[k] == mid_out[k - 1]);
                    if y < pos {
                        assert(capv_le_rel()(mid_out[x], mid_out[y]));
                    } else if y == pos {
                        assert(capv_le(mid_out[x], c@));
                    } else if x == pos {
                        assert(capv_le(c@, mid_out[y - 1]));
                    } else if x < pos {
                        lemma_capv_le_transitive(mid_out[x], c@, mid_out[y - 1]);
                    } else {
                        assert(capv_le_rel()(mid_out[x - 1], mid_out[y - 1]));
                    }
                    assert(capv_le(s[x], s[y]));
                }
            }
        }
    }
    proof {
        assert(views_of(rest@).to_multiset() =~= Multiset::<CaptureV>::empty()) by {
            assert(views_of(rest@) =~= Seq::<CaptureV>::empty());
        }
        assert(views_of(out@).to_multiset() =~= goal.to_multiset()) by {
            broadcast use vstd::multiset::group_multiset_axioms;

        }
        lemma_capv_le_total_ordering();
        goal.lemma_sort_by_ensures(capv_le_rel());
        vstd::seq_lib::lemma_sorted_unique(
            views_of(out@),
            goal.sort_by(capv_le_rel()),
            capv_le_rel(),
        );
    }
    out
}

// ---------------------------------------------------------------------------
// Grouping by crate
// ---------------------------------------------------------------------------

/// What a crate's capture group is mathematically.
#[verifier::ext_equal]
pub ghost struct CrateCapturesV {
    pub crate_path: Seq<char>,
    pub captures: Seq<CaptureV>,
}

impl View for CrateCaptures {
    type V = CrateCapturesV;

    open spec fn view(&self) -> CrateCapturesV {
        CrateCapturesV { crate_path: self.crate_path@, captures: views_of(self.captures@) }
    }
}

/// The views of a sequence of capture groups.
pub open spec fn gviews_of(s: Seq<CrateCaptures>) -> Seq<CrateCapturesV> {
    s.map_values(|g: CrateCaptures| g@)
}

/// Grouping a capture sequence by crate path: each capture joins the last
/// group when it shares that group's crate path, and opens a new group
/// otherwise.
pub open spec fn group_spec(s: Seq<CaptureV>) -> Seq<CrateCapturesV>
    decreases s.len(),
{
    if s.len() == 0 {
        Seq::empty()
    } else {
        let g = group_spec(s.drop_last());
        let c = s.last();
        if g.len() > 0 && g.last().crate_path == c.crate_path {
            g.update(
                g.len() - 1,
                CrateCapturesV {
                    crate_path: g.last().crate_path,
                    captures: g.last().captures.push(c),
                },
            )
        } else {
            g.push(CrateCapturesV { crate_path: c.crate_path, captures: seq![c] })
        }
    }
}

/// Groups a capture list that is already in aggregation order.
fn group_captures(sorted: Vec<Capture>) -> (r: Vec<CrateCaptures>)
    ensures
        gviews_of(r@) == group_spec(views_of(sorted@)),
{
    let ghost all = views_of(sorted@);
    let mut rest = sorted;
    let mut out: Vec<CrateCaptures> = Vec::new();
    let ghost i: int = 0;
    proof {
        assert(views_of(rest@) =~= all.skip(0));
        assert(all.take(0) =~= Seq::<CaptureV>::empty());
        assert(gviews_of(out@) =~= group_spec(all.take(0)));
    }
    while rest.len() > 0
        invariant
            0 <= i <= all.len(),
            all.len() - i == rest.len(),
            views_of(rest@) == all.skip(i),
            gviews_of(out@) == group_spec(all.take(i)),
        decreases rest.len(),
    {
        let ghost prev_rest = views_of(rest@);
        let ghost rest_vals = rest@;
        let ghost prev_out = gviews_of(out@);
        let c = rest.remove(0);
        proof {
            assert(views_of(rest_vals)[0] == rest_vals[0]@);
            assert(c@ == all[i]);
            assert(views_of(rest@) =~= all.skip(i + 1)) by {
                assert(rest@ =~= rest_vals.remove(0));
                assert(views_of(rest@).len() == rest@.len());
                assert(all.skip(i + 1).len() == all.len() - i - 1);
                assert forall|k: int| 0 <= k < rest@.len() implies views_of(rest@)[k] == all.skip(
                    i + 1,
                )[k] by {
                    assert(views_of(rest@)[k] == rest@[k]@);
                    assert(rest@[k] == rest_vals[k + 1]);
                    assert(views_of(rest_vals)[k + 1] == rest_vals[k + 1]@);
                    assert(prev_rest[k + 1] == all.skip(i)[k + 1]);
                    assert(all.skip(i)[k + 1] == all[i + 1 + k]);
                    assert(all.skip(i + 1)[k] == all[i + 1 + k]);
                }
            }
            assert(all.take(i + 1).drop_last() =~= all.take(i));
            assert(all.take(i + 1).last() == all[i]);
        }
        let extend = out.len() > 0 && str_eq_str(
            out[out.len() - 1].crate_path.as_str(),
            c.crate_path.as_str(),
        );
        if extend {
            let mut g = out.pop().unwrap();
            let ghost gv = g@;
            g.captures.push(c);
            proof {
                assert(views_of(g.captures@) =~= gv.captures.push(all[i]));
                assert(g@ =~= CrateCapturesV {
                    crate_path: prev_out.last().crate_path,
                    captures: prev_out.last().captures.push(all[i]),
                });
            }
            out.push(g);
            proof {
                assert(gviews_of(out@) =~= prev_out.update(
                    prev_out.len() - 1,
                    CrateCapturesV {
                        crate_path: prev_out.last().crate_path,
                        captures: prev_out.last().captures.push(all[i]),
                    },
                ));
                assert(gviews_of(out@) =~= group_spec(all.take(i + 1)));
            }
        } else {
            let key = c.crate_path.clone();
            let mut caps: Vec<Capture> = Vec::new();
            caps.push(c);
            proof {
                assert(views_of(caps@) =~= seq![all[i]]);
            }
            out.push(CrateCaptures { crate_path: key, captures: caps });
            proof {
                assert(gviews_of(out@) =~= prev_out.push(
                    CrateCapturesV { crate_path: all[i].crate_path, captures: seq![all[i]] },
                ));
                assert(gviews_of(out@) =~= group_spec(all.take(i + 1)));
            }
        }
        proof {
            i = i + 1;
        }
    }
    proof {
        assert(all.take(i) =~= all);
    }
    out
}

/// Imposes the aggregation order on an unordered capture list and groups it
/// by crate: the result is, mathematically, exactly the grouping of the
/// sorted image of the input.
pub fn aggregate_captures(captures: Vec<Capture>) -> (r: Vec<CrateCaptures>)
    ensures
        gviews_of(r@) == group_spec(views_of(captures@).sort_by(capv_le_rel())),
{
    let sorted = sort_captures(captures);
    group_captures(sorted)
}

/// Aggregation depends on nothing but which captures there are: any two
/// capture sequences with the same multiset of captures — any two orders in
/// which parallel workers may have emitted the same captures — aggregate to
/// the same grouped result.
pub proof fn lemma_aggregate_deterministic(a: Seq<CaptureV>, b: Seq<CaptureV>)
    requires
        a.to_multiset() == b.to_multiset(),
    ensures
        group_spec(a.sort_by(capv_le_rel())) == group_spec(b.sort_by(capv_le_rel())),
{
    lemma_capv_le_total_ordering();
    a.lemma_sort_by_ensures(capv_le_rel());
    b.lemma_sort_by_ensures(capv_le_rel());
    vstd::seq_lib::lemma_sorted_unique(
        a.sort_by(capv_le_rel()),
        b.sort_by(capv_le_rel()),
        capv_le_rel(),
    );
}

/// A well-formed grouped result: every group is nonempty, every capture
/// carries its group's crate path, and the groups stand in strictly
/// ascending crate-path order.
pub open spec fn groups_wf(gs: Seq<CrateCapturesV>) -> bool {
    &&& forall|i: int| 0 <= i < gs.len() ==> (#[trigger] gs[i]).captures.len() > 0
    &&& forall|i: int, k: int|
        0 <= i < gs.len() && 0 <= k < gs[i].captures.len() ==> (#[trigger] gs[i].captures[k]).crate_path
            == gs[i].crate_path
    &&& forall|i: int, j: int| 0 <= i < j < gs.len() ==> lex_lt(gs[i].crate_path, gs[j].crate_path)
}

/// Flattening a grouped result back into one capture sequence.
pub open spec fn groups_flat(gs: Seq<CrateCapturesV>) -> Seq<CaptureV>
    decreases gs.len(),
{
    if gs.len() == 0 {
        Seq::empty()
    } else {
        groups_flat(gs.drop_last()) + gs.last().captures
    }
}

/// Grouping a capture sequence that stands in aggregation order yields a
/// well-formed grouped result, whose last group carries the last capture's
/// crate path; and flattening the groups restores the sequence exactly: no
/// capture is lost, duplicated, or reordered.
pub proof fn lemma_group_spec_wf(s: Seq<CaptureV>)
    requires
        sorted_by(s, capv_le_rel()),
    ensures
        groups_wf(group_spec(s)),
        s.len() > 0 ==> group_spec(s).len() > 0 && group_spec(s).last().crate_path
            == s.last().crate_path,
        groups_flat(group_spec(s)) == s,
    decreases s.len(),
{
    if s.len() == 0 {
        assert(groups_flat(group_spec(s)) =~= s);
    } else {
        let d = s.drop_last();
        let c = s.last();
        assert(sorted_by(d, capv_le_rel())) by {
            assert(forall|x: int, y: int|
                0 <= x < y < d.len() ==> #[trigger] capv_le_rel()(d[x], d[y]) == capv_le_rel()(
                    s[x],
                    s[y],
                ));
        }
        lemma_group_spec_wf(d);
        let g = group_spec(d);
        let gs = group_spec(s);
        if g.len() > 0 && g.last().crate_path == c.crate_path {
            let merged = CrateCapturesV {
                crate_path: g.last().crate_path,
                captures: g.last().captures.push(c),
            };
            assert(gs == g.update(g.len() - 1, merged));
            assert(groups_wf(gs)) by {
                assert(forall|i: int| 0 <= i < gs.len() && i != g.len() - 1 ==> gs[i] == g[i]);
            }
            assert(groups_flat(gs) =~= s) by {
                assert(gs.drop_last() =~= g.drop_last());
                assert(groups_flat(gs) == groups_flat(gs.drop_last()) + gs.last().captures);
                assert(groups_flat(g) == groups_flat(g.drop_last()) + g.last().captures);
                assert(groups_flat(gs) =~= groups_flat(g).push(c));
            }
        } else {
            assert(gs == g.push(CrateCapturesV { crate_path: c.crate_path, captures: seq![c] }));
            assert(groups_wf(gs)) by {
                assert(forall|i: int| 0 <= i < g.len() ==> gs[i] == g[i]);
                if g.len() > 0 {
                    assert(capv_le_rel()(s[s.len() - 2], s[s.len() - 1]));
                    assert(d.last() == s[s.len() - 2]);
                    assert(lex_lt(g.last().crate_path, c.crate_path));
                    assert forall|i: int| 0 <= i < g.len() - 1 implies lex_lt(
                        g[i].crate_path,
                        c.crate_path,
                    ) by {
                        lemma_lex_lt_transitive(g[i].crate_path, g.last().crate_path, c.crate_path);
                    }
                }
            }
            assert(groups_flat(gs) =~= s) by {
                assert(gs.drop_last() =~= g);
                assert(groups_flat(gs) == groups_flat(g) + seq![c]);
            }
        }
    }
}

/// The position in the sorted list at which the capture belongs: everything
/// before it is at most the capture, everything from it on is at least the
/// capture.
fn insert_position(out: &Vec<Capture>, c: &Capture) -> (r: usize)
    requires
        sorted_by(views_of(out@), capv_le_rel()),
    ensures
        r <= out@.len(),
        forall|k: int| 0 <= k < r ==> capv_le(views_of(out@)[k], c@),
        forall|k: int| r <= k < out@.len() ==> capv_le(c@, views_of(out@)[k]),
{
    let n: usize = out.len();
    let mut i: usize = 0;
    while i < n
        invariant
            n == out.len(),
            0 <= i <= n,
            sorted_by(views_of(out@), capv_le_rel()),
            forall|k: int| 0 <= k < i ==> capv_le(views_of(out@)[k], c@),
        decreases n - i,
    {
        if cap_le(c, &out[i]) {
            proof {
                assert forall|k: int| i <= k < out@.len() implies capv_le(c@, views_of(out@)[k])
                    by {
                    if k > i {
                        assert(capv_le_rel()(views_of(out@)[i as int], views_of(out@)[k]));
                        lemma_capv_le_transitive(c@, views_of(out@)[i as int], views_of(out@)[k]);
                    }
                }
            }
            return i;
        }
        proof {
            lemma_capv_lt_facts(views_of(out@)[i as int], c@);
        }
        i = i + 1;
    }
    n
}

/// The 1-based coordinate for a 0-based one, saturating at the machine's
/// top value so that no input can make it overflow.
pub open spec fn spec_one_based(n: int) -> int {
    if n >= usize::MAX {
        usize::MAX as int
    } else {
        n + 1
    }
}

fn one_based(n: usize) -> (r: usize)
    ensures
        r as int == spec_one_based(n as int),
{
    if n == usize::MAX {
        n
    } else {
        n + 1
    }
}

/// What holds of every capture a query run produces: it names a handed
/// file whose text the engine parses; its crate identifier is the one its
/// file resolves to under the handed roots (the empty identifier when the
/// file is under none); its capture name is one of the pattern's; its line
/// and column are 1-based; and its context line is empty when context was
/// not asked for, and the trimmed source line of its 0-based row when it
/// was.
pub open spec fn capture_ok(
    c: CaptureV,
    files: Seq<SourceText>,
    roots: Seq<Seq<char>>,
    qnames: Seq<Seq<char>>,
    context: bool,
) -> bool {
    &&& exists|j: int|
        0 <= j < files.len() && c.file == files[j].path@ && rust_parse_ok(files[j].text@)
    &&& c.crate_path == spec_owning_crate(roots, c.file)
    &&& exists|k: int| 0 <= k < qnames.len() && c.name == qnames[k]
    &&& 1 <= c.line && 1 <= c.column
    &&& (!context ==> c.line_text.len() == 0)
    &&& (context ==> exists|j: int, row: int|
        0 <= j < files.len() && c.file == files[j].path@ && 0 <= row && c.line == spec_one_based(
            row,
        ) && c.line_text == spec_trim(spec_line_at(files[j].text@, row)))
}

/// Assembles one capture from the engine's raw match data: the owning
/// crate and file, the node's 0-based start position made 1-based, the
/// capture name and matched text, and, when context was asked for, the
/// trimmed source line at the node's row.
pub fn build_capture(
    crate_path: &String,
    file_path: &String,
    src: &str,
    name: &String,
    text: String,
    row: usize,
    col: usize,
    context: bool,
) -> (c: Capture)
    ensures
        c.crate_path@ == crate_path@,
        c.file@ == file_path@,
        c.line as int == spec_one_based(row as int),
        c.column as int == spec_one_based(col as int),
        c.name@ == name@,
        c.text@ == text@,
        c.line_text@ == (if context {
            spec_trim(spec_line_at(src@, row as int))
        } else {
            Seq::<char>::empty()
        }),
{
    let line_text: String = if context {
        String::from_str(str_trim(str_line_at(src, row)))
    } else {
        String::new()
    };
    Capture {
        crate_path: crate_path.clone(),
        file: file_path.clone(),
        line: one_based(row),
        column: one_based(col),
        name: name.clone(),
        text,
        line_text,
    }
}

/// Every capture inside a grouped result occurs in its flattening.
proof fn lemma_flat_contains(gs: Seq<CrateCapturesV>, gi: int, k: int)
    requires
        0 <= gi < gs.len(),
        0 <= k < gs[gi].captures.len(),
    ensures
        groups_flat(gs).contains(gs[gi].captures[k]),
    decreases gs.len(),
{
    if gi == gs.len() - 1 {
        assert(groups_flat(gs)[groups_flat(gs.drop_last()).len() + k] == gs[gi].captures[k]);
    } else {
        lemma_flat_contains(gs.drop_last(), gi, k);
        let flat = groups_flat(gs.drop_last());
        let l = choose|l: int| 0 <= l < flat.len() && flat[l] == gs.drop_last()[gi].captures[k];
        assert(gs.drop_last()[gi] == gs[gi]);
        assert(groups_flat(gs)[l] == gs[gi].captures[k]);
    }
}

/// Runs the pattern over every handed source file with the bundled
/// grammar and aggregates the captures by owning crate.
///
/// The compile failure is exact: `Err(QueryCompile)` comes back if and
/// only if the engine rejects the pattern text. The grammar is then probed
/// once up front, before any per-file work, and its activation failure is
/// the one other error. Per file: parse, match, and enrich each (capture
/// index, node) pair; a file that fails to parse is skipped and never
/// fails the run. On success the groups are well formed — nonempty,
/// uniform in crate path, strictly ascending — and every capture in them
/// satisfies `capture_ok`: it comes from a handed file that parses, under
/// that file's owning crate, named by the pattern, 1-based, with the
/// trimmed context line exactly when asked for.
#[verifier::loop_isolation(false)]
pub fn execute_query(
    files: &Vec<SourceText>,
    crate_roots: &Vec<String>,
    query_src: &str,
    context: bool,
) -> (r: Result<Vec<CrateCaptures>, ArbolError>)
    ensures
        (r == Result::<Vec<CrateCaptures>, ArbolError>::Err(ArbolError::QueryCompile))
            <==> !rust_query_ok(query_src@),
        match r {
            Result::Ok(groups) => groups_wf(gviews_of(groups@)) && (forall|gi: int, k: int|
                0 <= gi < gviews_of(groups@).len() && 0 <= k
                    < gviews_of(groups@)[gi].captures.len() ==> capture_ok(
                    #[trigger] gviews_of(groups@)[gi].captures[k],
                    files@,
                    crate_roots.deep_view(),
                    rust_query_capture_names(query_src@),
                    context,
                )),
            Result::Err(e) => e is QueryCompile || e is SetLanguage,
        },
{
    let (query, capture_names) = match rust_query_new(query_src) {
        Ok(qn) => qn,
        Err(_) => {
            return Err(ArbolError::QueryCompile);
        },
    };
    match rust_grammar_check() {
        Ok(()) => {},
        Err(msg) => {
            return Err(ArbolError::SetLanguage(msg));
        },
    }
    let ghost qnames = rust_query_capture_names(query_src@);
    let ghost rootsv = crate_roots.deep_view();
    let mut captures: Vec<Capture> = Vec::new();
    let nfiles: usize = files.len();
    let mut fi: usize = 0;
    while fi < nfiles
        invariant
            0 <= fi <= nfiles,
            forall|x: int|
                0 <= x < views_of(captures@).len() ==> capture_ok(
                    #[trigger] views_of(captures@)[x],
                    files@,
                    rootsv,
                    qnames,
                    context,
                ),
        decreases nfiles - fi,
    {
        let file: &SourceText = &files[fi];
        match parse_src_lang(file.text.as_str()) {
            Ok(tree) => {
                assert(rust_parse_ok(files@[fi as int].text@));
                let pairs = query_matches(&query, &tree, file.text.as_str());
                let crate_path: String = match crate_for_file(file.path.as_str(), crate_roots) {
                    Some(s) => s,
                    None => String::new(),
                };
                assert(crate_path@ == spec_owning_crate(rootsv, files@[fi as int].path@));
                let npairs: usize = pairs.len();
                let mut pi: usize = 0;
                while pi < npairs
                    invariant
                        0 <= pi <= npairs,
                        forall|x: int|
                            0 <= x < views_of(captures@).len() ==> capture_ok(
                                #[trigger] views_of(captures@)[x],
                                files@,
                                rootsv,
                                qnames,
                                context,
                            ),
                    decreases npairs - pi,
                {
                    let idx: usize = pairs[pi].0 as usize;
                    if idx < capture_names.len() {
                        let ((row, col), _end) = node_positions(&pairs[pi].1);
                        let text = node_text(&pairs[pi].1, file.text.as_str());
                        let cap = build_capture(
                            &crate_path,
                            &file.path,
                            file.text.as_str(),
                            &capture_names[idx],
                            text,
                            row,
                            col,
                            context,
                        );
                        let ghost prev = views_of(captures@);
                        proof {
                            assert(capture_names.deep_view()[idx as int] == capture_names@[
                                idx as int]@);
                            assert(capture_ok(cap@, files@, rootsv, qnames, context));
                        }
                        captures.push(cap);
                        proof {
                            assert(views_of(captures@) =~= prev.push(cap@));
                        }
                    }
                    pi = pi + 1;
                }
            },
            Err(_) => {},
        }
        fi = fi + 1;
    }
    let ghost capv = views_of(captures@);
    let groups = aggregate_captures(captures);
    proof {
        lemma_capv_le_total_ordering();
        capv.lemma_sort_by_ensures(capv_le_rel());
        let sorted = capv.sort_by(capv_le_rel());
        lemma_group_spec_wf(sorted);
        let gv = gviews_of(groups@);
        assert forall|gi: int, k: int|
            0 <= gi < gv.len() && 0 <= k < gv[gi].captures.len() implies capture_ok(
            #[trigger] gv[gi].captures[k],
            files@,
            rootsv,
            qnames,
            context,
        ) by {
            lemma_flat_contains(gv, gi, k);
            let x = gv[gi].captures[k];
            assert(sorted.contains(x));
            vstd::seq_lib::to_multiset_contains::<CaptureV>(sorted, x);
            vstd::seq_lib::to_multiset_contains::<CaptureV>(capv, x);
            assert(capv.contains(x));
            let ci = choose|ci: int| 0 <= ci < capv.len() && capv[ci] == x;
            assert(capture_ok(capv[ci], files@, rootsv, qnames, context));
        }
    }
    Ok(groups)
}

} // verus!
