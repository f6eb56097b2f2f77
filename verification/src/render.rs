use vstd::prelude::*;
use crate::query::{gviews_of, CaptureV, CrateCapturesV};
use crate::types::CrateCaptures;

verus! {

/// The decimal digit character for a value below ten.
pub open spec fn digit_of(d: int) -> char {
    "0123456789"@[d]
}

/// The decimal rendering of a nonnegative number.
pub open spec fn dec_digits(n: int) -> Seq<char>
    recommends
        n >= 0,
    decreases n,
{
    if n < 10 {
        seq![digit_of(n)]
    } else {
        dec_digits(n / 10).push(digit_of(n % 10))
    }
}

/// Renders a number in decimal.
pub fn usize_to_string(n: usize) -> (r: String)
    ensures
        r@ == dec_digits(n as int),
    decreases n,
{
    proof {
        reveal_strlit("0123456789");
    }
    if n < 10 {
        let d = "0123456789".substring_char(n, n + 1);
        let r = String::from_str(d);
        assert(r@ =~= seq![digit_of(n as int)]);
        r
    } else {
        let high = usize_to_string(n / 10);
        let d = "0123456789".substring_char(n % 10, n % 10 + 1);
        let r = high.concat(d);
        assert(r@ =~= dec_digits(n as int / 10).push(digit_of(n as int % 10)));
        r
    }
}

/// Addition capped at the machine's top value.
pub open spec fn sat_add(a: int, b: int) -> int {
    if a + b > usize::MAX {
        usize::MAX as int
    } else {
        a + b
    }
}

/// How many captures a grouped result holds, capped at the machine's top
/// value.
pub open spec fn total_captures(gs: Seq<CrateCapturesV>) -> int
    decreases gs.len(),
{
    if gs.len() == 0 {
        0
    } else {
        sat_add(total_captures(gs.drop_last()), gs.last().captures.len() as int)
    }
}

/// One rendered capture line: `file:line:column name text`, a trailing
/// ` // line-text` when context was requested, and the line break.
pub open spec fn render_capture(c: CaptureV, context: bool) -> Seq<char> {
    c.file + ":"@ + dec_digits(c.line) + ":"@ + dec_digits(c.column) + " "@ + c.name + " "@
        + c.text + (if context {
        " // "@ + c.line_text
    } else {
        Seq::empty()
    }) + "\n"@
}

/// The rendered capture lines of one group, in order.
pub open spec fn render_captures(cs: Seq<CaptureV>, context: bool) -> Seq<char>
    decreases cs.len(),
{
    if cs.len() == 0 {
        Seq::empty()
    } else {
        render_captures(cs.drop_last(), context) + render_capture(cs.last(), context)
    }
}

/// One rendered group: its header line, naming the crate or `(root)` for
/// the empty identifier, then its capture lines.
pub open spec fn render_group(g: CrateCapturesV, context: bool) -> Seq<char> {
    "== Crate: "@ + (if g.crate_path.len() == 0 {
        "(root)"@
    } else {
        g.crate_path
    }) + " ==\n"@ + render_captures(g.captures, context)
}

/// The rendered groups, in order.
pub open spec fn render_groups(gs: Seq<CrateCapturesV>, context: bool) -> Seq<char>
    decreases gs.len(),
{
    if gs.len() == 0 {
        Seq::empty()
    } else {
        render_groups(gs.drop_last(), context) + render_group(gs.last(), context)
    }
}

/// The full plain-text rendering of a query result: every group, then the
/// total-capture-count summary line.
pub open spec fn spec_render_query(gs: Seq<CrateCapturesV>, context: bool) -> Seq<char> {
    render_groups(gs, context) + "-- total captures: "@ + dec_digits(total_captures(gs)) + "\n"@
}

/// Renders one capture line.
fn render_capture_line(c: &crate::types::Capture, context: bool) -> (r: String)
    ensures
        r@ == render_capture(c@, context),
{
    let line = usize_to_string(c.line);
    let column = usize_to_string(c.column);
    let mut out = String::from_str(c.file.as_str());
    out.append(":");
    out.append(line.as_str());
    out.append(":");
    out.append(column.as_str());
    out.append(" ");
    out.append(c.name.as_str());
    out.append(" ");
    out.append(c.text.as_str());
    if context {
        out.append(" // ");
        out.append(c.line_text.as_str());
    }
    out.append("\n");
    proof {
        reveal_strlit(":");
        reveal_strlit(" ");
        reveal_strlit(" // ");
        reveal_strlit("\n");
        assert(out@ =~= render_capture(c@, context));
    }
    out
}

/// Renders a grouped query result as the plain-text report: one header line
/// per crate, one line per capture, and the total-capture-count summary
/// line. Byte for byte a function of the groups alone, so that two equal
/// results render identically.
#[verifier::loop_isolation(false)]
pub fn render_query_text(groups: &Vec<CrateCaptures>, context: bool) -> (r: String)
    ensures
        r@ == spec_render_query(gviews_of(groups@), context),
{
    let gs = groups;
    let n: usize = gs.len();
    let mut out = String::new();
    let mut total: usize = 0;
    let mut i: usize = 0;
    while i < n
        invariant
            0 <= i <= n,
            out@ == render_groups(gviews_of(gs@).take(i as int), context),
            total as int == total_captures(gviews_of(gs@).take(i as int)),
        decreases n - i,
    {
        let g: &CrateCaptures = &gs[i];
        out.append("== Crate: ");
        if g.crate_path.as_str().unicode_len() == 0 {
            out.append("(root)");
        } else {
            out.append(g.crate_path.as_str());
        }
        out.append(" ==\n");
        let m: usize = g.captures.len();
        let mut j: usize = 0;
        while j < m
            invariant
                0 <= j <= m,
                out@ == render_groups(gviews_of(gs@).take(i as int), context) + "== Crate: "@ + (
                if g.crate_path@.len() == 0 {
                    "(root)"@
                } else {
                    g.crate_path@
                }) + " ==\n"@ + render_captures(g@.captures.take(j as int), context),
            decreases m - j,
        {
            let line = render_capture_line(&g.captures[j], context);
            out.append(line.as_str());
            proof {
                assert(g@.captures.take(j + 1).drop_last() =~= g@.captures.take(j as int));
                assert(g@.captures.take(j + 1).last() == g.captures@[j as int]@);
            }
            j = j + 1;
        }
        if usize::MAX - total > m {
            total = total + m;
        } else {
            total = usize::MAX;
        }
        proof {
            reveal_strlit("== Crate: ");
            reveal_strlit("(root)");
            reveal_strlit(" ==\n");
            assert(g@.captures.take(m as int) =~= g@.captures);
            assert(gviews_of(gs@).take(i + 1).drop_last() =~= gviews_of(gs@).take(i as int));
            assert(gviews_of(gs@).take(i + 1).last() == gs@[i as int]@);
            assert(out@ =~= render_groups(gviews_of(gs@).take(i + 1), context));
        }
        i = i + 1;
    }
    proof {
        assert(gviews_of(gs@).take(n as int) =~= gviews_of(gs@));
    }
    out.append("-- total captures: ");
    let t = usize_to_string(total);
    out.append(t.as_str());
    out.append("\n");
    proof {
        reveal_strlit("-- total captures: ");
        reveal_strlit("\n");
        assert(out@ =~= spec_render_query(gviews_of(gs@), context));
    }
    out
}

} // verus!
