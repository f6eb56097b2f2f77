pub mod engine;
pub mod error;
pub mod fs;
pub mod paths;
pub mod query;
pub mod render;
pub mod strutil;
pub mod types;
pub mod workspace;

pub use self::error::ArbolError;
pub use self::types::{Capture, CrateCaptures, FileAst, JsonNode, SourceText};

use vstd::prelude::*;
use crate::engine::{rust_parse_ok, rust_query_capture_names, rust_query_ok};
use crate::fs::{dump_file, file_ast_wf};
use crate::strutil::{dec_value, is_digit, last_occurrence_from, leading_digits,
    lemma_dec_value_monotone, lemma_leading_digits_at, str_last_occurrence};

verus! {

/// The handed files whose text the engine parses, in the handed order: the
/// ones a dump keeps.
pub open spec fn parsed_files(files: Seq<SourceText>) -> Seq<SourceText> {
    files.filter(|f: SourceText| rust_parse_ok(f.text@))
}

/// Parses and flattens every handed source file down to `max_depth`: one
/// well-formed dump per file whose text the engine parses, in the handed
/// order; a file whose parse fails is left out, never failing the batch.
#[verifier::loop_isolation(false)]
pub fn dump_json(files: &Vec<SourceText>, with_source: bool, max_depth: usize) -> (r: Vec<FileAst>)
    ensures
        r@.len() == parsed_files(files@).len(),
        forall|i: int|
            0 <= i < r@.len() ==> file_ast_wf(#[trigger] r@[i], with_source, max_depth)
                && r@[i].path@ == parsed_files(files@)[i].path@,
{
    broadcast use vstd::prelude::Seq::lemma_filter_push;

    let ghost pred = (|f: SourceText| rust_parse_ok(f.text@));
    let n: usize = files.len();
    let mut out: Vec<FileAst> = Vec::new();
    proof {
        assert(files@.take(0).filter(pred) =~= Seq::<SourceText>::empty()) by {
            reveal(Seq::filter);
            assert(files@.take(0) =~= Seq::<SourceText>::empty());
        }
    }
    let mut i: usize = 0;
    while i < n
        invariant
            0 <= i <= n,
            out@.len() == files@.take(i as int).filter(pred).len(),
            forall|k: int|
                0 <= k < out@.len() ==> file_ast_wf(#[trigger] out@[k], with_source, max_depth)
                    && out@[k].path@ == files@.take(i as int).filter(pred)[k].path@,
        decreases n - i,
    {
        let file: &SourceText = &files[i];
        let ghost prev = out@;
        match dump_file(file.path.as_str(), file.text.as_str(), with_source, max_depth) {
            Ok(ast) => {
                proof {
                    assert(ast.path@ == files@[i as int].path@);
                    assert(pred(files@[i as int]));
                }
                out.push(ast);
            },
            Err(_) => {
                proof {
                    assert(!pred(files@[i as int]));
                }
            },
        }
        proof {
            files@.take(i as int).lemma_filter_push(files@[i as int], pred);
            assert(files@.take(i + 1) =~= files@.take(i as int).push(files@[i as int]));
            assert(files@.take(i + 1).filter(pred) == files@.take(i as int).push(
                files@[i as int],
            ).filter(pred));
        }
        i = i + 1;
    }
    proof {
        assert(files@.take(n as int) =~= files@);
    }
    out
}

/// Runs a pattern over the handed source files with the bundled grammar and
/// aggregates the captures by owning crate: the compile failure is exact,
/// and every returned capture satisfies `capture_ok` for the handed files,
/// roots and pattern.
pub fn execute_query(
    files: &Vec<SourceText>,
    crate_roots: &Vec<String>,
    query_src: &str,
    context: bool,
) -> (r: Result<Vec<CrateCaptures>, ArbolError>)
    ensures
        (r == Result::<Vec<CrateCaptures>, ArbolError>::Err(ArbolError::QueryCompile))
            <==> !rust_query_ok(query_src@),
        match r {
            Result::Ok(groups) => crate::query::groups_wf(crate::query::gviews_of(groups@)) && (
            forall|gi: int, k: int|
                0 <= gi < crate::query::gviews_of(groups@).len() && 0 <= k < crate::query::gviews_of(
                    groups@,
                )[gi].captures.len() ==> crate::query::capture_ok(
                    #[trigger] crate::query::gviews_of(groups@)[gi].captures[k],
                    files@,
                    crate_roots.deep_view(),
                    rust_query_capture_names(query_src@),
                    context,
                )),
            Result::Err(e) => e is QueryCompile || e is SetLanguage,
        },
{
    crate::query::execute_query(files, crate_roots, query_src, context)
}

/// A run of spaces.
pub open spec fn spaces(n: int) -> Seq<char> {
    Seq::new(n as nat, |i: int| ' ')
}

/// The caret-pointed context block for a pattern-compile diagnostic: when
/// the diagnostic message carries a recoverable error offset ("position "
/// followed by digits, denoting a position within the pattern), a snippet
/// of the pattern around that offset with a caret under the exact column;
/// nothing otherwise.
pub open spec fn spec_query_context(q: Seq<char>, e: Seq<char>) -> Option<Seq<char>> {
    let pat = "position "@;
    let at = last_occurrence_from(e, pat, e.len() - pat.len());
    if at < 0 {
        Option::None
    } else {
        let ds = e.subrange(at + pat.len(), at + pat.len() + leading_digits(e.skip(at + pat.len())));
        if ds.len() == 0 || dec_value(ds) >= q.len() {
            Option::None
        } else {
            let offset = dec_value(ds);
            let start = if offset >= 40 {
                offset - 40
            } else {
                0
            };
            let end = if offset + 40 <= q.len() {
                offset + 40
            } else {
                q.len() as int
            };
            Option::Some(
                "--- query context ---\n"@ + q.subrange(start, end) + "\n"@ + spaces(offset - start)
                    + "^"@,
            )
        }
    }
}

/// Builds the caret-pointed context block for a pattern-compile diagnostic,
/// when the diagnostic's text carries a recoverable error offset.
#[verifier::loop_isolation(false)]
pub fn query_context_snippet(query: &str, err_msg: &str) -> (r: Option<String>)
    ensures
        match r {
            Option::Some(s) => spec_query_context(query@, err_msg@) == Option::Some(s@),
            Option::None => spec_query_context(query@, err_msg@) is None,
        },
{
    proof {
        reveal_strlit("position ");
    }
    let at: usize = match str_last_occurrence(err_msg, "position ") {
        Some(a) => a,
        None => {
            return None;
        },
    };
    let elen: usize = err_msg.unicode_len();
    let qlen: usize = query.unicode_len();
    assert(at + 9 <= elen);
    let dstart: usize = at + 9;
    let mut dend: usize = dstart;
    while dend < elen && crate::strutil::digit_char(err_msg.get_char(dend))
        invariant
            elen == err_msg@.len(),
            dstart <= dend <= elen,
            forall|k: int| dstart <= k < dend ==> is_digit(err_msg@[k]),
        decreases elen - dend,
    {
        dend = dend + 1;
    }
    proof {
        lemma_leading_digits_at(err_msg@.skip(dstart as int), dend - dstart);
        assert(forall|k: int|
            0 <= k < elen - dstart ==> err_msg@.skip(dstart as int)[k] == err_msg@[dstart + k]);
    }
    let ghost ds = err_msg@.subrange(
        at + 9,
        at + 9 + leading_digits(err_msg@.skip(at + 9)),
    );
    proof {
        assert(ds =~= err_msg@.subrange(dstart as int, dend as int));
    }
    if dend == dstart {
        return None;
    }
    let mut acc: u128 = 0;
    let mut k: usize = dstart;
    while k < dend
        invariant
            elen == err_msg@.len(),
            qlen == query@.len(),
            dstart <= k <= dend <= elen,
            ds == err_msg@.subrange(dstart as int, dend as int),
            forall|j: int| dstart <= j < dend ==> is_digit(err_msg@[j]),
            acc as int == dec_value(err_msg@.subrange(dstart as int, k as int)),
            acc <= qlen as u128,
        decreases dend - k,
    {
        let c = err_msg.get_char(k);
        assert(is_digit(c));
        let d: u128 = (c as u32 - 48) as u128;
        acc = acc * 10 + d;
        proof {
            assert(err_msg@.subrange(dstart as int, k + 1).drop_last() =~= err_msg@.subrange(
                dstart as int,
                k as int,
            ));
            assert(err_msg@.subrange(dstart as int, k + 1).last() == err_msg@[k as int]);
        }
        if acc > qlen as u128 {
            proof {
                assert(err_msg@.subrange(dstart as int, k + 1) =~= ds.take(k + 1 - dstart));
                lemma_dec_value_monotone(ds, k + 1 - dstart);
                assert(dec_value(ds) >= acc as int);
            }
            return None;
        }
        k = k + 1;
    }
    proof {
        assert(err_msg@.subrange(dstart as int, k as int) =~= ds);
    }
    let offset: usize = acc as usize;
    if offset >= qlen {
        return None;
    }
    let start: usize = if offset >= 40 {
        offset - 40
    } else {
        0
    };
    let end: usize = if qlen - offset > 40 {
        offset + 40
    } else {
        qlen
    };
    let snippet = query.substring_char(start, end);
    let mut pad = String::new();
    let mut p: usize = 0;
    let width: usize = offset - start;
    while p < width
        invariant
            0 <= p <= width,
            pad@ =~= spaces(p as int),
        decreases width - p,
    {
        pad.append(" ");
        proof {
            reveal_strlit(" ");
            assert(pad@ =~= spaces(p + 1));
        }
        p = p + 1;
    }
    let out = String::from_str("--- query context ---\n").concat(snippet).concat("\n").concat(
        pad.as_str(),
    ).concat("^");
    proof {
        reveal_strlit("--- query context ---\n");
        reveal_strlit("\n");
        reveal_strlit("^");
        assert(out@ =~= "--- query context ---\n"@ + query@.subrange(
            start as int,
            end as int,
        ) + "\n"@ + spaces(offset - start) + "^"@);
    }
    Some(out)
}

} // verus!
