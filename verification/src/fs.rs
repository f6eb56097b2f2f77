use vstd::prelude::*;
use crate::engine::{
    node_byte_range, node_child, node_child_count, node_kind, node_positions, node_text,
    rust_parse, rust_parse_ok, tree_root_node,
};
use crate::error::ArbolError;
use crate::types::{FileAst, JsonNode};
use crate::paths::{
    has_component, has_rs_extension, is_absolute, is_path_prefix, path_join, rel_to,
    str_has_component, str_has_rs_extension, str_is_absolute, str_is_path_prefix, str_path_join,
    str_rel_to,
};
use crate::strutil::{seq_has, str_has};

verus! {

/// One skip entry matches `p`: an absolute entry matches by path prefix; a
/// root-relative entry matches by path prefix after joining with the root,
/// and, more loosely, by substring occurrence in the root-relative form of
/// `p`. Empty entries match nothing.
pub open spec fn spec_skip_matches(p: Seq<char>, root: Seq<char>, skip: Seq<char>) -> bool {
    skip.len() > 0 && if is_absolute(skip) {
        is_path_prefix(skip, p)
    } else {
        is_path_prefix(path_join(root, skip), p) || (is_path_prefix(root, p) && seq_has(
            rel_to(p, root),
            skip,
        ))
    }
}

/// Some entry of the skip list matches `p`.
pub open spec fn spec_should_skip(p: Seq<char>, root: Seq<char>, skips: Seq<Seq<char>>) -> bool {
    exists|i: int| 0 <= i < skips.len() && spec_skip_matches(p, root, skips[i])
}

/// A walked file is kept when it carries the source suffix, lies under no
/// build-output or generated-code directory, matches no skip entry, and,
/// unless test files were asked for, lies under no test or bench directory.
pub open spec fn spec_eligible(
    p: Seq<char>,
    root: Seq<char>,
    include_tests: bool,
    skips: Seq<Seq<char>>,
) -> bool {
    &&& has_rs_extension(p)
    &&& !has_component(p, "target"@)
    &&& !has_component(p, "generated"@)
    &&& !spec_should_skip(p, root, skips)
    &&& (include_tests || (!has_component(p, "tests"@) && !has_component(p, "benches"@)))
}

/// Decides whether some user-supplied skip entry excludes `path`. An entry
/// may be absolute or relative to `root`; a relative entry also matches as a
/// substring of the root-relative display of `path`, a documented looseness
/// that tolerates partial patterns.
pub fn should_skip(path: &str, root: &str, skip_dirs: &Vec<String>) -> (r: bool)
    ensures
        r == spec_should_skip(path@, root@, skip_dirs.deep_view()),
{
    let n: usize = skip_dirs.len();
    let mut i: usize = 0;
    while i < n
        invariant
            n == skip_dirs.len(),
            0 <= i <= n,
            skip_dirs.deep_view().len() == n,
            forall|j: int| 0 <= j < n ==> skip_dirs.deep_view()[j] == skip_dirs@[j]@,
            forall|j: int|
                0 <= j < i ==> !spec_skip_matches(path@, root@, skip_dirs.deep_view()[j]),
        decreases n - i,
    {
        let skip: &String = &skip_dirs[i];
        if skip.as_str().unicode_len() > 0 {
            if str_is_absolute(skip.as_str()) {
                if str_is_path_prefix(skip.as_str(), path) {
                    assert(spec_skip_matches(path@, root@, skip_dirs.deep_view()[i as int]));
                    return true;
                }
            } else {
                let joined = str_path_join(root, skip.as_str());
                if str_is_path_prefix(joined.as_str(), path) {
                    assert(spec_skip_matches(path@, root@, skip_dirs.deep_view()[i as int]));
                    return true;
                }
                if str_is_path_prefix(root, path) {
                    let rel = str_rel_to(path, root);
                    if str_has(rel, skip.as_str()) {
                        assert(spec_skip_matches(path@, root@, skip_dirs.deep_view()[i as int]));
                        return true;
                    }
                }
            }
        }
        i = i + 1;
    }
    false
}

/// Decides eligibility of one walked file.
pub fn is_eligible_file(path: &str, root: &str, include_tests: bool, skip_dirs: &Vec<String>) -> (r:
    bool)
    ensures
        r == spec_eligible(path@, root@, include_tests, skip_dirs.deep_view()),
{
    if !str_has_rs_extension(path) {
        return false;
    }
    if str_has_component(path, "target") {
        return false;
    }
    if str_has_component(path, "generated") {
        return false;
    }
    if should_skip(path, root, skip_dirs) {
        return false;
    }
    if !include_tests {
        if str_has_component(path, "tests") {
            return false;
        }
        if str_has_component(path, "benches") {
            return false;
        }
    }
    true
}

/// Filters a walked file listing down to the eligible source files, keeping
/// the walk order. The walk itself is the caller's: `entries` holds every
/// file path found under `root`.
pub fn collect_rust_files(
    entries: &Vec<String>,
    root: &str,
    include_tests: bool,
    skip_dirs: &Vec<String>,
) -> (r: Vec<String>)
    ensures
        r@ == entries@.filter(
            (|e: String| spec_eligible(e@, root@, include_tests, skip_dirs.deep_view())),
        ),
{
    broadcast use vstd::prelude::Seq::lemma_filter_push;

    let ghost pred = (|e: String|
        spec_eligible(e@, root@, include_tests, skip_dirs.deep_view()));
    let n: usize = entries.len();
    let mut out: Vec<String> = Vec::new();
    assert(entries@.take(0).filter(pred) =~= Seq::<String>::empty()) by {
        reveal(Seq::filter);
        assert(entries@.take(0) =~= Seq::<String>::empty());
    }
    let mut i: usize = 0;
    while i < n
        invariant
            n == entries.len(),
            0 <= i <= n,
            out@ == entries@.take(i as int).filter(pred),
            pred == (|e: String|
                spec_eligible(e@, root@, include_tests, skip_dirs.deep_view())),
        decreases n - i,
    {
        let e: &String = &entries[i];
        let keep = is_eligible_file(e.as_str(), root, include_tests, skip_dirs);
        assert(keep == pred(entries@[i as int]));
        if keep {
            let c = e.clone();
            assert(c == entries@[i as int]);
            out.push(c);
        }
        proof {
            entries@.take(i as int).lemma_filter_push(entries@[i as int], pred);
            assert(entries@.take(i + 1) =~= entries@.take(i as int).push(entries@[i as int]));
            assert(entries@.take(i + 1).filter(pred) == entries@.take(i as int).push(
                entries@[i as int],
            ).filter(pred));
        }
        i = i + 1;
    }
    proof {
        assert(entries@.take(n as int) =~= entries@);
    }
    out
}

/// Span length, in bytes, up to which a node's source excerpt is included
/// in a dump that asked for excerpts: a policy bound on output size.
pub const EXCERPT_LIMIT: usize = 240;

/// A flattened node is well formed: its byte and line spans are coherent,
/// and it carries an excerpt exactly when excerpts were requested and its
/// span is at or below the excerpt limit.
pub open spec fn json_node_wf(n: JsonNode, with_source: bool) -> bool {
    &&& n.start_byte <= n.end_byte
    &&& n.start_line <= n.end_line
    &&& ((n.text is Some) <==> (with_source && n.end_byte - n.start_byte <= EXCERPT_LIMIT))
}

/// A dumped file is well formed: at least the root node is listed, exactly
/// the root node when the depth bound is zero, the recorded root kind is
/// the first node's kind, and every node is well formed.
pub open spec fn file_ast_wf(ast: FileAst, with_source: bool, max_depth: usize) -> bool {
    &&& ast.nodes@.len() >= 1
    &&& (max_depth == 0 ==> ast.nodes@.len() == 1)
    &&& ast.root_kind@ == ast.nodes@[0].kind@
    &&& forall|k: int| 0 <= k < ast.nodes@.len() ==> json_node_wf(#[trigger] ast.nodes@[k], with_source)
}

/// Parses a source string with the bundled grammar: a tree exactly when
/// the engine parses this text, the parse failure otherwise.
pub(crate) fn parse_src_lang(src: &str) -> (r: Result<tree_sitter::Tree, ArbolError>)
    ensures
        r is Ok <==> rust_parse_ok(src@),
        r matches Err(e) ==> e == ArbolError::ParseFailed,
{
    match rust_parse(src) {
        Some(tree) => Ok(tree),
        None => Err(ArbolError::ParseFailed),
    }
}

/// Flattens the subtree under `node` onto `out`, pre-order, pruning below
/// `max_depth`: the node itself, then each child's subtree in source order,
/// children taken only while `depth` is below the bound.
fn collect_nodes(
    node: tree_sitter::Node<'_>,
    src: &str,
    with_source: bool,
    max_depth: usize,
    depth: usize,
    out: &mut Vec<JsonNode>,
)
    requires
        depth <= max_depth,
    ensures
        final(out)@.len() > old(out)@.len(),
        depth == max_depth ==> final(out)@.len() == old(out)@.len() + 1,
        forall|k: int| 0 <= k < old(out)@.len() ==> final(out)@[k] == old(out)@[k],
        forall|k: int|
            old(out)@.len() <= k < final(out)@.len() ==> json_node_wf(
                #[trigger] final(out)@[k],
                with_source,
            ),
    decreases max_depth - depth,
{
    let (start_byte, end_byte) = node_byte_range(&node);
    let ((start_row, _start_col), (end_row, _end_col)) = node_positions(&node);
    let child_count: u32 = node_child_count(&node);
    let text: Option<String> = if with_source && end_byte - start_byte <= EXCERPT_LIMIT {
        Some(node_text(&node, src))
    } else {
        None
    };
    out.push(
        JsonNode {
            kind: node_kind(&node),
            start_byte: start_byte as u32,
            end_byte: end_byte as u32,
            start_line: start_row as u32,
            end_line: end_row as u32,
            child_count,
            text,
        },
    );
    let ghost base = out@;
    assert(json_node_wf(base.last(), with_source));
    if depth < max_depth {
        let mut i: u32 = 0;
        while i < child_count
            invariant
                depth < max_depth <= usize::MAX,
                base.len() == old(out)@.len() + 1,
                forall|k: int| 0 <= k < old(out)@.len() ==> base[k] == old(out)@[k],
                out@.len() >= base.len(),
                forall|k: int| 0 <= k < base.len() ==> out@[k] == base[k],
                forall|k: int|
                    base.len() - 1 <= k < out@.len() ==> json_node_wf(
                        #[trigger] out@[k],
                        with_source,
                    ),
            decreases child_count - i,
        {
            match node_child(&node, i) {
                Some(child) => {
                    collect_nodes(child, src, with_source, max_depth, depth + 1, out);
                },
                None => {},
            }
            i = i + 1;
        }
        proof {
            assert forall|k: int| 0 <= k < old(out)@.len() implies out@[k] == old(out)@[k] by {
                assert(out@[k] == base[k]);
            }
        }
    }
}

/// Parses one source file with the bundled grammar and flattens its tree
/// down to `max_depth`: a dump exactly when the engine parses the text,
/// the parse failure otherwise.
pub fn dump_file(path: &str, src: &str, with_source: bool, max_depth: usize) -> (r: Result<
    FileAst,
    ArbolError,
>)
    ensures
        r is Ok <==> rust_parse_ok(src@),
        match r {
            Result::Ok(ast) => ast.path@ == path@ && file_ast_wf(ast, with_source, max_depth),
            Result::Err(e) => e == ArbolError::ParseFailed,
        },
{
    let tree = match parse_src_lang(src) {
        Ok(t) => t,
        Err(e) => {
            return Err(e);
        },
    };
    let root = tree_root_node(&tree);
    let mut nodes: Vec<JsonNode> = Vec::new();
    collect_nodes(root, src, with_source, max_depth, 0, &mut nodes);
    let root_kind = nodes[0].kind.clone();
    Ok(FileAst { path: String::from_str(path), root_kind, nodes })
}

/// A skip entry given absolute and the same entry given relative to the root
/// exclude the same subtree: whatever the absolute form `join(root, skip)`
/// matches by prefix, the relative form matches too, and conversely the
/// prefix rule of the relative form matches exactly the absolute form. (The
/// relative form may additionally match by substring; that looseness is
/// one-directional.)
pub proof fn lemma_skip_absolute_relative_agree(p: Seq<char>, root: Seq<char>, skip: Seq<char>)
    requires
        skip.len() > 0,
        !is_absolute(skip),
        is_absolute(path_join(root, skip)),
    ensures
        spec_skip_matches(p, root, path_join(root, skip)) == is_path_prefix(
            path_join(root, skip),
            p,
        ),
        spec_skip_matches(p, root, path_join(root, skip)) ==> spec_skip_matches(p, root, skip),
{
}

} // verus!
