use vstd::prelude::*;
use tree_sitter::StreamingIterator;

verus! {

// The external grammar engine, bound to the bundled Rust grammar. The
// library treats it as an opaque collaborator: it compiles a pattern,
// parses a source string into a tree of nodes, and evaluates a compiled
// pattern against a tree. Each wrapper below makes one step's calls into
// it; everything around the calls is verified code.
//
// The engine is deterministic for a given source or pattern, and the
// grammar is fixed, so whether a source parses and whether a pattern
// compiles are functions of the text alone; those outcomes are named
// below, and the wrappers bind the names.

#[verifier::external_type_specification]
#[verifier::external_body]
pub struct ExLanguage(tree_sitter::Language);

#[verifier::external_type_specification]
#[verifier::external_body]
pub struct ExParser(tree_sitter::Parser);

#[verifier::external_type_specification]
#[verifier::external_body]
pub struct ExTree(tree_sitter::Tree);

#[verifier::external_type_specification]
#[verifier::external_body]
pub struct ExNode<'tree>(tree_sitter::Node<'tree>);

#[verifier::external_type_specification]
#[verifier::external_body]
pub struct ExQuery(tree_sitter::Query);

/// Whether the engine parses this source text into a tree under the
/// bundled grammar.
pub uninterp spec fn rust_parse_ok(src: Seq<char>) -> bool;

/// Whether the engine compiles this pattern text under the bundled
/// grammar.
pub uninterp spec fn rust_query_ok(q: Seq<char>) -> bool;

/// The capture names of a compiling pattern, in capture-index order.
pub uninterp spec fn rust_query_capture_names(q: Seq<char>) -> Seq<Seq<char>>;

/// Relies on tree_sitter::Parser::parse under the bundled grammar
/// (tree_sitter_rust::LANGUAGE): deterministic for a given source, with no
/// cancellation or timeout set, so success is a function of the source
/// text alone; `None` covers both a grammar that cannot be activated and a
/// parse that yields no tree.
#[verifier::external_body]
pub(crate) fn rust_parse(src: &str) -> (r: Option<tree_sitter::Tree>)
    ensures
        r is Some <==> rust_parse_ok(src@),
{
    let mut parser = tree_sitter::Parser::new();
    if parser.set_language(&tree_sitter::Language::new(tree_sitter_rust::LANGUAGE)).is_err() {
        return None;
    }
    parser.parse(src, None)
}

/// Relies on tree_sitter::Parser::set_language with the bundled grammar:
/// the up-front probe that the grammar can be activated at all, failing
/// with the activation error's message.
#[verifier::external_body]
pub(crate) fn rust_grammar_check() -> (r: Result<(), String>) {
    let mut parser = tree_sitter::Parser::new();
    parser.set_language(&tree_sitter::Language::new(tree_sitter_rust::LANGUAGE)).map_err(|e| e.to_string())
}

/// Relies on tree_sitter::Query::new and Query::capture_names under the
/// bundled grammar: compiling is deterministic for a given pattern text,
/// and the capture names are fixed at construction, in capture-index
/// order; the compile error is carried as its display message.
#[verifier::external_body]
pub(crate) fn rust_query_new(src: &str) -> (r: Result<(tree_sitter::Query, Vec<String>), String>)
    ensures
        r is Ok <==> rust_query_ok(src@),
        r matches Ok(qn) ==> qn.1.deep_view() == rust_query_capture_names(src@),
{
    match tree_sitter::Query::new(&tree_sitter::Language::new(tree_sitter_rust::LANGUAGE), src) {
        Ok(query) => {
            let names = query.capture_names().iter().map(|s| s.to_string()).collect();
            Ok((query, names))
        },
        Err(e) => Err(e.to_string()),
    }
}

/// Relies on tree_sitter::Tree::root_node.
#[verifier::external_body]
pub(crate) fn tree_root_node<'t>(t: &'t tree_sitter::Tree) -> tree_sitter::Node<'t> {
    t.root_node()
}

/// Relies on tree_sitter::Node::kind: the node's type label.
#[verifier::external_body]
pub(crate) fn node_kind(n: &tree_sitter::Node<'_>) -> String {
    n.kind().to_string()
}

/// Relies on tree_sitter::Node::byte_range. The engine stores byte offsets
/// as 32-bit values, and a node ends at or after its start.
#[verifier::external_body]
pub(crate) fn node_byte_range(n: &tree_sitter::Node<'_>) -> (r: (usize, usize))
    ensures
        r.0 <= r.1 <= 0xFFFF_FFFFusize,
{
    let range = n.byte_range();
    (range.start, range.end)
}

/// Relies on tree_sitter::Node::start_position and Node::end_position: the
/// 0-based (row, column) pair where the node starts and the one where it
/// ends. The engine stores rows and columns as 32-bit values, and a node's
/// end point is its start point advanced by its extent, so the end row is
/// at or after the start row.
#[verifier::external_body]
pub(crate) fn node_positions(n: &tree_sitter::Node<'_>) -> (r: ((usize, usize), (usize, usize)))
    ensures
        r.0.0 <= r.1.0 <= 0xFFFF_FFFFusize,
        r.0.1 <= 0xFFFF_FFFFusize,
        r.1.1 <= 0xFFFF_FFFFusize,
{
    let start = n.start_position();
    let end = n.end_position();
    ((start.row, start.column), (end.row, end.column))
}

/// Relies on tree_sitter::Node::child_count.
#[verifier::external_body]
pub(crate) fn node_child_count(n: &tree_sitter::Node<'_>) -> u32 {
    n.child_count()
}

/// Relies on tree_sitter::Node::child: the i-th child, in source order,
/// `None` past the last one.
#[verifier::external_body]
pub(crate) fn node_child<'t>(n: &tree_sitter::Node<'t>, i: u32) -> Option<tree_sitter::Node<'t>> {
    n.child(i)
}

/// Relies on tree_sitter::Node::byte_range: the slice of the handed text
/// that the node's byte range covers; empty when the text does not hold
/// that range as valid text.
#[verifier::external_body]
pub(crate) fn node_text(n: &tree_sitter::Node<'_>, src: &str) -> String {
    match src.as_bytes().get(n.byte_range()) {
        Some(bytes) => core::str::from_utf8(bytes).unwrap_or("").to_string(),
        None => String::new(),
    }
}

/// Relies on tree_sitter::QueryCursor::matches: every match of the
/// compiled pattern in the tree, as an unordered stream of (capture index,
/// node) pairs, collected here into a vector. The text provider hands the
/// engine the node's slice of the given text, or nothing when the text
/// does not hold that range.
#[verifier::external_body]
pub(crate) fn query_matches<'t>(
    q: &tree_sitter::Query,
    tree: &'t tree_sitter::Tree,
    src: &str,
) -> Vec<(u32, tree_sitter::Node<'t>)> {
    let mut cursor = tree_sitter::QueryCursor::new();
    let provider = |node: tree_sitter::Node<'_>|
        core::iter::once(src.as_bytes().get(node.byte_range()).unwrap_or(&[]));
    let mut it = cursor.matches(q, tree.root_node(), provider);
    let mut out = Vec::new();
    while let Some(m) = it.next() {
        for c in m.captures() {
            out.push((c.index, c.node));
        }
    }
    out
}

} // verus!
