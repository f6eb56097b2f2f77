use vstd::prelude::*;

verus! {

/// A source file handed to the library by the caller: the path it was found
/// under and the text that was read from it.
#[derive(Debug, Clone, PartialEq, Eq)]
pub struct SourceText {
    pub path: String,
    pub text: String,
}

/// One syntax-tree node of a depth-bounded flattening: its kind label, byte
/// and line spans, child count, and (when requested and short enough) the
/// source excerpt it covers.
#[derive(Debug, Clone, PartialEq, Eq)]
pub struct JsonNode {
    pub kind: String,
    pub start_byte: u32,
    pub end_byte: u32,
    pub start_line: u32,
    pub end_line: u32,
    pub child_count: u32,
    pub text: Option<String>,
}

/// The flattened syntax tree of one file: the file's path, the kind label of
/// the root node, and the nodes in pre-order.
#[derive(Debug, Clone, PartialEq, Eq)]
pub struct FileAst {
    pub path: String,
    pub root_kind: String,
    pub nodes: Vec<JsonNode>,
}

/// One occurrence of a pattern variable bound to a matched node, enriched
/// with the owning crate, the file, the 1-based position, the matched text
/// and (when context was requested) the trimmed source line.
#[derive(Debug, Clone, PartialEq, Eq)]
pub struct Capture {
    pub crate_path: String,
    pub file: String,
    pub line: usize,
    pub column: usize,
    pub name: String,
    pub text: String,
    pub line_text: String,
}

/// The captures that belong to one crate, in their aggregated order.
#[derive(Debug, Clone, PartialEq, Eq)]
pub struct CrateCaptures {
    pub crate_path: String,
    pub captures: Vec<Capture>,
}

} // verus!
