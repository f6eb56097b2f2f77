use arbol::{dump_json, SourceText};

fn source(path: &str, text: &str) -> SourceText {
    SourceText { path: path.to_string(), text: text.to_string() }
}

#[test]
fn depth_zero_returns_only_root_node() {
    let files = vec![source("src/lib.rs", "pub fn alpha() {}\n")];
    let full = dump_json(&files, false, usize::MAX);
    let shallow = dump_json(&files, false, 0);
    assert_eq!(full.len(), shallow.len(), "same file count");
    assert_eq!(shallow[0].nodes.len(), 1, "depth 0 should include only the root node");
}

#[test]
fn with_source_includes_short_text() {
    let files = vec![source("src/lib.rs", "pub fn beta() { }\n")];
    let asts = dump_json(&files, true, 4);
    assert!(!asts.is_empty());
    let has_text = asts[0].nodes.iter().any(|n| n.text.as_ref().is_some());
    assert!(
        has_text,
        "expected at least one node to include source text under threshold"
    );
}

#[test]
fn large_source_omits_long_text() {
    // create a body well over 240 bytes
    let big_body = "x".repeat(400);
    let files = vec![source(
        "src/lib.rs",
        &format!("pub fn big() {{ /*{}*/ }}\n", big_body),
    )];
    let asts = dump_json(&files, true, usize::MAX);
    // At least one node (likely root) should have text omitted due to length
    let any_none = asts[0].nodes.iter().any(|n| n.text.is_none());
    assert!(
        any_none,
        "expected at least one node with no text because span exceeded threshold"
    );
}

#[test]
fn deterministic_multiple_runs() {
    let files = vec![source("src/lib.rs", "pub fn a() {} pub fn b() {} pub fn c() {}\n")];
    let run1 = dump_json(&files, false, usize::MAX);
    let run2 = dump_json(&files, false, usize::MAX);
    assert_eq!(run1, run2, "dump_json output should be deterministic across runs");
    // Byte ranges should be coherent
    for file in run1 {
        for node in file.nodes.windows(2) {
            let a = &node[0];
            let b = &node[1];
            assert!(a.start_byte <= a.end_byte, "node start <= end");
            assert!(
                a.end_byte <= b.end_byte || a.start_byte <= b.start_byte,
                "non-decreasing progression"
            );
        }
    }
}

#[test]
fn deep_bound_yields_the_full_tree() {
    let files = vec![source("src/lib.rs", "pub fn alpha() { let x = 1 + 2; }\n")];
    let unbounded = dump_json(&files, false, usize::MAX);
    let deep = dump_json(&files, false, 1000);
    assert_eq!(
        unbounded[0].nodes, deep[0].nodes,
        "a bound beyond the tree's depth keeps the whole tree"
    );
    assert!(unbounded[0].nodes.len() > 1);
}

#[test]
fn dump_keeps_one_record_per_file_in_input_order() {
    let files = vec![
        source("b/src/lib.rs", "pub fn b(){}\n"),
        source("a/src/lib.rs", "pub fn a(){}\n"),
    ];
    let asts = dump_json(&files, false, usize::MAX);
    let paths: Vec<&str> = asts.iter().map(|a| a.path.as_str()).collect();
    assert_eq!(paths, vec!["b/src/lib.rs", "a/src/lib.rs"], "dump follows the handed order");
    for a in &asts {
        assert_eq!(a.root_kind, a.nodes[0].kind, "recorded root kind is the first node's kind");
        for n in &a.nodes {
            assert!(n.start_line <= n.end_line);
        }
    }
}

#[test]
fn unparsable_input_is_left_out_without_failing_the_batch() {
    let files = vec![source("src/lib.rs", "pub fn ok() {}\n")];
    let asts = dump_json(&files, false, usize::MAX);
    // error recovery makes almost anything parse; the batch itself never fails
    assert_eq!(asts.len(), 1);
    assert_eq!(asts[0].path, "src/lib.rs");
    assert_eq!(asts[0].root_kind, "source_file");
}
