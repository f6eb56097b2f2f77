use arbol::query::aggregate_captures;
use arbol::{query_context_snippet, Capture};

fn cap(crate_path: &str, file: &str, line: usize, column: usize, name: &str, text: &str) -> Capture {
    Capture {
        crate_path: crate_path.to_string(),
        file: file.to_string(),
        line,
        column,
        name: name.to_string(),
        text: text.to_string(),
        line_text: String::new(),
    }
}

#[test]
fn aggregation_sorts_and_groups() {
    let captures = vec![
        cap("b", "b/src/lib.rs", 2, 1, "n", "two"),
        cap("a", "a/src/lib.rs", 5, 3, "n", "five"),
        cap("b", "b/src/lib.rs", 1, 9, "n", "one"),
        cap("a", "a/src/lib.rs", 5, 1, "n", "early"),
    ];
    let groups = aggregate_captures(captures);
    assert_eq!(groups.len(), 2);
    assert_eq!(groups[0].crate_path, "a");
    assert_eq!(groups[1].crate_path, "b");
    let a_texts: Vec<&str> = groups[0].captures.iter().map(|c| c.text.as_str()).collect();
    assert_eq!(a_texts, vec!["early", "five"], "within a crate: file, line, column order");
    let b_texts: Vec<&str> = groups[1].captures.iter().map(|c| c.text.as_str()).collect();
    assert_eq!(b_texts, vec!["one", "two"]);
}

#[test]
fn aggregation_ignores_input_order() {
    let mut forward = vec![
        cap("", "x.rs", 1, 1, "n", "p"),
        cap("c1", "c1/a.rs", 3, 2, "n", "q"),
        cap("c1", "c1/a.rs", 2, 7, "n", "r"),
    ];
    let backward: Vec<Capture> = forward.iter().rev().cloned().collect();
    let g1 = aggregate_captures(forward.drain(..).collect());
    let g2 = aggregate_captures(backward);
    assert_eq!(g1, g2, "any permutation of the same captures aggregates the same");
}

#[test]
fn empty_capture_list_aggregates_to_no_groups() {
    let groups = aggregate_captures(Vec::new());
    assert!(groups.is_empty());
}

#[test]
fn snippet_points_a_caret_at_the_offset() {
    let query = "(abcdef";
    let err = "Query error: position 3 is bad";
    let block = query_context_snippet(query, err).unwrap();
    assert_eq!(block, "--- query context ---\n(abcdef\n   ^");
}

#[test]
fn snippet_absent_without_an_offset() {
    assert!(query_context_snippet("(abc)", "Invalid syntax").is_none());
}

#[test]
fn snippet_absent_when_offset_is_out_of_range() {
    assert!(query_context_snippet("(abc)", "bad at position 99 here").is_none());
    assert!(query_context_snippet("(abc)", "bad at position 99999999999999999999 here").is_none());
}

#[test]
fn snippet_uses_the_last_offset_mention() {
    let query = "0123456789";
    let block = query_context_snippet(query, "position 9 then position 2").unwrap();
    assert_eq!(block, "--- query context ---\n0123456789\n  ^");
}

#[test]
fn snippet_window_is_bounded() {
    let query: String = "q".repeat(200);
    let block = query_context_snippet(&query, "position 100").unwrap();
    let lines: Vec<&str> = block.lines().collect();
    assert_eq!(lines[1].len(), 80, "forty characters each side of the offset");
    assert_eq!(lines[2], format!("{}^", " ".repeat(40)));
}
