use arbol::workspace::discover_crate_roots;
use arbol::{dump_json, execute_query, SourceText};

fn source(path: &str, text: &str) -> SourceText {
    SourceText { path: path.to_string(), text: text.to_string() }
}

fn entries(paths: &[&str]) -> Vec<String> {
    paths.iter().map(|p| p.to_string()).collect()
}

#[test]
fn query_captures_function_names_deterministically() {
    let walk = entries(&["ws/Cargo.toml", "ws/src/lib.rs"]);
    let roots = discover_crate_roots(&walk);
    let files = vec![source("ws/src/lib.rs", r#"pub fn alpha(){} pub fn beta(){}"#)];

    let q = "(function_item name: (identifier) @fn.name)";
    let run1 = execute_query(&files, &roots, q, false).unwrap();
    let run2 = execute_query(&files, &roots, q, false).unwrap();
    assert_eq!(run1, run2, "results should be deterministic");

    // Flatten captures
    let caps: Vec<String> = run1
        .iter()
        .flat_map(|c| c.captures.iter().map(|k| k.text.clone()))
        .collect();
    assert!(caps.contains(&"alpha".to_string()));
    assert!(caps.contains(&"beta".to_string()));
}

#[test]
fn dump_json_respects_max_depth() {
    let files = vec![source("ws/src/lib.rs", r#"pub fn alpha(){}"#)];
    let all = dump_json(&files, false, usize::MAX);
    let shallow = dump_json(&files, false, 0);
    assert_eq!(all.len(), shallow.len(), "same number of files");
    assert!(all[0].nodes.len() >= shallow[0].nodes.len());
    assert_eq!(shallow[0].nodes.len(), 1, "depth 0 should have only root node");
}

#[test]
fn query_with_context_includes_line_text() {
    let walk = entries(&["ws/Cargo.toml", "ws/src/lib.rs"]);
    let roots = discover_crate_roots(&walk);
    let files = vec![source("ws/src/lib.rs", "pub fn gamma(){}\n")];
    let q = "(function_item name: (identifier) @fn.name)";
    let res = execute_query(&files, &roots, q, true).unwrap();
    let cap = &res[0].captures[0];
    assert!(!cap.line_text.is_empty(), "expected line_text when context=true");
}

#[test]
fn query_without_context_has_empty_line_text() {
    let walk = entries(&["ws/Cargo.toml", "ws/src/lib.rs"]);
    let roots = discover_crate_roots(&walk);
    let files = vec![source("ws/src/lib.rs", "pub fn delta(){}\n")];
    let q = "(function_item name: (identifier) @fn.name)";
    let res = execute_query(&files, &roots, q, false).unwrap();
    let cap = &res[0].captures[0];
    assert!(cap.line_text.is_empty(), "expected empty line_text when context=false");
}

#[test]
fn invalid_query_returns_error() {
    let walk = entries(&["ws/Cargo.toml", "ws/src/lib.rs"]);
    let roots = discover_crate_roots(&walk);
    let files = vec![source("ws/src/lib.rs", "pub fn epsilon(){}\n")];
    let err = execute_query(&files, &roots, "(function_item name: (identifier) @fn.name", false)
        .unwrap_err();
    // We expect a query compile error variant
    let msg = format!("{err:?}");
    assert!(msg.contains("QueryCompile"), "expected QueryCompile error, got {msg}");
}

#[test]
fn multi_crate_grouping() {
    let walk = entries(&[
        "ws/a/Cargo.toml",
        "ws/a/src/lib.rs",
        "ws/b/Cargo.toml",
        "ws/b/src/lib.rs",
    ]);
    let roots = discover_crate_roots(&walk);
    let files = vec![
        source("ws/a/src/lib.rs", "pub fn a_fn(){}\n"),
        source("ws/b/src/lib.rs", "pub fn b_fn(){}\n"),
    ];
    let q = "(function_item name: (identifier) @fn.name)";
    let res = execute_query(&files, &roots, q, false).unwrap();
    // We expect two crate groups
    assert_eq!(res.len(), 2, "expected captures grouped by crate");
    let mut names: Vec<String> = res
        .iter()
        .flat_map(|c| c.captures.iter().map(|k| k.text.clone()))
        .collect();
    names.sort();
    assert_eq!(names, vec!["a_fn", "b_fn"]);
}

#[test]
fn grouping_is_independent_of_file_order() {
    let walk = entries(&[
        "ws/a/Cargo.toml",
        "ws/a/src/lib.rs",
        "ws/b/Cargo.toml",
        "ws/b/src/lib.rs",
    ]);
    let roots = discover_crate_roots(&walk);
    let forward = vec![
        source("ws/a/src/lib.rs", "pub fn a_fn(){}\n"),
        source("ws/b/src/lib.rs", "pub fn b_fn(){}\n"),
    ];
    let backward = vec![
        source("ws/b/src/lib.rs", "pub fn b_fn(){}\n"),
        source("ws/a/src/lib.rs", "pub fn a_fn(){}\n"),
    ];
    let q = "(function_item name: (identifier) @fn.name)";
    let res1 = execute_query(&forward, &roots, q, false).unwrap();
    let res2 = execute_query(&backward, &roots, q, false).unwrap();
    assert_eq!(res1, res2, "aggregation must not depend on file processing order");
}

#[test]
fn capture_positions_are_one_based() {
    let walk = entries(&["ws/Cargo.toml", "ws/src/lib.rs"]);
    let roots = discover_crate_roots(&walk);
    let files = vec![source("ws/src/lib.rs", "pub fn alpha(){}\n")];
    let q = "(function_item name: (identifier) @fn.name)";
    let res = execute_query(&files, &roots, q, false).unwrap();
    let cap = &res[0].captures[0];
    assert_eq!(cap.line, 1);
    assert_eq!(cap.column, 8, "identifier starts at 0-based column 7");
    assert_eq!(cap.name, "fn.name");
    assert_eq!(cap.text, "alpha");
    assert_eq!(cap.file, "ws/src/lib.rs");
    assert_eq!(cap.crate_path, "ws");
}

#[test]
fn file_outside_any_crate_lands_in_the_empty_group() {
    let walk = entries(&["ws/loose.rs"]);
    let roots = discover_crate_roots(&walk);
    let files = vec![source("ws/loose.rs", "pub fn stray(){}\n")];
    let q = "(function_item name: (identifier) @fn.name)";
    let res = execute_query(&files, &roots, q, false).unwrap();
    assert_eq!(res.len(), 1);
    assert_eq!(res[0].crate_path, "", "no owning crate means the empty identifier");
    assert_eq!(res[0].captures[0].text, "stray");
}

#[test]
fn rendered_report_is_byte_identical_across_runs() {
    let walk = entries(&["ws/a/Cargo.toml", "ws/a/src/lib.rs", "ws/b/Cargo.toml", "ws/b/src/lib.rs"]);
    let roots = discover_crate_roots(&walk);
    let files = vec![
        source("ws/a/src/lib.rs", "pub fn a_fn(){}\n"),
        source("ws/b/src/lib.rs", "pub fn b_fn(){}\n"),
    ];
    let rev_files: Vec<SourceText> = files.iter().rev().cloned().collect();
    let q = "(function_item name: (identifier) @fn.name)";
    let r1 = execute_query(&files, &roots, q, false).unwrap();
    let r2 = execute_query(&rev_files, &roots, q, false).unwrap();
    let t1 = arbol::render::render_query_text(&r1, false);
    let t2 = arbol::render::render_query_text(&r2, false);
    assert_eq!(t1, t2, "identical inputs must render byte-identically");
    assert_eq!(
        t1,
        "== Crate: ws/a ==\nws/a/src/lib.rs:1:8 fn.name a_fn\n\
         == Crate: ws/b ==\nws/b/src/lib.rs:1:8 fn.name b_fn\n\
         -- total captures: 2\n"
    );
}

#[test]
fn rendered_report_names_the_empty_group_root() {
    let walk = entries(&["ws/loose.rs"]);
    let roots = discover_crate_roots(&walk);
    let files = vec![source("ws/loose.rs", "pub fn stray(){}\n")];
    let q = "(function_item name: (identifier) @fn.name)";
    let res = execute_query(&files, &roots, q, true).unwrap();
    let text = arbol::render::render_query_text(&res, true);
    assert_eq!(
        text,
        "== Crate: (root) ==\nws/loose.rs:1:8 fn.name stray // pub fn stray(){}\n\
         -- total captures: 1\n"
    );
}

#[test]
fn context_line_is_trimmed() {
    let walk = entries(&["ws/Cargo.toml", "ws/src/lib.rs"]);
    let roots = discover_crate_roots(&walk);
    let files = vec![source("ws/src/lib.rs", "    pub fn padded(){}   \n")];
    let q = "(function_item name: (identifier) @fn.name)";
    let res = execute_query(&files, &roots, q, true).unwrap();
    assert_eq!(res[0].captures[0].line_text, "pub fn padded(){}");
}
