use arbol::fs::{collect_rust_files, is_eligible_file, should_skip};

fn entries(paths: &[&str]) -> Vec<String> {
    paths.iter().map(|p| p.to_string()).collect()
}

#[test]
fn collects_basic_rs_files_and_skips_ignored_and_generated() {
    let walk = entries(&[
        "ws/Cargo.toml",
        "ws/src/lib.rs",
        "ws/src/ignored.rs",
        "ws/tests/test_thing.rs",
        "ws/target/will_be_skipped.rs",
        "ws/generated/gen.rs",
        "ws/openapi/generated/api.rs",
        "ws/.gitignore",
    ]);
    let none: Vec<String> = Vec::new();

    let without_tests = collect_rust_files(&walk, "ws", false, &none);
    let with_tests = collect_rust_files(&walk, "ws", true, &none);

    let mut without: Vec<String> = without_tests
        .iter()
        .map(|p| p.strip_prefix("ws/").unwrap().to_string())
        .collect();
    without.sort();
    assert_eq!(
        without,
        vec!["src/ignored.rs", "src/lib.rs"],
        "no gitignore filtering: both files present"
    );

    let mut rels: Vec<String> = with_tests
        .iter()
        .map(|p| p.strip_prefix("ws/").unwrap().to_string())
        .collect();
    rels.sort();
    assert_eq!(
        rels,
        vec!["src/ignored.rs", "src/lib.rs", "tests/test_thing.rs"],
        "no gitignore filtering: tests flag adds tests plus all src files"
    );
}

#[test]
fn collects_with_skip_dirs_excludes_specified_paths() {
    let walk = entries(&[
        "/ws/Cargo.toml",
        "/ws/src/lib.rs",
        "/ws/src/skip_me/mod.rs",
        "/ws/examples/demo.rs",
    ]);
    // Provide skip dirs relative and absolute
    let skips = vec!["src/skip_me".to_string(), "/ws/examples".to_string()];
    let res = collect_rust_files(&walk, "/ws", false, &skips);
    let mut rels: Vec<String> = res
        .iter()
        .map(|p| p.strip_prefix("/ws/").unwrap().to_string())
        .collect();
    rels.sort();
    assert_eq!(rels, vec!["src/lib.rs"], "expected only lib.rs after skips");
}

#[test]
fn skip_excludes_subtree_and_leaves_siblings() {
    let walk = entries(&[
        "ws/src/lib.rs",
        "ws/src/generated_stuff/auto.rs",
        "ws/src/handwritten.rs",
    ]);
    let skips = vec!["src/generated_stuff".to_string()];
    let res = collect_rust_files(&walk, "ws", false, &skips);
    assert_eq!(
        res,
        vec!["ws/src/lib.rs".to_string(), "ws/src/handwritten.rs".to_string()],
        "skip must drop the subtree and keep siblings"
    );
}

#[test]
fn absolute_and_relative_skip_agree() {
    let rel_skips = vec!["src/hidden".to_string()];
    let abs_skips = vec!["/ws/src/hidden".to_string()];
    for path in ["/ws/src/hidden/a.rs", "/ws/src/hidden.rs", "/ws/src/visible/a.rs"] {
        let rel_hit = should_skip(path, "/ws", &rel_skips);
        let abs_hit = should_skip(path, "/ws", &abs_skips);
        // the absolute form never skips what the relative one keeps
        assert!(!abs_hit || rel_hit, "absolute skip wider than relative on {path}");
    }
    assert!(should_skip("/ws/src/hidden/a.rs", "/ws", &abs_skips));
    assert!(should_skip("/ws/src/hidden/a.rs", "/ws", &rel_skips));
    assert!(!should_skip("/ws/src/visible/a.rs", "/ws", &abs_skips));
    assert!(!should_skip("/ws/src/visible/a.rs", "/ws", &rel_skips));
}

#[test]
fn relative_skip_also_matches_by_substring() {
    let skips = vec!["kip_m".to_string()];
    assert!(
        should_skip("ws/src/skip_me/mod.rs", "ws", &skips),
        "a loose partial pattern matches by substring of the relative path"
    );
    assert!(!should_skip("ws/src/lib.rs", "ws", &skips));
}

#[test]
fn empty_skip_entries_match_nothing() {
    let skips = vec![String::new()];
    assert!(!should_skip("ws/src/lib.rs", "ws", &skips));
}

#[test]
fn eligibility_requires_source_extension() {
    let none: Vec<String> = Vec::new();
    assert!(is_eligible_file("ws/src/lib.rs", "ws", false, &none));
    assert!(!is_eligible_file("ws/Cargo.toml", "ws", false, &none));
    assert!(!is_eligible_file("ws/src/.rs", "ws", false, &none));
    assert!(!is_eligible_file("ws/src/data.json", "ws", false, &none));
    assert!(!is_eligible_file("ws/benches/bench_a.rs", "ws", false, &none));
    assert!(is_eligible_file("ws/benches/bench_a.rs", "ws", true, &none));
}
