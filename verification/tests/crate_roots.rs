use arbol::workspace::{crate_for_file, discover_crate_roots};

fn entries(paths: &[&str]) -> Vec<String> {
    paths.iter().map(|p| p.to_string()).collect()
}

#[test]
fn discovers_crate_roots_deepest_first() {
    let walk = entries(&["ws/outer/Cargo.toml", "ws/outer/inner/Cargo.toml"]);
    let crates = discover_crate_roots(&walk);
    let display: Vec<String> = crates
        .iter()
        .map(|p| p.strip_prefix("ws/").unwrap().to_string())
        .collect();
    // Expect inner (longer path) first, then outer
    assert_eq!(
        display,
        vec!["outer/inner", "outer"],
        "deepest crate path should be first"
    );
}

#[test]
fn crate_for_file_picks_deepest_match() {
    let walk = entries(&[
        "ws/outer/Cargo.toml",
        "ws/outer/inner/Cargo.toml",
        "ws/outer/inner/src/lib.rs",
    ]);
    let crates = discover_crate_roots(&walk);
    let found = crate_for_file("ws/outer/inner/src/lib.rs", &crates).unwrap();
    assert!(
        found.ends_with("outer/inner"),
        "expected deepest crate root, got {found}"
    );
}

#[test]
fn crate_for_file_none_when_outside() {
    let walk = entries(&["ws/a/Cargo.toml", "ws/no_crate/file.rs"]);
    let crates = discover_crate_roots(&walk);
    let res = crate_for_file("ws/no_crate/file.rs", &crates);
    assert!(res.is_none(), "file outside crate roots should yield None");
}

#[test]
fn crate_for_file_sibling_crates_stay_apart() {
    let walk = entries(&["ws/a/Cargo.toml", "ws/b/Cargo.toml"]);
    let crates = discover_crate_roots(&walk);
    assert_eq!(
        crate_for_file("ws/a/src/lib.rs", &crates).unwrap(),
        "ws/a".to_string()
    );
    assert_eq!(
        crate_for_file("ws/b/src/lib.rs", &crates).unwrap(),
        "ws/b".to_string()
    );
}

#[test]
fn manifest_at_walk_root_owns_everything_under_it() {
    let walk = entries(&["ws/Cargo.toml", "ws/src/lib.rs"]);
    let crates = discover_crate_roots(&walk);
    assert_eq!(crate_for_file("ws/src/lib.rs", &crates).unwrap(), "ws".to_string());
}
