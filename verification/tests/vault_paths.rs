use agentsync_core::path::{ancestors, normalize, parent, under};

#[test]
fn basic_normalization() {
    assert_eq!(normalize("a/b/c.md").unwrap(), "a/b/c.md");
    assert_eq!(normalize("a\\b\\c.md").unwrap(), "a/b/c.md");
    assert_eq!(normalize("./a/./b").unwrap(), "a/b");
    assert_eq!(normalize("a//b").unwrap(), "a/b");
}

#[test]
fn rejects_traversal() {
    assert!(normalize("../a").is_err());
    assert!(normalize("a/../b").is_err());
    assert!(normalize("/a").is_err());
    assert!(normalize("").is_err());
}

#[test]
fn ancestors_of() {
    assert_eq!(ancestors("a/b/c"), vec!["a".to_string(), "a/b".to_string()]);
    assert_eq!(ancestors("a"), Vec::<String>::new());
}

#[test]
fn under_works() {
    assert!(under("a", "a/b"));
    assert!(under("a", "a"));
    assert!(!under("a", "ab"));
    assert!(under("", "anything"));
}

#[test]
fn normalize_refuses_nul_and_empty_results() {
    assert!(normalize("a/\0b").is_err());
    assert!(normalize("./.").is_err());
    assert!(normalize("//").is_err());
}

#[test]
fn normalize_composes_unicode() {
    // "e" followed by a combining acute accent becomes the single "é".
    assert_eq!(normalize("cafe\u{301}.md").unwrap(), "caf\u{e9}.md");
}

#[test]
fn parent_of_paths() {
    assert_eq!(parent("a/b/c.md"), "a/b");
    assert_eq!(parent("c.md"), "");
    assert_eq!(parent("a/"), "a");
}

#[test]
fn last_ancestor_is_parent() {
    let p = "x/y/z.md";
    let a = ancestors(p);
    assert_eq!(a.last().unwrap(), parent(p));
    assert_eq!(ancestors(parent(p)), a[..a.len() - 1].to_vec());
}

#[test]
fn under_is_transitive_on_an_example() {
    assert!(under("a", "a/b") && under("a/b", "a/b/c") && under("a", "a/b/c"));
}

#[test]
fn paths_are_composed_to_nfc() {
    let decomposed = "notes/cafe\u{301}.md";
    let composed = "notes/caf\u{e9}.md";
    assert_eq!(normalize(decomposed).unwrap(), composed);
    assert_eq!(normalize(composed).unwrap(), composed);
}

#[test]
fn normalizing_twice_changes_nothing() {
    for input in ["./a//b/", "a\\b\\c.md", "x/./y", "caf\u{e9}/n.md", "cafe\u{301}/n.md"] {
        let once = normalize(input).unwrap();
        assert_eq!(normalize(&once).unwrap(), once);
    }
    assert_eq!(normalize("cafe\u{301}").unwrap(), "caf\u{e9}");
}
