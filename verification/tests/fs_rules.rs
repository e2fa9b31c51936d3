use agentsync_core::fs::binding::{glob_match, glob_match_any, BindOptions, Binding};
use agentsync_core::fs::suppression::DirtySet;

#[test]
fn glob_basics() {
    assert!(glob_match("*.md", "a.md"));
    assert!(!glob_match("*.md", "a.txt"));
    assert!(glob_match("**/.git/**", "x/y/.git/HEAD"));
    assert!(glob_match("**/*.md", "x/y/z.md"));
    assert!(glob_match("**/.agentsync/**", ".agentsync/doc.bin"));
}

#[test]
fn glob_any_of_several() {
    let pats = vec!["*.txt".to_string(), "*.md".to_string()];
    assert!(glob_match_any(&pats, "n.md"));
    assert!(!glob_match_any(&pats, "n.rs"));
}

#[test]
fn mark_and_consume() {
    let mut s = DirtySet::new();
    s.mark("a.md", "h1");
    assert!(s.check_and_consume("a.md", "h1"));
    assert!(!s.check_and_consume("a.md", "h1"));
}

#[test]
fn different_content_not_suppressed() {
    let mut s = DirtySet::new();
    s.mark("a.md", "h1");
    assert!(!s.check_and_consume("a.md", "h2"));
}

#[test]
fn marks_expire_after_five_seconds() {
    let mut s = DirtySet::new();
    s.mark_at("a.md", "h1", 1_000);
    assert!(!s.check_and_consume_at("a.md", "h1", 6_000));
    s.mark_at("a.md", "h1", 1_000);
    assert!(s.check_and_consume_at("a.md", "h1", 5_999));
}

#[test]
fn markdown_only_options() {
    let o = BindOptions::markdown_only();
    assert_eq!(o.text_extensions, vec!["md", "markdown"]);
    assert_eq!(o.include_patterns, vec!["**/*.md", "**/*.markdown"]);
    assert_eq!(o.exclude_patterns.len(), 4);
    assert_eq!(o.attachment_max_bytes, 10 * 1024 * 1024);
    assert_eq!(o.text_file_max_bytes, 1024 * 1024);
}

#[test]
fn for_extensions_normalizes() {
    let o = BindOptions::for_extensions(&[".TXT".to_string(), "..Md".to_string()]);
    assert_eq!(o.text_extensions, vec!["txt", "md"]);
    assert_eq!(o.include_patterns, vec!["**/*.txt", "**/*.md"]);
}

#[test]
fn binding_filters_paths() {
    let b = Binding::new("/v", BindOptions::markdown_only());
    assert!(b.path_allowed("notes/a.md"));
    assert!(!b.path_allowed("notes/a.txt"));
    assert!(b.path_allowed("authorized_keys"));
    assert!(!b.path_allowed(".git/HEAD.md"));
    assert!(b.dir_path_allowed("notes"));
    assert!(!b.dir_path_allowed("x/node_modules/y"));
}

#[test]
fn binding_maps_paths() {
    let b = Binding::new("/v/", BindOptions::markdown_only());
    assert_eq!(b.fs_path_to_vault_path("/v/a/b.md"), Some("a/b.md".to_string()));
    assert_eq!(b.fs_path_to_vault_path("/v"), None);
    assert_eq!(b.fs_path_to_vault_path("/w/a.md"), None);
    assert_eq!(b.fs_path_to_vault_path("/v/a.txt"), None);
    assert_eq!(b.fs_path_to_vault_dir_path("/v/a"), Some("a".to_string()));
    assert_eq!(b.vault_path_to_fs_path("a/b.md"), "/v/a/b.md");
}

#[test]
fn text_extension_and_size_limits() {
    let b = Binding::new("/v", BindOptions::markdown_only());
    assert!(b.is_text_extension("a/B.MD"));
    assert!(!b.is_text_extension("a/b.png"));
    assert!(b.is_text_extension("authorized_keys"));
    assert!(!b.is_text_extension(".bashrc"));
    assert!(b.over_size("a.md", 1024 * 1024 + 1));
    assert!(!b.over_size("a.png", 1024 * 1024 + 1));
}

#[test]
fn empty_extension_entry_makes_extensionless_files_text() {
    let mut o = BindOptions::markdown_only();
    o.text_extensions = vec!["md".to_string(), "".to_string()];
    let b = Binding::new("/v", o);
    assert!(b.is_text_extension("README"));
    assert!(b.is_text_extension(".bashrc"));
    assert!(b.is_text_extension("a.md"));
    assert!(!b.is_text_extension("a.png"));
    let plain = Binding::new("/v", BindOptions::markdown_only());
    assert!(!plain.is_text_extension("README"));
}

#[test]
fn monotonic_clock_marks_and_consumes() {
    let mut s = DirtySet::new();
    let t = s.elapsed_ms();
    assert!(t >= 0);
    s.mark_at("a.md", "h1", t);
    assert!(s.check_and_consume("a.md", "h1"));
    assert!(s.elapsed_ms() >= t);
}

#[test]
fn pattern_without_star_matches_only_itself() {
    assert!(glob_match("notes/a.md", "notes/a.md"));
    assert!(!glob_match("notes/a.md", "notes/a.mdx"));
    assert!(!glob_match("notes/a.md", "notes/a.m"));
    assert!(!glob_match("notes/a.md", "x/notes/a.md"));
    assert!(glob_match("", ""));
    assert!(!glob_match("", "a"));
}
