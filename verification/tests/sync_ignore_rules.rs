use agentsync_core::fs::sync_ignore::{
    is_skipped_dir, is_syncignore, resolve_verdicts, SyncIgnoreSet, Verdict,
};

/// A `.syncignore` in `dir`, `depth` below the vault root, with `body`.
fn file(dir: &str, depth: usize, body: &str) -> (String, usize, String) {
    (dir.to_string(), depth, body.to_string())
}

#[test]
fn later_verdicts_win() {
    assert!(!resolve_verdicts(&[]));
    assert!(resolve_verdicts(&[Verdict::Ignore, Verdict::Unmatched]));
    assert!(!resolve_verdicts(&[Verdict::Ignore, Verdict::Whitelist]));
    assert!(resolve_verdicts(&[Verdict::Whitelist, Verdict::Ignore]));
}

#[test]
fn nested_matchers_apply_deepest_last() {
    let set = SyncIgnoreSet::from_files("/v", &[file("/v/sub", 1, "private/\n"), file("/v", 0, "*.tmp\n")]);
    assert!(set.matches("a.tmp", false));
    assert!(set.matches("sub/a.tmp", false));
    assert!(set.matches("sub/private/x", false));
    assert!(!set.matches("private/x", false));
    assert!(!set.matches("notes.md", false));
}

#[test]
fn empty_set_ignores_nothing() {
    let set = SyncIgnoreSet::empty("/v");
    assert!(set.is_empty());
    assert!(!set.matches("foo.md", false));
}

#[test]
fn names_of_special_entries() {
    assert!(is_syncignore("/v/sub/.syncignore"));
    assert!(!is_syncignore("/v/sub/syncignore"));
    assert!(is_skipped_dir("/v/.git", "/v"));
    assert!(is_skipped_dir("/v/a/node_modules", "/v"));
    assert!(!is_skipped_dir("/v", "/v"));
    assert!(!is_skipped_dir("/v/src", "/v"));
}

#[test]
fn empty_when_no_files() {
    let set = SyncIgnoreSet::from_files("/v", &[]);
    assert!(set.is_empty());
    assert!(!set.matches("foo.md", false));
}

#[test]
fn simple_pattern_excludes_file() {
    let set = SyncIgnoreSet::from_files("/v", &[file("/v", 0, "secret.md\n")]);
    assert!(set.matches("secret.md", false));
    assert!(!set.matches("public.md", false));
}

#[test]
fn directory_pattern_excludes_children() {
    let set = SyncIgnoreSet::from_files("/v", &[file("/v", 0, "build/\n")]);
    assert!(set.matches("build", true));
    assert!(set.matches("build/output.txt", false));
}

#[test]
fn negation_overrides_earlier_pattern() {
    let set = SyncIgnoreSet::from_files("/v", &[file("/v", 0, "*.log\n!keep.log\n")]);
    assert!(set.matches("foo.log", false));
    assert!(!set.matches("keep.log", false));
}

#[test]
fn nested_syncignore_anchors_to_its_directory() {
    let set = SyncIgnoreSet::from_files("/v", &[file("/v", 0, "*.tmp\n"), file("/v/sub", 1, "private/\n")]);
    assert!(set.matches("a.tmp", false));
    assert!(set.matches("sub/a.tmp", false));
    assert!(set.matches("sub/private/x", false));
    assert!(!set.matches("private/x", false));
}

#[test]
fn skips_well_known_dirs() {
    // A `.syncignore` under `.git/` is never read, so nothing is loaded.
    assert!(is_skipped_dir("/v/.git", "/v"));
    let set = SyncIgnoreSet::from_files("/v", &[]);
    assert!(set.is_empty());
}

#[test]
fn refused_rules_skip_the_file() {
    // An unclosed character class is not a valid glob: that file is skipped.
    let set = SyncIgnoreSet::from_files("/v", &[file("/v", 0, "[\n"), file("/v/sub", 1, "*.md\n")]);
    assert!(!set.is_empty());
    assert!(set.matches("sub/a.md", false));
    assert!(!set.matches("a.md", false));
}

#[test]
fn doubled_slash_and_absolute_paths_do_not_panic() {
    let set = SyncIgnoreSet::from_files("/v", &[file("/v", 0, "*.tmp\n")]);
    // `/v` joined with an absolute path is that path; `/v//a.tmp` is not
    // something the matcher rooted at `/v` can take, so it gives no verdict.
    assert!(!set.matches("/v//a.tmp", false));
    assert!(!set.matches("/elsewhere/a.tmp", false));
    assert!(set.matches("/v/a.tmp", false));
    assert!(set.matches("x//a.tmp", false));
}

#[test]
fn byte_order_mark_is_not_part_of_the_first_rule() {
    let set = SyncIgnoreSet::from_files("/v", &[file("/v", 0, "\u{feff}secret.md\n")]);
    assert!(set.matches("secret.md", false));
}
