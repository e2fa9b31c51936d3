use agentsync_core::cli::resolve_args;
use agentsync_core::cli::resolve_args_with;

fn args(v: &[&str]) -> Vec<String> {
    v.iter().map(|s| s.to_string()).collect()
}

#[test]
fn empty_runs_watch() {
    assert_eq!(resolve_args(&[]), vec!["watch"]);
}

#[test]
fn known_subcommand_passthrough() {
    let raw = vec!["init".to_string()];
    assert_eq!(resolve_args(&raw), raw);
}

#[test]
fn flag_invokes_watch() {
    let raw = vec!["--listen".to_string(), "0.0.0.0:8443".to_string()];
    let out = resolve_args(&raw);
    assert_eq!(out[0], "watch");
    assert_eq!(out[1], "--listen");
}

#[test]
fn dot_path_invokes_watch_with_cwd() {
    let raw = vec!["./vault".to_string()];
    let out = resolve_args(&raw);
    assert_eq!(out, vec!["--cwd", "./vault", "watch"]);
}

#[test]
fn dot_path_with_subcommand_lifts_to_cwd() {
    let raw = vec!["./vault".to_string(), "status".to_string()];
    let out = resolve_args(&raw);
    assert_eq!(out, vec!["--cwd", "./vault", "status"]);
}

#[test]
fn cwd_then_subcommand_preserved() {
    let raw = vec!["--cwd".to_string(), "/tmp/v".to_string(), "init".to_string()];
    let out = resolve_args(&raw);
    assert_eq!(out, vec!["--cwd", "/tmp/v", "init"]);
}

#[test]
fn cwd_only_falls_through_to_watch() {
    let raw = vec!["--cwd".to_string(), "/tmp/v".to_string()];
    let out = resolve_args(&raw);
    assert_eq!(out, vec!["watch", "--cwd", "/tmp/v"]);
}

#[test]
fn help_flag_passes_through() {
    let raw = args(&["--help", "init"]);
    assert_eq!(resolve_args(&raw), raw);
}

#[test]
fn bare_word_lifts_only_when_on_disk() {
    let raw = args(&["myvault"]);
    assert_eq!(resolve_args_with(&raw, true), args(&["--cwd", "myvault", "watch"]));
    assert_eq!(resolve_args_with(&raw, false), args(&["watch", "myvault"]));
}

#[test]
fn cwd_equals_form_is_skipped() {
    let raw = args(&["--cwd=/tmp/v", "status"]);
    assert_eq!(resolve_args(&raw), raw);
}
