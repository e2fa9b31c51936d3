use agentsync_core::cli::setup::{
    clone_target_usable, default_name_from_path, default_target_dir, ensure_ignore_entry, pubkey_arg_is_literal,
    pubkey_from_file_text, target_dir_from,
};
use agentsync_core::error::Error;

#[test]
fn vault_name_is_the_last_component() {
    assert_eq!(default_name_from_path("/home/me/notes"), Some("notes".to_string()));
    assert_eq!(default_name_from_path("/home/me/notes/"), Some("notes".to_string()));
    assert_eq!(default_name_from_path("/"), None);
    assert_eq!(default_name_from_path(""), None);
    assert_eq!(default_name_from_path(".."), None);
}

#[test]
fn ignore_entry_added_once() {
    assert_eq!(ensure_ignore_entry(None, ".agentsync/"), Some(".agentsync/\n".to_string()));
    assert_eq!(
        ensure_ignore_entry(Some("target"), ".agentsync/"),
        Some("target\n.agentsync/\n".to_string())
    );
    assert_eq!(
        ensure_ignore_entry(Some("target\n"), ".agentsync/"),
        Some("target\n.agentsync/\n".to_string())
    );
    assert_eq!(ensure_ignore_entry(Some("a\n  .agentsync/  \r\nb"), ".agentsync/"), None);
    assert_eq!(ensure_ignore_entry(Some(""), "x"), Some("x\n".to_string()));
}

#[test]
fn clone_dir_prefers_remote_name() {
    assert_eq!(default_target_dir("wss://hub.example.com:8443", Some("  notes ")).unwrap(), "notes");
    assert_eq!(default_target_dir("wss://hub.example.com:8443", Some("   ")).unwrap(), "hub.example.com");
    assert_eq!(default_target_dir("wss://hub.example.com", None).unwrap(), "hub.example.com");
    assert!(matches!(default_target_dir("not a url", None), Err(Error::Config(_))));
    assert!(matches!(target_dir_from(None, Some("")), Err(Error::Config(_))));
    assert_eq!(target_dir_from(None, Some("a.b")).unwrap(), "a.b");
}

#[test]
fn pubkey_argument_forms() {
    assert!(pubkey_arg_is_literal("ssh-ed25519 AAAA"));
    assert!(!pubkey_arg_is_literal("/home/me/.agentsync/id_ed25519.pub"));
    assert_eq!(
        pubkey_from_file_text("k.pub", "  ssh-ed25519 AAAA me  \nsecond\n").unwrap(),
        "ssh-ed25519 AAAA me"
    );
    assert_eq!(pubkey_from_file_text("k.pub", "\n").unwrap(), "");
    assert!(matches!(pubkey_from_file_text("k.pub", ""), Err(Error::Config(_))));
}

#[test]
fn ignore_entry_second_call_writes_nothing() {
    for start in [None, Some(""), Some("target"), Some("target\n"), Some("x\r\ny")] {
        let once = ensure_ignore_entry(start, ".agentsync/").unwrap();
        assert_eq!(ensure_ignore_entry(Some(&once), ".agentsync/"), None);
    }
}

#[test]
fn clone_target_must_hold_only_the_storage_dir() {
    assert!(clone_target_usable(&[]));
    assert!(clone_target_usable(&[".agentsync".to_string()]));
    assert!(!clone_target_usable(&[".agentsync".to_string(), "notes.md".to_string()]));
}
