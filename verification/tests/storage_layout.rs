use agentsync_core::doc::history::{decode_b64_heads, Label};
use agentsync_core::cli::config::{
    resolve_hub_pubkey,
    config_path, default_storage_path, require_config, resolve_key, ConfigFile, SyncSection,
};
use agentsync_core::auth::encode_key;
use agentsync_core::error::Error;
use agentsync_core::store::{check_blob_hash, snapshot_entries, BlobStore, DocStore, SnapshotIndex};
use agentsync_core::tls::{cert_fingerprint, tls_dir_for_storage};
use agentsync_core::vault::{check_doc_vault_id, dirs_to_create, dirs_to_remove, is_safe_to_overwrite, may_delete, write_step, WriteStep};

#[test]
fn store_paths() {
    let b = BlobStore::new("/v/.agentsync");
    assert_eq!(b.blob_path("ab"), "/v/.agentsync/blobs/ab");
    let d = DocStore::new("/v/.agentsync");
    assert_eq!(d.doc_path(), "/v/.agentsync/doc.bin");
    assert_eq!(d.tmp_path(), "/v/.agentsync/doc.bin.tmp");
    let s = SnapshotIndex::new("/v/.agentsync");
    assert_eq!(s.path(), "/v/.agentsync/snapshots/index.json");
    assert_eq!(config_path("/v"), "/v/.agentsync/config.toml");
    assert_eq!(default_storage_path("/v"), "/v/.agentsync");
}

#[test]
fn blob_hash_check() {
    let h = agentsync_core::doc::content_hash(b"x");
    assert!(check_blob_hash(&h, b"x").is_ok());
    assert!(matches!(check_blob_hash(&h, b"y"), Err(Error::Other(_))));
}

#[test]
fn tls_dir_sits_beside_storage() {
    assert_eq!(tls_dir_for_storage("/v/.agentsync"), "/v/.agentsync-server");
    assert_eq!(tls_dir_for_storage("/v/.agentsync/"), "/v/.agentsync-server");
    assert_eq!(tls_dir_for_storage(".agentsync"), ".agentsync-server");
    assert_eq!(tls_dir_for_storage("/x"), "/.agentsync-server");
    assert_eq!(tls_dir_for_storage(""), "./.agentsync-server");
}

#[test]
fn generate_round_trips() {
    let cert = rcgen::generate_simple_self_signed(vec!["agentsync.local".to_string()]).unwrap();
    let der = cert.cert.der().to_vec();
    assert!(!der.is_empty());
    let fp = cert_fingerprint(&der);
    assert_eq!(fp.len(), 32);
    assert_eq!(fp, cert_fingerprint(&der));
}

#[test]
fn fingerprint_changes_per_cert() {
    let a = rcgen::generate_simple_self_signed(vec!["agentsync.local".to_string()]).unwrap();
    let b = rcgen::generate_simple_self_signed(vec!["agentsync.local".to_string()]).unwrap();
    assert_ne!(cert_fingerprint(a.cert.der()), cert_fingerprint(b.cert.der()));
}

#[test]
fn config_defaults_and_requirements() {
    let cfg = ConfigFile::default();
    match require_config("/v", cfg.clone()) {
        Err(Error::Config(m)) => assert_eq!(
            m,
            "no vault configured at /v \u{2014} run `agentsync init` or `agentsync clone` first"
        ),
        _ => panic!("expected a config error"),
    }
    let mut ok = cfg.clone();
    ok.vault.id = Some("vid".into());
    assert!(require_config("/v", ok).is_ok());
    let s = SyncSection::default();
    assert_eq!(s.log_retention_days, 30);
    let o = s.to_bind_options();
    assert_eq!(o.include_patterns, vec!["**/*.md", "**/*.markdown"]);
}

#[test]
fn sync_section_appends_extra_patterns_once() {
    let mut s = SyncSection::default();
    s.extensions = vec![".TXT".into()];
    s.includes = vec!["docs/**".into(), "**/*.txt".into(), "docs/**".into()];
    let o = s.to_bind_options();
    assert_eq!(o.text_extensions, vec!["txt"]);
    assert_eq!(o.include_patterns, vec!["**/*.txt", "docs/**"]);
}

#[test]
fn key_resolution_order() {
    let key = [3u8; 32];
    let text = encode_key(&key);
    let cfg = ConfigFile::default();
    assert_eq!(resolve_key(&cfg, Some(&text), None).unwrap(), key);
    assert_eq!(resolve_key(&cfg, None, Some(&text)).unwrap(), key);
    assert!(matches!(resolve_key(&cfg, None, None), Err(Error::Config(_))));
    let mut file_cfg = ConfigFile::default();
    file_cfg.key.source = Some("file".into());
    file_cfg.key.key_b64 = Some(text.clone());
    assert_eq!(resolve_key(&file_cfg, None, None).unwrap(), key);
    file_cfg.key.source = Some("vault".into());
    assert!(matches!(resolve_key(&file_cfg, None, None), Err(Error::Config(_))));
}

#[test]
fn materializer_decisions() {
    let t = "t".to_string();
    let d = "d".to_string();
    assert_eq!(write_step("t", Some(&t), None, None), WriteStep::UpToDate);
    assert_eq!(write_step("t", None, Some(&t), None), WriteStep::Record);
    assert_eq!(write_step("t", None, Some(&d), None), WriteStep::Defer);
    assert_eq!(write_step("t", Some(&d), Some(&d), None), WriteStep::Write);
    assert_eq!(write_step("t", None, None, None), WriteStep::Write);
    assert!(is_safe_to_overwrite("d", None, Some(&d)));
    assert!(!may_delete(None, Some(&d), None));
    assert!(may_delete(None, None, None));
}

#[test]
fn directories_created_parents_first() {
    let live = vec!["a/b".to_string(), "z".to_string(), "a".to_string(), "m/n/o".to_string()];
    let made = vec!["z".to_string()];
    assert_eq!(dirs_to_create(&live, &made), vec!["a", "a/b", "m/n/o"]);
}

#[test]
fn pinned_hub_key_is_read_from_config() {
    let mut cfg = ConfigFile::default();
    assert!(matches!(resolve_hub_pubkey(&cfg), Ok(None)));
    let id = agentsync_core::identity::Identity::generate();
    cfg.vault.hub_pubkey = Some(id.pubkey().to_ssh_string());
    let pk = resolve_hub_pubkey(&cfg).unwrap().unwrap();
    assert_eq!(pk.0, id.pubkey().0);
    cfg.vault.hub_pubkey = Some("ssh-rsa AAAA".to_string());
    assert!(matches!(resolve_hub_pubkey(&cfg), Err(Error::Auth(_))));
}

#[test]
fn snapshot_index_entries() {
    let labels = vec![
        Label { name: "before-refactor".to_string(), heads: vec![[5u8; 32], [6u8; 32]], created_at: 42 },
        Label { name: "empty".to_string(), heads: vec![], created_at: 7 },
    ];
    let entries = snapshot_entries(&labels);
    assert_eq!(entries.len(), 2);
    assert_eq!(entries[0].label, "before-refactor");
    assert_eq!(entries[0].created_at, 42);
    assert_eq!(decode_b64_heads(&entries[0].heads).unwrap(), vec![[5u8; 32], [6u8; 32]]);
    assert_eq!(entries[1].heads, "");
}

#[test]
fn stored_document_must_belong_to_the_vault() {
    assert!(check_doc_vault_id(Some("v1"), "v1").is_ok());
    assert!(check_doc_vault_id(None, "v1").is_ok());
    assert!(matches!(check_doc_vault_id(Some("v2"), "v1"), Err(Error::Vault(_))));
}

#[test]
fn tls_dir_follows_path_parent() {
    assert_eq!(tls_dir_for_storage("/v/.agentsync"), "/v/.agentsync-server");
    assert_eq!(tls_dir_for_storage("a/."), ".agentsync-server");
    assert_eq!(tls_dir_for_storage("/v/.agentsync/."), "/v/.agentsync-server");
    assert_eq!(tls_dir_for_storage("/./b"), "/.agentsync-server");
    assert_eq!(tls_dir_for_storage("x"), ".agentsync-server");
    assert_eq!(tls_dir_for_storage("/"), "./.agentsync-server");
}

#[test]
fn stale_directories_are_removed_deepest_first() {
    let live = vec!["a".to_string()];
    let done = vec!["a".to_string(), "b".to_string(), "b/c".to_string()];
    assert_eq!(dirs_to_remove(&live, &done), vec!["b/c".to_string(), "b".to_string()]);
    assert!(dirs_to_remove(&done, &done).is_empty());
}
