use agentsync_core::error::Error;
use agentsync_core::identity::{Identity, Pubkey};
use agentsync_core::peers_md::{parse_authorized_keys, render_authorized_keys, AuthorizedPeer};

#[test]
fn sign_verify_round_trip_file() {
    let id = Identity::generate();
    let pk = id.pubkey();
    let msg = b"hello";
    let sig = id.sign(msg).unwrap();
    assert!(pk.verify(msg, &sig));
    assert!(!pk.verify(b"hello!", &sig));
}

#[test]
fn pubkey_ssh_round_trip() {
    let id = Identity::generate();
    let s = id.pubkey().to_ssh_string();
    assert!(s.starts_with("ssh-ed25519 "));
    let pk = Pubkey::from_ssh_string(&s).unwrap();
    assert_eq!(pk, id.pubkey());
}

#[test]
fn pubkey_rejects_wrong_type() {
    let err = Pubkey::from_ssh_string("ssh-rsa AAAA").unwrap_err();
    assert!(matches!(err, Error::Auth(_)));
}

#[test]
fn fingerprint_format() {
    let id = Identity::generate();
    let fp = id.pubkey().fingerprint_sha256();
    assert!(fp.starts_with("SHA256:"));
    assert_eq!(fp.len(), 50);
}

#[test]
fn save_load_round_trip() {
    let id = Identity::generate();
    let text = id.to_file_contents().unwrap();
    let loaded = Identity::from_file_contents(text.as_bytes()).unwrap();
    assert_eq!(loaded.pubkey(), id.pubkey());
}

#[test]
fn agent_identity_has_no_seed() {
    let id = Identity::from_agent("/tmp/no-such.sock".to_string(), Identity::generate().pubkey());
    assert!(id.seed().is_err());
    assert!(id.sign(b"x").is_none());
}

#[test]
fn from_seed_is_deterministic() {
    let a = Identity::from_seed([9u8; 32]);
    let b = Identity::from_seed([9u8; 32]);
    assert_eq!(a.pubkey(), b.pubkey());
    assert_eq!(a.sign(b"m").unwrap().to_vec(), b.sign(b"m").unwrap().to_vec());
}

#[test]
fn identity_file_rejects_garbage() {
    assert!(Identity::from_file_contents(b"not an identity").is_err());
    assert!(matches!(Identity::from_file_contents(&[0xff, 0xfe]), Err(Error::InvalidUtf8)));
}

#[test]
fn parse_ssh_style_with_label() {
    let id = Identity::generate();
    let line = format!("{} alice", id.pubkey().to_ssh_string());
    let parsed = parse_authorized_keys(&line);
    assert_eq!(parsed.len(), 1);
    assert_eq!(parsed[0].pubkey, id.pubkey());
    assert_eq!(parsed[0].label, "alice");
}

#[test]
fn parse_ssh_style_no_label() {
    let id = Identity::generate();
    let line = id.pubkey().to_ssh_string();
    let parsed = parse_authorized_keys(&line);
    assert_eq!(parsed.len(), 1);
    assert_eq!(parsed[0].label, "");
}

#[test]
fn ignores_comments_and_blank_lines() {
    let id = Identity::generate();
    let body = format!(
        "# top comment\n\n   # indented comment\n{} alice\n",
        id.pubkey().to_ssh_string()
    );
    let parsed = parse_authorized_keys(&body);
    assert_eq!(parsed.len(), 1);
}

#[test]
fn accepts_legacy_markdown_bullet_form() {
    let id = Identity::generate();
    let line = format!("- `{}` — bob", id.pubkey().to_ssh_string());
    let parsed = parse_authorized_keys(&line);
    assert_eq!(parsed.len(), 1);
    assert_eq!(parsed[0].label, "bob");
}

#[test]
fn render_round_trips() {
    let id = Identity::generate();
    let peers = vec![AuthorizedPeer { pubkey: id.pubkey(), label: "alice".into() }];
    let rendered = render_authorized_keys(&peers);
    let parsed = parse_authorized_keys(&rendered);
    assert_eq!(parsed.len(), 1);
    assert_eq!(parsed[0].pubkey, id.pubkey());
    assert_eq!(parsed[0].label, "alice");
}

#[test]
fn render_emits_ssh_style_no_markdown() {
    let id = Identity::generate();
    let peers = vec![AuthorizedPeer { pubkey: id.pubkey(), label: "alice".into() }];
    let body = render_authorized_keys(&peers);
    assert!(!body.contains("- `"), "must not use markdown bullets");
    assert!(body.contains("ssh-ed25519 "));
}

#[test]
fn describe_hides_the_seed() {
    let id = Identity::from_seed([7u8; 32]);
    let shown = id.describe();
    assert_eq!(shown, format!("Identity::File({})", id.pubkey().to_ssh_string()));
    let agent = Identity::from_agent("/tmp/agent.sock".to_string(), id.pubkey());
    assert_eq!(
        agent.describe(),
        format!("Identity::Agent({} via /tmp/agent.sock)", id.pubkey().to_ssh_string())
    );
}
