use agentsync_core::identity::Identity;
use agentsync_core::net::reconnect::{after_failed_attempt, backoff_delay, ReconnectOptions, RetryStep};
use agentsync_core::net::{
    authorized_diff,
    check_session, hub_on_hello_peer, hub_on_proof_peer, inbound_action, label_or_unlabeled, peer_on_hello_hub,
    peer_on_proof_hub, Frame, HelloOp, HelloPeerOutcome, InboundAction, ProofOutcome,
};
use agentsync_core::error::Error;
use agentsync_core::peers_md::AuthorizedPeer;

#[test]
fn backoff_doubles_and_caps() {
    assert_eq!(backoff_delay(500, 30_000, 1), 500);
    assert_eq!(backoff_delay(500, 30_000, 2), 1000);
    assert_eq!(backoff_delay(500, 30_000, 5), 8000);
    assert_eq!(backoff_delay(500, 30_000, 10), 30_000);
    assert_eq!(backoff_delay(u64::MAX, u64::MAX, 30), u64::MAX);
}

#[test]
fn retries_until_max_attempts() {
    let o = ReconnectOptions::default();
    assert_eq!(after_failed_attempt(&o, 1), RetryStep::RetryAfter(500));
    assert_eq!(after_failed_attempt(&o, 10), RetryStep::GiveUp);
}

#[test]
fn hub_accepts_only_authorized_peers() {
    let peer = Identity::generate();
    let other = Identity::generate();
    let hello = Frame::HelloPeer {
        peer_identity_pubkey: peer.pubkey().as_bytes().to_vec(),
        peer_nonce: vec![0u8; 32],
        op: HelloOp::Join,
    };
    match hub_on_hello_peer(&hello, &[peer.pubkey()]) {
        HelloPeerOutcome::Accept { pubkey, nonce } => {
            assert_eq!(pubkey, peer.pubkey());
            assert_eq!(nonce, vec![0u8; 32]);
        }
        _ => panic!("expected accept"),
    }
    assert!(matches!(
        hub_on_hello_peer(&hello, &[other.pubkey()]),
        HelloPeerOutcome::Refuse { error: Error::Auth(_), notify: Some(_) }
    ));
    let short = Frame::HelloPeer {
        peer_identity_pubkey: peer.pubkey().as_bytes().to_vec(),
        peer_nonce: vec![0u8; 3],
        op: HelloOp::Join,
    };
    assert!(matches!(
        hub_on_hello_peer(&short, &[peer.pubkey()]),
        HelloPeerOutcome::Refuse { error: Error::Protocol(_), notify: None }
    ));
    assert!(matches!(
        hub_on_hello_peer(&Frame::Ping { ts: 1 }, &[]),
        HelloPeerOutcome::Refuse { error: Error::Protocol(_), .. }
    ));
}

#[test]
fn proofs_check_signatures() {
    let peer = Identity::generate();
    let transcript = b"transcript";
    let sig = peer.sign(transcript).unwrap().to_vec();
    let good = Frame::ProofPeer { sig: sig.clone() };
    assert!(matches!(hub_on_proof_peer(&good, &peer.pubkey(), transcript), ProofOutcome::Verified));
    assert!(matches!(
        hub_on_proof_peer(&good, &peer.pubkey(), b"other"),
        ProofOutcome::Refuse { error: Error::Auth(_), .. }
    ));
    assert!(peer_on_proof_hub(&Frame::ProofHub { sig }, &peer.pubkey(), transcript).is_ok());
}

#[test]
fn peer_checks_cert_fingerprint() {
    let hub = Identity::generate();
    let fp = [7u8; 32];
    let hello = Frame::HelloHub {
        vault_id: "v1".into(),
        hub_identity_pubkey: hub.pubkey().as_bytes().to_vec(),
        hub_nonce: vec![1u8; 32],
        tls_cert_fingerprint: fp.to_vec(),
        vault_name: Some("notes".into()),
    };
    let h = peer_on_hello_hub(&hello, &fp).unwrap();
    assert_eq!(h.vault_id, "v1");
    assert_eq!(h.vault_name.as_deref(), Some("notes"));
    assert!(matches!(peer_on_hello_hub(&hello, &[8u8; 32]), Err(Error::Auth(_))));
    assert!(matches!(
        peer_on_hello_hub(&Frame::Error { message: "no".into() }, &fp),
        Err(Error::Auth(m)) if m == "no"
    ));
}

#[test]
fn inbound_frames_map_to_actions() {
    assert!(matches!(inbound_action(Frame::Ping { ts: 4 }), InboundAction::Reply(Frame::Pong { ts: 4 })));
    assert!(matches!(inbound_action(Frame::Pong { ts: 4 }), InboundAction::Ignore));
    assert!(matches!(inbound_action(Frame::Sync { bytes: vec![1] }), InboundAction::ApplySync { .. }));
    assert!(matches!(inbound_action(Frame::ProofHub { sig: vec![] }), InboundAction::Ignore));
    assert_eq!(label_or_unlabeled(""), "(unlabeled)");
    assert_eq!(label_or_unlabeled("bob"), "bob");
}

#[test]
fn authorized_diff_reports_additions_and_removals() {
    let a = Identity::generate().pubkey();
    let b = Identity::generate().pubkey();
    let c = Identity::generate().pubkey();
    let prev = vec![(a, "alice".to_string()), (b, "bob".to_string())];
    let same = vec![
        AuthorizedPeer { pubkey: b, label: "bob".into() },
        AuthorizedPeer { pubkey: a, label: "alice".into() },
    ];
    let d = authorized_diff(&prev, &same);
    assert!(d.added.is_empty() && d.removed.is_empty());
    let changed = vec![
        AuthorizedPeer { pubkey: a, label: "alice".into() },
        AuthorizedPeer { pubkey: c, label: "carol".into() },
    ];
    let d = authorized_diff(&prev, &changed);
    assert_eq!(d.added.len(), 1);
    assert_eq!(d.added[0].pubkey.0, c.0);
    assert_eq!(d.added[0].label, "carol");
    assert_eq!(d.removed.len(), 1);
    assert_eq!(d.removed[0].0 .0, b.0);
    assert_eq!(d.removed[0].1, "bob");
}

#[test]
fn handshake_refusals_carry_their_details() {
    let peer = Identity::generate();
    let other = Identity::generate();
    let pk = peer.pubkey();
    let fp = pk.fingerprint_sha256();
    let hello = Frame::HelloPeer {
        peer_identity_pubkey: pk.as_bytes().to_vec(),
        peer_nonce: vec![0u8; 32],
        op: HelloOp::Join,
    };
    match hub_on_hello_peer(&hello, &[other.pubkey()]) {
        HelloPeerOutcome::Refuse { error: Error::Auth(m), notify: Some(n) } => {
            assert_eq!(m, format!("peer not in authorized_keys: {}", fp));
            assert_eq!(n, format!("peer pubkey {} not authorized", fp));
        }
        _ => panic!("expected refusal"),
    }
    match hub_on_hello_peer(&Frame::Error { message: "boom".into() }, &[]) {
        HelloPeerOutcome::Refuse { error: Error::Protocol(m), notify: None } => {
            assert_eq!(m, "peer reported error: boom")
        }
        _ => panic!("expected refusal"),
    }
    let bad_key = Frame::HelloPeer { peer_identity_pubkey: vec![1, 2, 3], peer_nonce: vec![0u8; 32], op: HelloOp::Join };
    match hub_on_hello_peer(&bad_key, &[]) {
        HelloPeerOutcome::Refuse { error: Error::Auth(m), notify: None } => {
            assert_eq!(m, "pubkey wrong length: got 3 bytes, want 32")
        }
        _ => panic!("expected refusal"),
    }
    let hub_hello = Frame::HelloHub {
        vault_id: "v".into(),
        hub_identity_pubkey: pk.as_bytes().to_vec(),
        hub_nonce: vec![0u8; 32],
        tls_cert_fingerprint: vec![7u8; 5],
        vault_name: None,
    };
    match peer_on_hello_hub(&hub_hello, &[7u8; 32]) {
        Err(Error::Auth(m)) => assert_eq!(m, "tls cert fingerprint mismatch: advertised 5 bytes, observed 32"),
        other => panic!("unexpected {:?}", other.is_ok()),
    }
    match check_session(Some("mine"), None, "theirs", &pk) {
        Err(Error::Auth(m)) => assert_eq!(m, "vault_id mismatch: server reported theirs but local config has mine"),
        _ => panic!("expected refusal"),
    }
    let opk = other.pubkey();
    match check_session(None, Some(&opk), "v", &pk) {
        Err(Error::Auth(m)) => assert_eq!(
            m,
            format!(
                "hub identity mismatch: pinned {} but hub presented {}.\nEither the hub's identity key was rotated, or someone is impersonating it. Run `agentsync hub trust {}` to accept the new key, or `agentsync hub forget` to clear the pin.",
                opk.fingerprint_sha256(),
                fp,
                pk.to_ssh_string()
            )
        ),
        _ => panic!("expected refusal"),
    }
    assert!(check_session(Some("v"), Some(&pk), "v", &pk).is_ok());
}
