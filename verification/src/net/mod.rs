//! The wire protocol between peers and the hub, as plain data, and the
//! decisions each side takes on the frames it receives. Encoding frames,
//! sockets and timers are the caller's.

pub mod endpoint;
pub mod reconnect;

use crate::error::Error;
use crate::identity::{Pubkey, ed25519_verifies, fingerprint_text, pubkey_length_message, ssh_pubkey_text};
use crate::text::{chars_of, decimal, extend_chars, extend_decimal, extend_lit, string_of};
use crate::peers_md::{peer_entries, AuthorizedPeer};
use vstd::prelude::*;

verus! {

/// Length of a handshake nonce, in bytes.
pub const NONCE_LEN: usize = 32;

/// What a peer asks of the hub.
#[derive(Clone, Copy, Debug, PartialEq, Eq, Structural)]
pub enum HelloOp {
    Join,
    Create,
}

/// One protocol message.
#[derive(Clone, Debug)]
pub enum Frame {
    /// Hub to peer, first: the vault id, the hub's identity key, its nonce,
    /// the SHA-256 fingerprint of its TLS certificate, and the vault's name.
    HelloHub {
        vault_id: String,
        hub_identity_pubkey: Vec<u8>,
        hub_nonce: Vec<u8>,
        tls_cert_fingerprint: Vec<u8>,
        vault_name: Option<String>,
    },
    /// Peer to hub, second: the peer's identity key and nonce.
    HelloPeer { peer_identity_pubkey: Vec<u8>, peer_nonce: Vec<u8>, op: HelloOp },
    /// Hub to peer, third: the hub's signature over the transcript.
    ProofHub { sig: Vec<u8> },
    /// Peer to hub, fourth: the peer's signature over the transcript.
    ProofPeer { sig: Vec<u8> },
    /// An opaque document sync message.
    Sync { bytes: Vec<u8> },
    /// A request for the blob with this hash.
    BlobFetch { hash: String },
    /// A blob.
    BlobPush { hash: String, bytes: Vec<u8> },
    Ping { ts: i64 },
    Pong { ts: i64 },
    Error { message: String },
}

/// What the hub makes of the peer's hello.
pub enum HelloPeerOutcome {
    /// An authorized peer with its key and nonce.
    Accept { pubkey: Pubkey, nonce: Vec<u8> },
    /// The handshake ends with `error`; when `notify` is set the peer is
    /// told that message first.
    Refuse { error: Error, notify: Option<String> },
}

/// Whether `pk` is among `authorized`.
pub open spec fn is_authorized(authorized: Seq<Pubkey>, pk: Seq<u8>) -> bool {
    exists|i: int| 0 <= i < authorized.len() && (#[trigger] authorized[i]).0@ == pk
}

/// The hub's refusal of a peer whose key is not listed.
pub open spec fn not_authorized_message(pk: Seq<u8>) -> Seq<char> {
    "peer not in authorized_keys: "@ + fingerprint_text(pk)
}

/// What the hub tells a peer whose key is not listed.
pub open spec fn not_authorized_notice(pk: Seq<u8>) -> Seq<char> {
    "peer pubkey "@ + fingerprint_text(pk) + " not authorized"@
}

/// The hub's record of an error frame sent by the peer.
pub open spec fn peer_error_message(message: Seq<char>) -> Seq<char> {
    "peer reported error: "@ + message
}

/// The peer's refusal of a hello whose certificate fingerprint differs from
/// the 32-byte one seen on the TLS connection.
pub open spec fn fingerprint_mismatch_message(advertised_len: nat) -> Seq<char> {
    "tls cert fingerprint mismatch: advertised "@ + decimal(advertised_len) + " bytes, observed 32"@
}

/// The peer's refusal of a hub serving another vault.
pub open spec fn vault_id_mismatch_message(reported: Seq<char>, configured: Seq<char>) -> Seq<char> {
    "vault_id mismatch: server reported "@ + reported + " but local config has "@ + configured
}

/// The peer's refusal of a hub whose key is not the pinned one.
pub open spec fn hub_mismatch_message(pinned: Seq<u8>, presented: Seq<u8>) -> Seq<char> {
    "hub identity mismatch: pinned "@ + fingerprint_text(pinned) + " but hub presented "@ + fingerprint_text(
        presented,
    ) + ".\nEither the hub's identity key was rotated, or someone is impersonating it. Run `agentsync hub trust "@
        + ssh_pubkey_text(presented)
        + "` to accept the new key, or `agentsync hub forget` to clear the pin."@
}

fn text_of_parts(a: &str, b: &str, c: &str) -> (r: String)
    ensures
        r@ == a@ + b@ + c@,
{
    let mut m: Vec<char> = Vec::new();
    extend_lit(&mut m, a);
    extend_lit(&mut m, b);
    extend_lit(&mut m, c);
    string_of(m.as_slice())
}

fn text_of_parts_4(a: &str, b: &str, c: &str, d: &str) -> (r: String)
    ensures
        r@ == a@ + b@ + c@ + d@,
{
    let mut m: Vec<char> = Vec::new();
    extend_lit(&mut m, a);
    extend_lit(&mut m, b);
    extend_lit(&mut m, c);
    extend_lit(&mut m, d);
    string_of(m.as_slice())
}

/// The hub's decision on the frame that should be the peer's hello: a
/// well-formed key and nonce from an authorized peer are accepted; an
/// unknown key is refused and the peer told so; anything else ends the
/// handshake.
pub fn hub_on_hello_peer(frame: &Frame, authorized: &[Pubkey]) -> (r: HelloPeerOutcome)
    ensures
        match frame {
            Frame::HelloPeer { peer_identity_pubkey: pk, peer_nonce: n, .. } => if pk@.len() != 32 {
                r matches HelloPeerOutcome::Refuse { error: Error::Auth(m), notify: None } && m@
                    == pubkey_length_message(pk@.len())
            } else if n@.len() != NONCE_LEN {
                r matches HelloPeerOutcome::Refuse { error: Error::Protocol(m), notify: None } && m@
                    == "peer nonce wrong length"@
            } else if !is_authorized(authorized@, pk@) {
                r matches HelloPeerOutcome::Refuse { error: Error::Auth(m), notify: Some(t) } && m@
                    == not_authorized_message(pk@) && t@ == not_authorized_notice(pk@)
            } else {
                r matches HelloPeerOutcome::Accept { pubkey, nonce } && pubkey.0@ == pk@ && nonce@ == n@
            },
            Frame::Error { message } => r matches HelloPeerOutcome::Refuse {
                error: Error::Protocol(m),
                notify: None,
            } && m@ == peer_error_message(message@),
            _ => r matches HelloPeerOutcome::Refuse { error: Error::Protocol(m), notify: None } && m@
                == "expected HelloPeer"@,
        },
{
    match frame {
        Frame::HelloPeer { peer_identity_pubkey, peer_nonce, op: _ } => {
            let pk = match Pubkey::from_bytes(peer_identity_pubkey.as_slice()) {
                Ok(pk) => pk,
                Err(e) => return HelloPeerOutcome::Refuse { error: e, notify: None },
            };
            if peer_nonce.len() != NONCE_LEN {
                return HelloPeerOutcome::Refuse {
                    error: Error::Protocol(String::from_str("peer nonce wrong length")),
                    notify: None,
                };
            }
            if contains_pubkey(authorized, &pk) {
                return HelloPeerOutcome::Accept { pubkey: pk, nonce: clone_bytes(peer_nonce) };
            }
            let fp = pk.fingerprint_sha256();
            proof {
                reveal_strlit("");
                assert(fp@ + ""@ =~= fp@);
            }
            HelloPeerOutcome::Refuse {
                error: Error::Auth(text_of_parts("peer not in authorized_keys: ", fp.as_str(), "")),
                notify: Some(text_of_parts("peer pubkey ", fp.as_str(), " not authorized")),
            }
        },
        Frame::Error { message } => {
            proof {
                reveal_strlit("");
                assert(message@ + ""@ =~= message@);
            }
            HelloPeerOutcome::Refuse {
                error: Error::Protocol(text_of_parts("peer reported error: ", message.as_str(), "")),
                notify: None,
            }
        },
        _ => HelloPeerOutcome::Refuse {
            error: Error::Protocol(String::from_str("expected HelloPeer")),
            notify: None,
        },
    }
}

/// Whether `pk` is among `authorized`.
pub fn contains_pubkey(authorized: &[Pubkey], pk: &Pubkey) -> (r: bool)
    ensures
        r == is_authorized(authorized@, pk.0@),
{
    let mut i: usize = 0;
    while i < authorized.len()
        invariant
            i <= authorized@.len(),
            forall|k: int| 0 <= k < i ==> (#[trigger] authorized@[k]).0@ != pk.0@,
        decreases authorized@.len() - i,
    {
        if pubkey_eq(&authorized[i], pk) {
            assert(authorized@[i as int].0@ == pk.0@);
            return true;
        }
        i = i + 1;
    }
    false
}

fn same_fingerprint(a: &Vec<u8>, b: &[u8; 32]) -> (r: bool)
    ensures
        r == (a@ == b@),
{
    if a.len() != 32 {
        return false;
    }
    let mut k: usize = 0;
    while k < 32
        invariant
            k <= 32,
            a@.len() == 32,
            forall|j: int| 0 <= j < k ==> a@[j] == b@[j],
        decreases 32 - k,
    {
        if a[k] != b[k] {
            assert(a@[k as int] != b@[k as int]);
            return false;
        }
        k = k + 1;
    }
    assert(a@ =~= b@);
    true
}

fn pubkey_eq(a: &Pubkey, b: &Pubkey) -> (r: bool)
    ensures
        r == (a.0@ == b.0@),
{
    let mut k: usize = 0;
    while k < 32
        invariant
            k <= 32,
            forall|j: int| 0 <= j < k ==> a.0@[j] == b.0@[j],
        decreases 32 - k,
    {
        if a.0[k] != b.0[k] {
            return false;
        }
        k = k + 1;
    }
    assert(a.0@ =~= b.0@);
    true
}

fn clone_bytes(v: &Vec<u8>) -> (r: Vec<u8>)
    ensures
        r@ == v@,
{
    let mut out: Vec<u8> = Vec::new();
    let mut i: usize = 0;
    while i < v.len()
        invariant
            i <= v@.len(),
            out@ == v@.take(i as int),
        decreases v@.len() - i,
    {
        out.push(v[i]);
        i = i + 1;
        assert(out@ =~= v@.take(i as int));
    }
    assert(v@.take(v@.len() as int) =~= v@);
    out
}

/// What a side makes of the other's signature frame.
pub enum ProofOutcome {
    /// The signature holds: the handshake is done.
    Verified,
    /// The handshake ends with `error`; when `notify` is set the other side
    /// is told that message first.
    Refuse { error: Error, notify: Option<String> },
}

/// The hub's decision on the frame that should be the peer's proof: a
/// signature by the peer's key over `transcript` completes the handshake.
pub fn hub_on_proof_peer(frame: &Frame, peer: &Pubkey, transcript: &[u8]) -> (r: ProofOutcome)
    ensures
        match frame {
            Frame::ProofPeer { sig } => if sig@.len() == 64 && ed25519_verifies(peer.0@, transcript@, sig@) {
                r is Verified
            } else {
                r matches ProofOutcome::Refuse { error: Error::Auth(m), notify: Some(t) } && m@
                    == "peer signature failed verification"@ && t@ == "peer signature failed verification"@
            },
            Frame::Error { message } => r matches ProofOutcome::Refuse {
                error: Error::Protocol(m),
                notify: None,
            } && m@ == peer_error_message(message@),
            _ => r matches ProofOutcome::Refuse { error: Error::Protocol(m), notify: None } && m@
                == "expected ProofPeer"@,
        },
{
    match frame {
        Frame::ProofPeer { sig } => {
            if peer.verify(transcript, sig.as_slice()) {
                ProofOutcome::Verified
            } else {
                ProofOutcome::Refuse {
                    error: Error::Auth(String::from_str("peer signature failed verification")),
                    notify: Some(String::from_str("peer signature failed verification")),
                }
            }
        },
        Frame::Error { message } => {
            proof {
                reveal_strlit("");
                assert(message@ + ""@ =~= message@);
            }
            ProofOutcome::Refuse {
                error: Error::Protocol(text_of_parts("peer reported error: ", message.as_str(), "")),
                notify: None,
            }
        },
        _ => ProofOutcome::Refuse {
            error: Error::Protocol(String::from_str("expected ProofPeer")),
            notify: None,
        },
    }
}

/// What a peer learns from the hub's hello.
pub struct HubHello {
    pub vault_id: String,
    pub hub_pubkey: Pubkey,
    pub hub_nonce: Vec<u8>,
    pub tls_cert_fingerprint: Vec<u8>,
    pub vault_name: Option<String>,
}

/// The peer's decision on the frame that should be the hub's hello: the
/// hub's key and nonce must be well formed and the certificate fingerprint
/// it commits to must be the one seen on the TLS connection.
pub fn peer_on_hello_hub(frame: &Frame, observed_cert_fp: &[u8; 32]) -> (r: Result<HubHello, Error>)
    ensures
        match frame {
            Frame::HelloHub { vault_id, hub_identity_pubkey: pk, hub_nonce: n, tls_cert_fingerprint: fp, vault_name } => if pk@.len() != 32 {
                r matches Err(Error::Auth(m)) && m@ == pubkey_length_message(pk@.len())
            } else if n@.len() != NONCE_LEN {
                r matches Err(Error::Protocol(m)) && m@ == "hub nonce wrong length"@
            } else if fp@ != observed_cert_fp@ {
                r matches Err(Error::Auth(m)) && m@ == fingerprint_mismatch_message(fp@.len())
            } else {
                r matches Ok(h) && h.vault_id == vault_id && h.hub_pubkey.0@ == pk@ && h.hub_nonce@ == n@
                    && h.tls_cert_fingerprint@ == fp@ && h.vault_name == vault_name
            },
            Frame::Error { message } => r matches Err(Error::Auth(m)) && m == message,
            _ => r matches Err(Error::Protocol(m)) && m@ == "expected HelloHub"@,
        },
{
    match frame {
        Frame::HelloHub { vault_id, hub_identity_pubkey, hub_nonce, tls_cert_fingerprint, vault_name } => {
            let pk = Pubkey::from_bytes(hub_identity_pubkey.as_slice())?;
            if hub_nonce.len() != NONCE_LEN {
                return Err(Error::Protocol(String::from_str("hub nonce wrong length")));
            }
            if !same_fingerprint(tls_cert_fingerprint, observed_cert_fp) {
                let mut m: Vec<char> = Vec::new();
                extend_lit(&mut m, "tls cert fingerprint mismatch: advertised ");
                extend_decimal(&mut m, tls_cert_fingerprint.len() as u64);
                extend_lit(&mut m, " bytes, observed 32");
                return Err(Error::Auth(string_of(m.as_slice())));
            }
            let name = match vault_name {
                Some(n) => Some(n.clone()),
                None => None,
            };
            Ok(
                HubHello {
                    vault_id: vault_id.clone(),
                    hub_pubkey: pk,
                    hub_nonce: clone_bytes(hub_nonce),
                    tls_cert_fingerprint: clone_bytes(tls_cert_fingerprint),
                    vault_name: name,
                },
            )
        },
        Frame::Error { message } => Err(Error::Auth(message.clone())),
        _ => Err(Error::Protocol(String::from_str("expected HelloHub"))),
    }
}

/// The peer's decision on the frame that should be the hub's proof: a
/// signature by the hub's key over `transcript` completes the handshake.
pub fn peer_on_proof_hub(frame: &Frame, hub: &Pubkey, transcript: &[u8]) -> (r: Result<(), Error>)
    ensures
        match frame {
            Frame::ProofHub { sig } => (r is Ok) == (sig@.len() == 64 && ed25519_verifies(hub.0@, transcript@, sig@))
                && (r is Err ==> r matches Err(Error::Auth(_))),
            Frame::Error { message } => r matches Err(Error::Auth(m)) && m == message,
            _ => r matches Err(Error::Protocol(_)),
        },
{
    match frame {
        Frame::ProofHub { sig } => {
            if hub.verify(transcript, sig.as_slice()) {
                Ok(())
            } else {
                Err(Error::Auth(String::from_str("hub signature failed verification")))
            }
        },
        Frame::Error { message } => Err(Error::Auth(message.clone())),
        _ => Err(Error::Protocol(String::from_str("expected ProofHub"))),
    }
}

/// What a connected side does with a frame after the handshake.
pub enum InboundAction {
    /// Apply the sync message, then answer with a sync message if there is one.
    ApplySync { bytes: Vec<u8> },
    /// Send the blob back, or an error frame if it cannot be read.
    SendBlob { hash: String },
    /// Store the blob.
    StoreBlob { hash: String, bytes: Vec<u8> },
    /// Answer a ping.
    Reply(Frame),
    /// Record the other side's error.
    LogError { message: String },
    /// Nothing to do: a pong, or a handshake frame arriving late.
    Ignore,
}

/// The action a frame received after the handshake calls for.
pub fn inbound_action(frame: Frame) -> (r: InboundAction)
    ensures
        match frame {
            Frame::Sync { bytes } => r matches InboundAction::ApplySync { bytes: b } && b == bytes,
            Frame::BlobFetch { hash } => r matches InboundAction::SendBlob { hash: h } && h == hash,
            Frame::BlobPush { hash, bytes } => r matches InboundAction::StoreBlob { hash: h, bytes: b } && h
                == hash && b == bytes,
            Frame::Ping { ts } => r matches InboundAction::Reply(Frame::Pong { ts: t }) && t == ts,
            Frame::Error { message } => r matches InboundAction::LogError { message: m } && m == message,
            _ => r is Ignore,
        },
{
    match frame {
        Frame::Sync { bytes } => InboundAction::ApplySync { bytes },
        Frame::BlobFetch { hash } => InboundAction::SendBlob { hash },
        Frame::BlobPush { hash, bytes } => InboundAction::StoreBlob { hash, bytes },
        Frame::Ping { ts } => InboundAction::Reply(Frame::Pong { ts }),
        Frame::Pong { ts: _ } => InboundAction::Ignore,
        Frame::Error { message } => InboundAction::LogError { message },
        _ => InboundAction::Ignore,
    }
}

/// A label as logs show it: `(unlabeled)` when empty.
pub fn label_or_unlabeled(s: &str) -> (r: &str)
    ensures
        s@.len() == 0 ==> r@ == "(unlabeled)"@,
        s@.len() > 0 ==> r@ == s@,
{
    if s.is_empty() {
        "(unlabeled)"
    } else {
        s
    }
}

/// After the handshake, the peer checks the hub is the one it expects:
/// the vault id it has configured (if any) and the hub key it has pinned
/// (if any).
pub fn check_session(expected_vault_id: Option<&str>, expected_hub: Option<&Pubkey>, vault_id: &str, hub: &Pubkey) -> (r: Result<(), Error>)
    ensures
        r is Ok <==> (match expected_vault_id {
            Some(v) => v@ == vault_id@,
            None => true,
        } && match expected_hub {
            Some(h) => h.0@ == hub.0@,
            None => true,
        }),
        r is Err ==> r matches Err(Error::Auth(_)),
        match expected_vault_id {
            Some(v) => v@ != vault_id@ ==> (r matches Err(Error::Auth(m)) && m@ == vault_id_mismatch_message(
                vault_id@,
                v@,
            )),
            None => true,
        },
        (match expected_vault_id {
            Some(v) => v@ == vault_id@,
            None => true,
        }) ==> match expected_hub {
            Some(h) => h.0@ != hub.0@ ==> (r matches Err(Error::Auth(m)) && m@ == hub_mismatch_message(
                h.0@,
                hub.0@,
            )),
            None => true,
        },
{
    if let Some(v) = expected_vault_id {
        if String::from_str(v) != String::from_str(vault_id) {
            return Err(
                Error::Auth(
                    text_of_parts_4("vault_id mismatch: server reported ", vault_id, " but local config has ", v),
                ),
            );
        }
    }
    if let Some(h) = expected_hub {
        if !pubkey_eq(h, hub) {
            let pinned = h.fingerprint_sha256();
            let presented = hub.fingerprint_sha256();
            let key = hub.to_ssh_string();
            let mut m: Vec<char> = Vec::new();
            extend_lit(&mut m, "hub identity mismatch: pinned ");
            extend_lit(&mut m, pinned.as_str());
            extend_lit(&mut m, " but hub presented ");
            extend_lit(&mut m, presented.as_str());
            extend_lit(
                &mut m,
                ".\nEither the hub's identity key was rotated, or someone is impersonating it. Run `agentsync hub trust ",
            );
            extend_lit(&mut m, key.as_str());
            extend_lit(&mut m, "` to accept the new key, or `agentsync hub forget` to clear the pin.");
            return Err(Error::Auth(string_of(m.as_slice())));
        }
    }
    Ok(())
}

/// The connected peers to drop when `authorized` changes: those with a
/// known key that is no longer listed. Peers without a key are kept.
pub fn peers_to_disconnect(peers: &[(u64, Option<Pubkey>)], authorized: &[Pubkey]) -> (r: Vec<u64>)
    ensures
        forall|id: u64|
            r@.contains(id) <==> exists|i: int|
                0 <= i < peers@.len() && (#[trigger] peers@[i]).0 == id && (peers@[i].1 matches Some(pk)
                    && !is_authorized(authorized@, pk.0@)),
{
    let mut out: Vec<u64> = Vec::new();
    let mut i: usize = 0;
    while i < peers.len()
        invariant
            i <= peers@.len(),
            forall|id: u64|
                out@.contains(id) <==> exists|k: int|
                    0 <= k < i && (#[trigger] peers@[k]).0 == id && (peers@[k].1 matches Some(pk)
                        && !is_authorized(authorized@, pk.0@)),
        decreases peers@.len() - i,
    {
        let ghost before = out@;
        let drop_it = match &peers[i].1 {
            Some(pk) => !contains_pubkey(authorized, pk),
            None => false,
        };
        if drop_it {
            out.push(peers[i].0);
        }
        proof {
            assert forall|id: u64|
                out@.contains(id) <==> exists|k: int|
                    0 <= k < i + 1 && (#[trigger] peers@[k]).0 == id && (peers@[k].1 matches Some(pk)
                        && !is_authorized(authorized@, pk.0@)) by {
                if drop_it {
                    if out@.contains(id) {
                        let w = choose|w: int| 0 <= w < out@.len() && out@[w] == id;
                        if w < before.len() {
                            assert(before[w] == id);
                        }
                    }
                    if before.contains(id) {
                        let w = choose|w: int| 0 <= w < before.len() && before[w] == id;
                        assert(out@[w] == id);
                    }
                    if id == peers@[i as int].0 {
                        assert(out@[out@.len() - 1] == id);
                    }
                }
            }
        }
        i = i + 1;
    }
    out
}


/// The keys of the previously known peers.
pub open spec fn prev_keys(prev: Seq<(Pubkey, String)>) -> Seq<Pubkey> {
    prev.map_values(|e: (Pubkey, String)| e.0)
}

/// The keys of the current peers.
pub open spec fn current_keys(cur: Seq<AuthorizedPeer>) -> Seq<Pubkey> {
    cur.map_values(|p: AuthorizedPeer| p.pubkey)
}

/// Whether the current list adds nothing to the previous set: as many
/// entries, each already known.
pub open spec fn authorized_unchanged(prev: Seq<(Pubkey, String)>, cur: Seq<AuthorizedPeer>) -> bool {
    prev.len() == cur.len() && forall|i: int|
        0 <= i < cur.len() ==> is_authorized(prev_keys(prev), (#[trigger] cur[i]).pubkey.0@)
}

/// The current peers whose key was not known before, in order.
pub open spec fn peers_added(prev: Seq<(Pubkey, String)>, cur: Seq<AuthorizedPeer>) -> Seq<
    (Seq<u8>, Seq<char>),
>
    decreases cur.len(),
{
    if cur.len() == 0 {
        Seq::empty()
    } else {
        let before = peers_added(prev, cur.drop_last());
        if is_authorized(prev_keys(prev), cur.last().pubkey.0@) {
            before
        } else {
            before.push(cur.last().entry())
        }
    }
}

/// The previous peers whose key is no longer listed, in order.
pub open spec fn peers_removed(prev: Seq<(Pubkey, String)>, cur: Seq<AuthorizedPeer>) -> Seq<
    (Seq<u8>, Seq<char>),
>
    decreases prev.len(),
{
    if prev.len() == 0 {
        Seq::empty()
    } else {
        let before = peers_removed(prev.drop_last(), cur);
        if is_authorized(current_keys(cur), prev.last().0.0@) {
            before
        } else {
            before.push((prev.last().0.0@, prev.last().1@))
        }
    }
}

/// What changed in `authorized_keys`: peers added and peers removed.
#[derive(Clone, Debug)]
pub struct AuthorizedDiff {
    pub added: Vec<AuthorizedPeer>,
    pub removed: Vec<(Pubkey, String)>,
}

/// The removed entries as plain values.
pub open spec fn removed_entries(v: Seq<(Pubkey, String)>) -> Seq<(Seq<u8>, Seq<char>)> {
    v.map_values(|e: (Pubkey, String)| (e.0.0@, e.1@))
}

fn copy_peer(p: &AuthorizedPeer) -> (r: AuthorizedPeer)
    ensures
        r.entry() == p.entry(),
{
    AuthorizedPeer { pubkey: Pubkey(p.pubkey.0), label: p.label.clone() }
}

/// Compares the previously known peers (key and label, keys distinct)
/// with the current parse of `authorized_keys`. When the current list has
/// as many entries as before and every key was known, nothing is reported;
/// otherwise the peers whose key is new and the previous peers whose key
/// is gone.
pub fn authorized_diff(prev: &[(Pubkey, String)], current: &[AuthorizedPeer]) -> (r: AuthorizedDiff)
    ensures
        authorized_unchanged(prev@, current@) ==> r.added@.len() == 0 && r.removed@.len() == 0,
        !authorized_unchanged(prev@, current@) ==> peer_entries(r.added@) == peers_added(
            prev@,
            current@,
        ) && removed_entries(r.removed@) == peers_removed(prev@, current@),
{
    let mut pk: Vec<Pubkey> = Vec::new();
    let mut i: usize = 0;
    while i < prev.len()
        invariant
            i <= prev@.len(),
            pk@ == prev_keys(prev@).take(i as int),
        decreases prev@.len() - i,
    {
        pk.push(Pubkey(prev[i].0.0));
        i = i + 1;
        assert(prev_keys(prev@).take(i as int) =~= prev_keys(prev@).take(i - 1).push(prev@[i - 1].0));
    }
    assert(prev_keys(prev@).take(prev@.len() as int) =~= prev_keys(prev@));
    let mut ck: Vec<Pubkey> = Vec::new();
    let mut j: usize = 0;
    while j < current.len()
        invariant
            j <= current@.len(),
            ck@ == current_keys(current@).take(j as int),
        decreases current@.len() - j,
    {
        ck.push(Pubkey(current[j].pubkey.0));
        j = j + 1;
        assert(current_keys(current@).take(j as int) =~= current_keys(current@).take(j - 1).push(
            current@[j - 1].pubkey,
        ));
    }
    assert(current_keys(current@).take(current@.len() as int) =~= current_keys(current@));
    let mut all_known = prev.len() == current.len();
    let mut k: usize = 0;
    while all_known && k < current.len()
        invariant
            k <= current@.len(),
            pk@ == prev_keys(prev@),
            all_known ==> prev@.len() == current@.len(),
            all_known ==> forall|m: int|
                0 <= m < k ==> is_authorized(prev_keys(prev@), (#[trigger] current@[m]).pubkey.0@),
            !all_known ==> !authorized_unchanged(prev@, current@),
        decreases current@.len() - k,
    {
        if !contains_pubkey(pk.as_slice(), &current[k].pubkey) {
            all_known = false;
            k = current.len();
        } else {
            k = k + 1;
        }
    }
    if all_known {
        return AuthorizedDiff { added: Vec::new(), removed: Vec::new() };
    }
    let mut added: Vec<AuthorizedPeer> = Vec::new();
    let mut a: usize = 0;
    assert(current@.take(0) =~= Seq::<AuthorizedPeer>::empty());
    while a < current.len()
        invariant
            a <= current@.len(),
            pk@ == prev_keys(prev@),
            peer_entries(added@) == peers_added(prev@, current@.take(a as int)),
        decreases current@.len() - a,
    {
        let ghost before = added@;
        assert(current@.take(a + 1).drop_last() =~= current@.take(a as int));
        assert(current@.take(a + 1).last() == current@[a as int]);
        if !contains_pubkey(pk.as_slice(), &current[a].pubkey) {
            added.push(copy_peer(&current[a]));
            assert(peer_entries(added@) =~= peer_entries(before).push(current@[a as int].entry()));
        }
        a = a + 1;
    }
    assert(current@.take(current@.len() as int) =~= current@);
    let mut removed: Vec<(Pubkey, String)> = Vec::new();
    let mut b: usize = 0;
    assert(prev@.take(0) =~= Seq::<(Pubkey, String)>::empty());
    while b < prev.len()
        invariant
            b <= prev@.len(),
            ck@ == current_keys(current@),
            removed_entries(removed@) == peers_removed(prev@.take(b as int), current@),
        decreases prev@.len() - b,
    {
        let ghost before = removed@;
        assert(prev@.take(b + 1).drop_last() =~= prev@.take(b as int));
        assert(prev@.take(b + 1).last() == prev@[b as int]);
        if !contains_pubkey(ck.as_slice(), &prev[b].0) {
            removed.push((Pubkey(prev[b].0.0), prev[b].1.clone()));
            assert(removed_entries(removed@) =~= removed_entries(before).push(
                (prev@[b as int].0.0@, prev@[b as int].1@),
            ));
        }
        b = b + 1;
    }
    assert(prev@.take(prev@.len() as int) =~= prev@);
    AuthorizedDiff { added, removed }
}

} // verus!
