//! Vault keys and the access tokens derived from them.
//!
//! A vault key is 32 random bytes, written as unpadded base64. The token a
//! peer presents is HMAC-SHA-256 of a fixed label under the vault key.

use crate::codec::{
    array32_of, b64_encode, b64_nopad_decode, base64_nopad_decode, base64_nopad_encode,
    hmac_sha256, hmac_sha256_tag, lemma_b64_text, random_bytes_32,
};
use crate::error::Error;
use crate::text::{chars_of, lemma_trim_noop, string_of, trim, trim_vec};
use vstd::prelude::*;

verus! {

pub const VAULT_KEY_LEN: usize = 32;

pub const AUTH_TOKEN_LEN: usize = 32;

/// A vault's shared secret.
pub type VaultKey = [u8; 32];

/// The label the token is the HMAC of: `agentsync-auth-v1`.
pub open spec fn auth_token_info() -> Seq<u8> {
    seq![
        0x61u8, 0x67u8, 0x65u8, 0x6eu8, 0x74u8, 0x73u8, 0x79u8, 0x6eu8, 0x63u8, 0x2du8, 0x61u8,
        0x75u8, 0x74u8, 0x68u8, 0x2du8, 0x76u8, 0x31u8,
    ]
}

fn auth_token_info_bytes() -> (r: Vec<u8>)
    ensures
        r@ == auth_token_info(),
{
    let r = vec![
        0x61u8, 0x67u8, 0x65u8, 0x6eu8, 0x74u8, 0x73u8, 0x79u8, 0x6eu8, 0x63u8, 0x2du8, 0x61u8,
        0x75u8, 0x74u8, 0x68u8, 0x2du8, 0x76u8, 0x31u8,
    ];
    assert(r@ =~= auth_token_info());
    r
}

/// The token that proves knowledge of `key`.
pub open spec fn auth_token_spec(key: Seq<u8>) -> Seq<u8> {
    hmac_sha256(key, auth_token_info())
}

/// A fresh vault key from the operating system's random source.
pub fn generate_vault_key() -> (r: VaultKey) {
    random_bytes_32()
}

/// HMAC-SHA-256 of the token label under `vault_key`.
pub fn derive_auth_token(vault_key: &VaultKey) -> (r: [u8; 32])
    ensures
        r@ == auth_token_spec(vault_key@),
{
    let info = auth_token_info_bytes();
    let tag = hmac_sha256_tag(vault_key, info.as_slice());
    array32_of(&tag)
}

/// Whether `presented` is accepted as the token of `key`.
pub open spec fn token_accepted(key: Seq<u8>, presented: Seq<u8>) -> bool {
    presented == auth_token_spec(key)
}

/// Whether `presented` is the token of `vault_key`, compared in constant
/// time.
pub fn verify_auth_token(vault_key: &VaultKey, presented: &[u8]) -> (r: bool)
    ensures
        r == token_accepted(vault_key@, presented@),
{
    let expected = derive_auth_token(vault_key);
    constant_time_eq(&expected, presented)
}

/// A token derived from a key is accepted for that key, and only the
/// token derived from it is.
pub proof fn lemma_derived_token_verifies(key: Seq<u8>, presented: Seq<u8>)
    ensures
        token_accepted(key, auth_token_spec(key)),
        token_accepted(key, presented) ==> presented == auth_token_spec(key),
{
}

/// Byte-wise equality that looks at every byte of equal-length inputs.
pub fn constant_time_eq(a: &[u8], b: &[u8]) -> (r: bool)
    ensures
        r == (a@ == b@),
{
    if a.len() != b.len() {
        return false;
    }
    let mut diff: u8 = 0;
    let mut i: usize = 0;
    assert(a@.take(0) =~= b@.take(0));
    while i < a.len()
        invariant
            i <= a@.len(),
            a@.len() == b@.len(),
            (diff == 0) == (a@.take(i as int) == b@.take(i as int)),
        decreases a@.len() - i,
    {
        let x = a[i];
        let y = b[i];
        let d = diff;
        assert(((d | (x ^ y)) == 0u8) == (d == 0u8 && x == y)) by (bit_vector);
        diff = diff | (x ^ y);
        proof {
            assert(a@.take(i + 1) == a@.take(i as int).push(x));
            assert(b@.take(i + 1) == b@.take(i as int).push(y));
            if a@.take(i + 1) == b@.take(i + 1) {
                assert(a@.take(i + 1)[i as int] == b@.take(i + 1)[i as int]);
                assert(a@.take(i as int) =~= a@.take(i + 1).drop_last());
                assert(b@.take(i as int) =~= b@.take(i + 1).drop_last());
            }
        }
        i = i + 1;
    }
    assert(a@.take(a@.len() as int) =~= a@);
    assert(b@.take(b@.len() as int) =~= b@);
    diff == 0
}

/// The unpadded base64 text of `key`.
pub fn encode_key(key: &VaultKey) -> (r: String)
    ensures
        r@ == b64_encode(key@, false),
        decode_key_spec(r@) == Some(key@),
{
    let r = base64_nopad_encode(key);
    proof {
        lemma_b64_text(key@, false);
        lemma_trim_noop(r@);
        assert(r@.len() != 36);
    }
    r
}

/// Hex digits, either case.
pub open spec fn is_hex_char(c: char) -> bool {
    ('0' <= c && c <= '9') || ('a' <= c && c <= 'f') || ('A' <= c && c <= 'F')
}

/// Whether `s` has the 8-4-4-4-12 shape of a UUID: 36 characters, `-` at
/// offsets 8, 13, 18 and 23, hex digits elsewhere.
pub open spec fn looks_like_uuid_spec(s: Seq<char>) -> bool {
    &&& s.len() == 36
    &&& forall|i: int|
        0 <= i < 36 ==> if i == 8 || i == 13 || i == 18 || i == 23 {
            s[i] == '-'
        } else {
            is_hex_char(#[trigger] s[i])
        }
}

pub fn looks_like_uuid(s: &Vec<char>) -> (r: bool)
    ensures
        r == looks_like_uuid_spec(s@),
{
    if s.len() != 36 {
        return false;
    }
    let mut i: usize = 0;
    while i < 36
        invariant
            i <= 36,
            s@.len() == 36,
            forall|j: int|
                0 <= j < i ==> if j == 8 || j == 13 || j == 18 || j == 23 {
                    s@[j] == '-'
                } else {
                    is_hex_char(#[trigger] s@[j])
                },
        decreases 36 - i,
    {
        let c = s[i];
        if i == 8 || i == 13 || i == 18 || i == 23 {
            if c != '-' {
                return false;
            }
        } else if !(('0' <= c && c <= '9') || ('a' <= c && c <= 'f') || ('A' <= c && c <= 'F')) {
            assert(!is_hex_char(s@[i as int]));
            return false;
        }
        i = i + 1;
    }
    true
}

/// The key `decode_key` reads from `s`, or `None` where it refuses `s`:
/// the trimmed text must not look like a UUID and must decode as unpadded
/// base64 to exactly 32 bytes.
pub open spec fn decode_key_spec(s: Seq<char>) -> Option<Seq<u8>> {
    let t = trim(s);
    if looks_like_uuid_spec(t) {
        None
    } else {
        match b64_nopad_decode(t) {
            Some(b) => if b.len() == 32 {
                Some(b)
            } else {
                None
            },
            None => None,
        }
    }
}

/// Reads a vault key written as unpadded base64; surrounding whitespace is
/// ignored. A UUID (a vault id given by mistake), text that is not base64,
/// and a key of the wrong length are refused.
pub fn decode_key(s: &str) -> (r: Result<VaultKey, Error>)
    ensures
        r is Ok <==> decode_key_spec(s@) is Some,
        r matches Ok(k) ==> decode_key_spec(s@) == Some(k@),
        r is Err ==> r matches Err(Error::Auth(_)),
{
    let raw = chars_of(s);
    let t = trim_vec(&raw);
    if looks_like_uuid(&t) {
        return Err(
            Error::Auth(
                String::from_str(
                    "expected a base64-encoded 32-byte vault key (~43 chars), got a UUID; use the vault_key value from `agentsync init`, not vault_id",
                ),
            ),
        );
    }
    let text = string_of(t.as_slice());
    match base64_nopad_decode(text.as_str()) {
        None => Err(
            Error::Auth(
                String::from_str(
                    "invalid vault key: expected a base64-encoded 32-byte key (~43 chars)",
                ),
            ),
        ),
        Some(bytes) => {
            if bytes.len() != 32 {
                Err(
                    Error::Auth(
                        String::from_str(
                            "vault key has wrong length: expected 32 bytes (~43 base64 chars)",
                        ),
                    ),
                )
            } else {
                Ok(array32_of(&bytes))
            }
        },
    }
}


/// The domain label every handshake transcript starts with:
/// `agentsync-handshake-v1`.
pub open spec fn handshake_domain() -> Seq<u8> {
    seq![
        0x61u8, 0x67u8, 0x65u8, 0x6eu8, 0x74u8, 0x73u8, 0x79u8, 0x6eu8, 0x63u8, 0x2du8, 0x68u8,
        0x61u8, 0x6eu8, 0x64u8, 0x73u8, 0x68u8, 0x61u8, 0x6bu8, 0x65u8, 0x2du8, 0x76u8, 0x31u8,
    ]
}

/// The handshake domain label, as bytes.
pub fn handshake_domain_bytes() -> (r: Vec<u8>)
    ensures
        r@ == handshake_domain(),
{
    let r = vec![
        0x61u8, 0x67u8, 0x65u8, 0x6eu8, 0x74u8, 0x73u8, 0x79u8, 0x6eu8, 0x63u8, 0x2du8, 0x68u8,
        0x61u8, 0x6eu8, 0x64u8, 0x73u8, 0x68u8, 0x61u8, 0x6bu8, 0x65u8, 0x2du8, 0x76u8, 0x31u8,
    ];
    assert(r@ =~= handshake_domain());
    r
}

/// The bytes both sides of a handshake sign: the domain label, the hub's
/// nonce, the peer's nonce, the hub's key, the peer's key, and last the
/// fingerprint of the TLS certificate the peer saw (empty without TLS).
pub open spec fn transcript_spec(
    hub_nonce: Seq<u8>,
    peer_nonce: Seq<u8>,
    tls_cert_fingerprint: Seq<u8>,
    hub_pubkey: Seq<u8>,
    peer_pubkey: Seq<u8>,
) -> Seq<u8> {
    handshake_domain() + hub_nonce + peer_nonce + hub_pubkey + peer_pubkey + tls_cert_fingerprint
}

fn append_bytes(out: &mut Vec<u8>, b: &[u8])
    ensures
        final(out)@ == old(out)@ + b@,
{
    let ghost o0 = out@;
    let mut k: usize = 0;
    while k < b.len()
        invariant
            k <= b@.len(),
            out@ == o0 + b@.subrange(0, k as int),
        decreases b@.len() - k,
    {
        out.push(b[k]);
        k = k + 1;
        assert(b@.subrange(0, k as int) =~= b@.subrange(0, k - 1).push(b@[k - 1]));
    }
    assert(b@.subrange(0, b@.len() as int) =~= b@);
}

/// Builds the handshake transcript (see `transcript_spec`).
pub fn build_transcript(
    hub_nonce: &[u8; 32],
    peer_nonce: &[u8; 32],
    tls_cert_fingerprint: &[u8],
    hub_pubkey: &[u8; 32],
    peer_pubkey: &[u8; 32],
) -> (r: Vec<u8>)
    ensures
        r@ == transcript_spec(hub_nonce@, peer_nonce@, tls_cert_fingerprint@, hub_pubkey@, peer_pubkey@),
{
    let mut out = handshake_domain_bytes();
    append_bytes(&mut out, hub_nonce);
    append_bytes(&mut out, peer_nonce);
    append_bytes(&mut out, hub_pubkey);
    append_bytes(&mut out, peer_pubkey);
    append_bytes(&mut out, tls_cert_fingerprint);
    out
}

/// A transcript names its parts: two transcripts over 32-byte nonces and
/// keys are equal only when the nonces, keys and fingerprints are.
pub proof fn lemma_transcript_binds(
    hn1: Seq<u8>, pn1: Seq<u8>, fp1: Seq<u8>, hk1: Seq<u8>, pk1: Seq<u8>,
    hn2: Seq<u8>, pn2: Seq<u8>, fp2: Seq<u8>, hk2: Seq<u8>, pk2: Seq<u8>,
)
    requires
        hn1.len() == 32 && pn1.len() == 32 && hk1.len() == 32 && pk1.len() == 32,
        hn2.len() == 32 && pn2.len() == 32 && hk2.len() == 32 && pk2.len() == 32,
        transcript_spec(hn1, pn1, fp1, hk1, pk1) == transcript_spec(hn2, pn2, fp2, hk2, pk2),
    ensures
        hn1 == hn2 && pn1 == pn2 && fp1 == fp2 && hk1 == hk2 && pk1 == pk2,
{
    let t1 = transcript_spec(hn1, pn1, fp1, hk1, pk1);
    let t2 = transcript_spec(hn2, pn2, fp2, hk2, pk2);
    let d = handshake_domain().len() as int;
    assert(t1.subrange(d, d + 32) =~= hn1);
    assert(t2.subrange(d, d + 32) =~= hn2);
    assert(t1.subrange(d + 32, d + 64) =~= pn1);
    assert(t2.subrange(d + 32, d + 64) =~= pn2);
    assert(t1.subrange(d + 64, d + 96) =~= hk1);
    assert(t2.subrange(d + 64, d + 96) =~= hk2);
    assert(t1.subrange(d + 96, d + 128) =~= pk1);
    assert(t2.subrange(d + 96, d + 128) =~= pk2);
    assert(t1.subrange(d + 128, t1.len() as int) =~= fp1);
    assert(t2.subrange(d + 128, t2.len() as int) =~= fp2);
}

/// A fresh handshake nonce from the operating system's random source.
pub fn random_nonce() -> (r: [u8; 32]) {
    random_bytes_32()
}

} // verus!
