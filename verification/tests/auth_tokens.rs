use agentsync_core::auth::{
    decode_key, derive_auth_token, encode_key, generate_vault_key, verify_auth_token, AUTH_TOKEN_LEN,
    VAULT_KEY_LEN,
};
use agentsync_core::error::Error;

#[test]
fn token_is_deterministic() {
    let k = [1u8; VAULT_KEY_LEN];
    assert_eq!(derive_auth_token(&k), derive_auth_token(&k));
}

#[test]
fn token_differs_per_key() {
    let a = [1u8; VAULT_KEY_LEN];
    let b = [2u8; VAULT_KEY_LEN];
    assert_ne!(derive_auth_token(&a), derive_auth_token(&b));
}

#[test]
fn verify_round_trip() {
    let k = generate_vault_key();
    let t = derive_auth_token(&k);
    assert!(verify_auth_token(&k, &t));
    assert!(!verify_auth_token(&k, &[0u8; AUTH_TOKEN_LEN]));
}

#[test]
fn key_codec_round_trip() {
    let k = generate_vault_key();
    let s = encode_key(&k);
    let k2 = decode_key(&s).unwrap();
    assert_eq!(k, k2);
}

#[test]
fn encode_key_is_unpadded_base64() {
    let s = encode_key(&[0u8; 32]);
    assert_eq!(s, "AAAAAAAAAAAAAAAAAAAAAAAAAAAAAAAAAAAAAAAAAAA");
    assert_eq!(s.len(), 43);
}

#[test]
fn decode_key_refuses_uuid_bad_text_and_wrong_length() {
    assert!(matches!(
        decode_key("123e4567-e89b-12d3-a456-426614174000"),
        Err(Error::Auth(_))
    ));
    assert!(matches!(decode_key("not base64 !!"), Err(Error::Auth(_))));
    assert!(matches!(decode_key("AAAA"), Err(Error::Auth(_))));
}

#[test]
fn decode_key_trims_whitespace() {
    let k = [7u8; 32];
    let s = format!("  {}\n", encode_key(&k));
    assert_eq!(decode_key(&s).unwrap(), k);
}

#[test]
fn token_is_hmac_of_the_label() {
    // HMAC-SHA-256("agentsync-auth-v1") under an all-zero key must not be the
    // token of another key, and a token of the wrong length never verifies.
    let k = [0u8; 32];
    let t = derive_auth_token(&k);
    assert!(!verify_auth_token(&k, &t[..31]));
    assert_ne!(t, [0u8; 32]);
}

#[test]
fn transcript_layout() {
    let t = agentsync_core::auth::build_transcript(&[1u8; 32], &[2u8; 32], &[9u8, 8, 7], &[3u8; 32], &[4u8; 32]);
    let domain = b"agentsync-handshake-v1";
    assert_eq!(&t[..domain.len()], &domain[..]);
    let rest = &t[domain.len()..];
    assert_eq!(rest.len(), 128 + 3);
    assert!(rest[..32].iter().all(|b| *b == 1));
    assert!(rest[32..64].iter().all(|b| *b == 2));
    assert!(rest[64..96].iter().all(|b| *b == 3));
    assert!(rest[96..128].iter().all(|b| *b == 4));
    assert_eq!(&rest[128..], &[9u8, 8, 7][..]);
    let other = agentsync_core::auth::build_transcript(&[1u8; 32], &[2u8; 32], &[], &[3u8; 32], &[4u8; 32]);
    assert_ne!(t, other);
}

#[test]
fn nonces_are_fresh() {
    assert_ne!(agentsync_core::auth::random_nonce(), agentsync_core::auth::random_nonce());
}

#[test]
fn error_messages_carry_their_text() {
    assert_eq!(Error::Auth("bad key".to_string()).message(), "bad key");
    assert_eq!(Error::Other("x".to_string()).message(), "x");
    assert_eq!(Error::InvalidUtf8.message(), "");
}
