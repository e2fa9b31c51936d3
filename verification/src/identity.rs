//! Per-device ed25519 identities and the SSH encodings of their public keys.
//!
//! A file-backed identity holds its 32-byte seed; an agent-backed one names
//! an ssh-agent socket and the public key the agent should sign with. The
//! agent's wire messages are built and parsed here; the socket round trip
//! itself is the caller's.

use crate::codec::{
    is_b64_text_char, lemma_b64_text,
    b64_encode, b64_nopad_decode, b64_standard_decode, base64_nopad_decode, base64_nopad_encode,
    base64_standard_decode, base64_standard_encode, random_bytes_32, sha256, sha256_digest,
};
use crate::error::Error;
use crate::text::{
    lemma_trim_noop, decimal, extend_decimal,
    find_trim_end, lemma_trim_end_at, starts_with_lit, trim, trim_end_at, trim_vec,
    chars_of, eq_lit, extend_chars, extend_lit, find_token_end, is_ws, lemma_skip_ws,
    lemma_token_end, skip_whitespace, skip_ws, slice_vec, string_of, token_end,
};
use ed25519_dalek::{Signer, Verifier};
use vstd::prelude::*;
use vstd::utf8::{decode_utf8, encode_utf8, valid_utf8};

verus! {

pub const PUBKEY_LEN: usize = 32;

pub const SIGNATURE_LEN: usize = 64;

pub const SECRET_KEY_LENGTH: usize = 32;

/// `ssh-ed25519` as bytes.
pub open spec fn ssh_key_type_bytes() -> Seq<u8> {
    seq![115u8, 115u8, 104u8, 45u8, 101u8, 100u8, 50u8, 53u8, 53u8, 49u8, 57u8]
}

/// `ssh-ed25519` as characters.
pub open spec fn ssh_key_type_chars() -> Seq<char> {
    seq!['s', 's', 'h', '-', 'e', 'd', '2', '5', '5', '1', '9']
}

/// Big-endian four-byte encoding of `n` (`n < 2^32`).
pub open spec fn be32(n: int) -> Seq<u8> {
    seq![
        (n / 16777216 % 256) as u8,
        (n / 65536 % 256) as u8,
        (n / 256 % 256) as u8,
        (n % 256) as u8,
    ]
}

/// The number the four bytes `b[i..i+4]` hold, big-endian.
pub open spec fn be32_at(b: Seq<u8>, i: int) -> int {
    (b[i] as int) * 16777216 + (b[i + 1] as int) * 65536 + (b[i + 2] as int) * 256 + (b[i
        + 3] as int)
}

/// An SSH wire string: a four-byte big-endian length, then the bytes.
pub open spec fn ssh_string(s: Seq<u8>) -> Seq<u8> {
    be32(s.len() as int) + s
}

/// `string("ssh-ed25519") || string(pubkey)`.
pub open spec fn ssh_wire(pubkey: Seq<u8>) -> Seq<u8> {
    ssh_string(ssh_key_type_bytes()) + ssh_string(pubkey)
}

/// The wire string starting at `c` in `buf`: the bounds of its body, or
/// `None` when the length or the body runs past the end.
pub open spec fn ssh_string_at(buf: Seq<u8>, c: int) -> Option<(int, int)> {
    if c < 0 || c + 4 > buf.len() {
        None
    } else if c + 4 + be32_at(buf, c) > buf.len() {
        None
    } else {
        Some((c + 4, c + 4 + be32_at(buf, c)))
    }
}

/// The public key that the wire blob `wire` carries, if it is a well-formed
/// `ssh-ed25519` blob (bytes after the key are ignored).
pub open spec fn parse_ssh_wire(wire: Seq<u8>) -> Option<Seq<u8>> {
    match ssh_string_at(wire, 0) {
        None => None,
        Some((a, b)) => if wire.subrange(a, b) != ssh_key_type_bytes() {
            None
        } else {
            match ssh_string_at(wire, b) {
                None => None,
                Some((c, d)) => if d - c != 32 {
                    None
                } else {
                    Some(wire.subrange(c, d))
                },
            }
        },
    }
}

proof fn lemma_be32_roundtrip(n: int)
    requires
        0 <= n < 0x1_0000_0000,
    ensures
        be32_at(be32(n), 0) == n,
{
    let b = be32(n);
    assert(b[0] as int == n / 16777216 % 256);
    assert(b[1] as int == n / 65536 % 256);
    assert(b[2] as int == n / 256 % 256);
    assert(b[3] as int == n % 256);
    assert((n / 16777216 % 256) * 16777216 + (n / 65536 % 256) * 65536 + (n / 256 % 256) * 256
        + n % 256 == n) by (nonlinear_arith)
        requires
            0 <= n < 0x1_0000_0000,
    ;
}

/// Appends the big-endian four bytes of `n`.
fn push_be32(out: &mut Vec<u8>, n: u32)
    ensures
        final(out)@ == old(out)@ + be32(n as int),
{
    out.push((n / 16777216 % 256) as u8);
    out.push((n / 65536 % 256) as u8);
    out.push((n / 256 % 256) as u8);
    out.push((n % 256) as u8);
    assert(final(out)@ =~= old(out)@ + be32(n as int));
}

/// Appends the bytes of `s`.
fn push_bytes(out: &mut Vec<u8>, s: &[u8])
    ensures
        final(out)@ == old(out)@ + s@,
{
    let ghost o = out@;
    let mut k: usize = 0;
    while k < s.len()
        invariant
            k <= s@.len(),
            out@ == o + s@.subrange(0, k as int),
        decreases s@.len() - k,
    {
        out.push(s[k]);
        k = k + 1;
        assert(s@.subrange(0, k as int) == s@.subrange(0, k - 1).push(s@[k - 1]));
    }
    assert(s@.subrange(0, s@.len() as int) == s@);
}

/// `ssh-ed25519` as a byte vector.
fn key_type_bytes() -> (r: Vec<u8>)
    ensures
        r@ == ssh_key_type_bytes(),
{
    let r: Vec<u8> = vec![115u8, 115u8, 104u8, 45u8, 101u8, 100u8, 50u8, 53u8, 53u8, 49u8, 57u8];
    assert(r@ =~= ssh_key_type_bytes());
    r
}

/// Appends `s` as an SSH wire string.
pub fn write_string(out: &mut Vec<u8>, s: &[u8])
    requires
        s@.len() < 0x1_0000_0000,
    ensures
        final(out)@ == old(out)@ + ssh_string(s@),
{
    push_be32(out, s.len() as u32);
    push_bytes(out, s);
    assert(final(out)@ =~= old(out)@ + ssh_string(s@));
}

/// SSH wire encoding of a public key.
pub fn encode_ssh_wire(pubkey: &[u8; 32]) -> (r: Vec<u8>)
    ensures
        r@ == ssh_wire(pubkey@),
{
    let mut out: Vec<u8> = Vec::new();
    let t = key_type_bytes();
    write_string(&mut out, t.as_slice());
    write_string(&mut out, pubkey.as_slice());
    assert(out@ =~= ssh_wire(pubkey@));
    out
}

/// Reads the wire string at `*cursor` and moves the cursor past it.
pub fn read_ssh_string(buf: &[u8], cursor: &mut usize) -> (r: Result<Vec<u8>, Error>)
    requires
        *old(cursor) <= buf@.len(),
    ensures
        match ssh_string_at(buf@, *old(cursor) as int) {
            None => r is Err && *final(cursor) == *old(cursor),
            Some((a, b)) => r matches Ok(v) && v@ == buf@.subrange(a, b) && *final(cursor) == b,
        },
        r is Err ==> r matches Err(Error::Auth(_)),
{
    let c = *cursor;
    if buf.len() - c < 4 {
        return Err(Error::Auth(String::from_str("truncated ssh wire string length")));
    }
    let len: usize = (buf[c] as usize) * 16777216 + (buf[c + 1] as usize) * 65536 + (buf[c + 2]
        as usize) * 256 + (buf[c + 3] as usize);
    let body = c + 4;
    if buf.len() - body < len {
        return Err(Error::Auth(String::from_str("truncated ssh wire string body")));
    }
    let end = body + len;
    let mut v: Vec<u8> = Vec::new();
    let mut k = body;
    while k < end
        invariant
            end == body + len,
            body <= k <= end <= buf@.len(),
            v@ == buf@.subrange(body as int, k as int),
        decreases end - k,
    {
        v.push(buf[k]);
        k = k + 1;
    }
    *cursor = end;
    Ok(v)
}

/// Decodes an `ssh-ed25519` wire blob to the raw public key.
pub fn decode_ssh_wire(wire: &[u8]) -> (r: Result<[u8; 32], Error>)
    ensures
        match parse_ssh_wire(wire@) {
            None => r is Err,
            Some(pk) => r matches Ok(a) && a@ == pk,
        },
        r is Err ==> r matches Err(Error::Auth(_)),
{
    let mut cursor: usize = 0;
    let kind = read_ssh_string(wire, &mut cursor)?;
    let t = key_type_bytes();
    if !bytes_eq(&kind, &t) {
        return Err(Error::Auth(String::from_str("ssh pubkey type tag mismatch")));
    }
    let body = read_ssh_string(wire, &mut cursor)?;
    if body.len() != 32 {
        return Err(Error::Auth(String::from_str("ssh pubkey body wrong length")));
    }
    let mut out = [0u8; 32];
    let mut k: usize = 0;
    while k < 32
        invariant
            k <= 32,
            body@.len() == 32,
            forall|j: int| 0 <= j < k ==> out@[j] == body@[j],
        decreases 32 - k,
    {
        out[k] = body[k];
        k = k + 1;
    }
    assert(out@ =~= body@);
    Ok(out)
}

/// Whether two byte vectors are equal.
pub fn bytes_eq(a: &Vec<u8>, b: &Vec<u8>) -> (r: bool)
    ensures
        r == (a@ == b@),
{
    if a.len() != b.len() {
        return false;
    }
    let mut k: usize = 0;
    while k < a.len()
        invariant
            k <= a@.len() == b@.len(),
            forall|j: int| 0 <= j < k ==> a@[j] == b@[j],
        decreases a@.len() - k,
    {
        if a[k] != b[k] {
            return false;
        }
        k = k + 1;
    }
    assert(a@ =~= b@);
    true
}

/// Decoding the wire encoding of a key gives the key back.
pub proof fn lemma_ssh_wire_roundtrip(pubkey: Seq<u8>)
    requires
        pubkey.len() == 32,
    ensures
        parse_ssh_wire(ssh_wire(pubkey)) == Some(pubkey),
{
    let w = ssh_wire(pubkey);
    let t = ssh_key_type_bytes();
    lemma_be32_roundtrip(11);
    lemma_be32_roundtrip(32);
    assert(w.subrange(0, 4) =~= be32(11));
    assert(be32_at(w, 0) == be32_at(be32(11), 0));
    assert(w.subrange(4, 15) =~= t);
    assert(be32_at(w, 15) == be32_at(be32(32), 0));
    assert(w.subrange(19, 51) =~= pubkey);
}


/// `ssh-ed25519 <base64 of the wire blob>`.
pub open spec fn ssh_pubkey_text(pubkey: Seq<u8>) -> Seq<char> {
    ssh_key_type_chars() + seq![' '] + b64_encode(ssh_wire(pubkey), true)
}

/// The key that `Pubkey::from_ssh_string` reads from `s`: the first
/// whitespace-separated token must be `ssh-ed25519`, the second is the
/// standard-base64 wire blob; anything after it is ignored.
pub open spec fn parse_ssh_pubkey_text(s: Seq<char>) -> Option<Seq<u8>> {
    let a = skip_ws(s, 0);
    let b = token_end(s, a);
    let c = skip_ws(s, b);
    let d = token_end(s, c);
    if a >= s.len() || s.subrange(a, b) != ssh_key_type_chars() || c >= s.len() {
        None
    } else {
        match b64_standard_decode(s.subrange(c, d)) {
            None => None,
            Some(w) => parse_ssh_wire(w),
        }
    }
}

/// `SHA256:<unpadded base64 of the SHA-256 of the wire blob>`.
pub open spec fn fingerprint_text(pubkey: Seq<u8>) -> Seq<char> {
    seq!['S', 'H', 'A', '2', '5', '6', ':'] + b64_encode(sha256(ssh_wire(pubkey)), false)
}

/// The SSH wire form of an ed25519 key, byte by byte: the length 11, the
/// bytes of `ssh-ed25519`, the length 32, the key.
pub open spec fn ed25519_wire_bytes(pubkey: Seq<u8>) -> Seq<u8> {
    seq![0u8, 0u8, 0u8, 11u8, 115u8, 115u8, 104u8, 45u8, 101u8, 100u8, 50u8, 53u8, 53u8, 49u8, 57u8, 0u8, 0u8, 0u8, 32u8]
        + pubkey
}

/// A key's fingerprint is `SHA256:` and the unpadded base64 of the
/// SHA-256 digest of its SSH wire form, as `ssh-keygen -l` prints it.
pub proof fn lemma_fingerprint_is_wire_digest(pubkey: Seq<u8>)
    requires
        pubkey.len() == 32,
    ensures
        fingerprint_text(pubkey) == "SHA256:"@ + b64_encode(sha256(ed25519_wire_bytes(pubkey)), false),
{
    reveal_strlit("SHA256:");
    assert(be32(11) =~= seq![0u8, 0u8, 0u8, 11u8]);
    assert(be32(32) =~= seq![0u8, 0u8, 0u8, 32u8]);
    assert(ssh_wire(pubkey) =~= ed25519_wire_bytes(pubkey));
}

/// What `Pubkey::verify` reports for a signature on `message`.
pub uninterp spec fn ed25519_verifies(pubkey: Seq<u8>, message: Seq<u8>, sig: Seq<u8>) -> bool;

/// The public key of the ed25519 signing key with secret seed `seed`.
pub uninterp spec fn ed25519_public(seed: Seq<u8>) -> Seq<u8>;

/// The ed25519 signature on `message` by the key with secret seed `seed`.
pub uninterp spec fn ed25519_signature(seed: Seq<u8>, message: Seq<u8>) -> Seq<u8>;

/// `ed25519_dalek::VerifyingKey::from_bytes` then `verify`: whether `sig`
/// is a valid signature on `message` by `pubkey`; a key the library cannot
/// decode verifies nothing.
#[verifier::external_body]
fn ed25519_verify(pubkey: &[u8; 32], message: &[u8], sig: &[u8; 64]) -> (r: bool)
    ensures
        r == ed25519_verifies(pubkey@, message@, sig@),
{
    match ed25519_dalek::VerifyingKey::from_bytes(pubkey) {
        Ok(vk) => vk.verify(message, &ed25519_dalek::Signature::from_bytes(sig)).is_ok(),
        Err(_) => false,
    }
}

/// `SigningKey::from_bytes(seed).verifying_key().to_bytes()`: the public
/// key that belongs to `seed`.
#[verifier::external_body]
fn ed25519_public_key(seed: &[u8; 32]) -> (r: [u8; 32])
    ensures
        r@ == ed25519_public(seed@),
{
    ed25519_dalek::SigningKey::from_bytes(seed).verifying_key().to_bytes()
}

/// `SigningKey::from_bytes(seed).sign(message)`: the signature, which the
/// seed's public key verifies.
#[verifier::external_body]
fn ed25519_sign(seed: &[u8; 32], message: &[u8]) -> (r: [u8; 64])
    ensures
        r@ == ed25519_signature(seed@, message@),
        ed25519_verifies(ed25519_public(seed@), message@, r@),
{
    ed25519_dalek::SigningKey::from_bytes(seed).sign(message).to_bytes()
}

/// An ed25519 public key.
#[derive(Clone, Copy, Eq, Hash, Debug)]
pub struct Pubkey(pub [u8; 32]);

impl PartialEq for Pubkey {
    fn eq(&self, other: &Self) -> (r: bool) {
        let mut k: usize = 0;
        while k < 32
            invariant
                k <= 32,
                forall|j: int| 0 <= j < k ==> self.0@[j] == other.0@[j],
            decreases 32 - k,
        {
            if self.0[k] != other.0[k] {
                return false;
            }
            k = k + 1;
        }
        assert(self.0@ =~= other.0@);
        true
    }
}

impl vstd::std_specs::cmp::PartialEqSpecImpl for Pubkey {
    open spec fn obeys_eq_spec() -> bool {
        true
    }

    open spec fn eq_spec(&self, other: &Pubkey) -> bool {
        self.0@ == other.0@
    }
}

/// The refusal of a raw key that is not 32 bytes long.
pub open spec fn pubkey_length_message(len: nat) -> Seq<char> {
    "pubkey wrong length: got "@ + decimal(len) + " bytes, want 32"@
}

impl Pubkey {
    /// A key from exactly 32 raw bytes.
    pub fn from_bytes(bytes: &[u8]) -> (r: Result<Pubkey, Error>)
        ensures
            bytes@.len() == 32 <==> r is Ok,
            r matches Ok(pk) ==> pk.0@ == bytes@,
            r is Err ==> (r matches Err(Error::Auth(m)) && m@ == pubkey_length_message(bytes@.len())),
    {
        if bytes.len() != 32 {
            let mut m: Vec<char> = Vec::new();
            extend_lit(&mut m, "pubkey wrong length: got ");
            extend_decimal(&mut m, bytes.len() as u64);
            extend_lit(&mut m, " bytes, want 32");
            return Err(Error::Auth(string_of(m.as_slice())));
        }
        let mut out = [0u8; 32];
        let mut k: usize = 0;
        while k < 32
            invariant
                k <= 32,
                bytes@.len() == 32,
                forall|j: int| 0 <= j < k ==> out@[j] == bytes@[j],
            decreases 32 - k,
        {
            out[k] = bytes[k];
            k = k + 1;
        }
        assert(out@ =~= bytes@);
        Ok(Pubkey(out))
    }

    /// The raw 32 bytes.
    pub fn as_bytes(&self) -> (r: &[u8; 32])
        ensures
            r@ == self.0@,
    {
        &self.0
    }

    /// SSH wire encoding: `string("ssh-ed25519") || string(<32 bytes>)`.
    pub fn to_ssh_wire(&self) -> (r: Vec<u8>)
        ensures
            r@ == ssh_wire(self.0@),
    {
        encode_ssh_wire(&self.0)
    }

    /// `ssh-ed25519 <base64>`, the form `authorized_keys` lines use.
    /// `from_ssh_string` reads the result back as this key.
    pub fn to_ssh_string(&self) -> (r: String)
        ensures
            r@ == ssh_pubkey_text(self.0@),
            parse_ssh_pubkey_text(r@) == Some(self.0@),
    {
        let wire = encode_ssh_wire(&self.0);
        let b64 = base64_standard_encode(wire.as_slice());
        let mut out = String::from_str("ssh-ed25519 ");
        out.append(b64.as_str());
        proof {
            reveal_strlit("ssh-ed25519 ");
            assert(out@ =~= ssh_pubkey_text(self.0@));
            lemma_ssh_text_roundtrip(self.0@);
        }
        out
    }

    /// Parses `ssh-ed25519 <base64> [comment]`.
    pub fn from_ssh_string(s: &str) -> (r: Result<Pubkey, Error>)
        ensures
            match parse_ssh_pubkey_text(s@) {
                None => r matches Err(Error::Auth(_)),
                Some(pk) => r matches Ok(p) && p.0@ == pk,
            },
    {
        let cs = chars_of(s);
        let a = skip_whitespace(&cs, 0);
        proof {
            lemma_skip_ws(cs@, 0);
        }
        if a >= cs.len() {
            return Err(Error::Auth(String::from_str("empty ssh pubkey string")));
        }
        let b = find_token_end(&cs, a);
        proof {
            lemma_token_end(cs@, a as int);
        }
        let kind = slice_vec(&cs, a, b);
        if !eq_lit(&kind, "ssh-ed25519") {
            proof {
                reveal_strlit("ssh-ed25519");
                assert("ssh-ed25519"@ =~= ssh_key_type_chars());
            }
            return Err(Error::Auth(String::from_str("unsupported pubkey type, want ssh-ed25519")));
        }
        proof {
            reveal_strlit("ssh-ed25519");
            assert("ssh-ed25519"@ =~= ssh_key_type_chars());
        }
        let c = skip_whitespace(&cs, b);
        proof {
            lemma_skip_ws(cs@, b as int);
        }
        if c >= cs.len() {
            return Err(Error::Auth(String::from_str("missing base64 portion of ssh pubkey")));
        }
        let d = find_token_end(&cs, c);
        proof {
            lemma_token_end(cs@, c as int);
        }
        let b64 = string_of(slice_vec(&cs, c, d).as_slice());
        let wire = match base64_standard_decode(b64.as_str()) {
            Some(w) => w,
            None => {
                return Err(Error::Auth(String::from_str("ssh pubkey base64 decode failed")));
            },
        };
        let raw = decode_ssh_wire(wire.as_slice())?;
        Ok(Pubkey(raw))
    }

    /// `SHA256:<base64>` fingerprint, as OpenSSH prints it.
    pub fn fingerprint_sha256(&self) -> (r: String)
        ensures
            r@ == fingerprint_text(self.0@),
            r@ == "SHA256:"@ + b64_encode(sha256(ed25519_wire_bytes(self.0@)), false),
    {
        let wire = encode_ssh_wire(&self.0);
        let digest = sha256_digest(wire.as_slice());
        let b64 = base64_nopad_encode(digest.as_slice());
        let mut out = String::from_str("SHA256:");
        out.append(b64.as_str());
        proof {
            reveal_strlit("SHA256:");
            assert(out@ =~= fingerprint_text(self.0@));
            lemma_fingerprint_is_wire_digest(self.0@);
        }
        out
    }

    /// Whether `signature` is a valid ed25519 signature on `message` by this
    /// key. Anything but 64 bytes is rejected.
    pub fn verify(&self, message: &[u8], signature: &[u8]) -> (r: bool)
        ensures
            r == (signature@.len() == 64 && ed25519_verifies(self.0@, message@, signature@)),
    {
        if signature.len() != 64 {
            return false;
        }
        let mut sig = [0u8; 64];
        let mut k: usize = 0;
        while k < 64
            invariant
                k <= 64,
                signature@.len() == 64,
                forall|j: int| 0 <= j < k ==> sig@[j] == signature@[j],
            decreases 64 - k,
        {
            sig[k] = signature[k];
            k = k + 1;
        }
        assert(sig@ =~= signature@);
        ed25519_verify(&self.0, message, &sig)
    }
}


/// A stretch with no whitespace ending at whitespace (or the end) is one
/// token.
pub proof fn lemma_token_is(s: Seq<char>, i: int, j: int)
    requires
        0 <= i <= j <= s.len(),
        forall|k: int| i <= k < j ==> !is_ws(#[trigger] s[k]),
        j == s.len() || is_ws(s[j]),
    ensures
        token_end(s, i) == j,
    decreases j - i,
{
    if i < j {
        lemma_token_is(s, i + 1, j);
    }
}

/// `ssh-ed25519 <base64>` reads back as the key that produced it, given
/// that the base64 decoder undoes the encoder on the wire blob.
proof fn lemma_ssh_text_roundtrip(pubkey: Seq<u8>)
    requires
        pubkey.len() == 32,
        b64_standard_decode(b64_encode(ssh_wire(pubkey), true)) == Some(ssh_wire(pubkey)),
    ensures
        parse_ssh_pubkey_text(ssh_pubkey_text(pubkey)) == Some(pubkey),
{
    let t = ssh_pubkey_text(pubkey);
    let w = ssh_wire(pubkey);
    let e = b64_encode(w, true);
    lemma_b64_text(w, true);
    assert(w.len() == 51);
    assert(t.len() == 12 + e.len());
    assert(forall|k: int| 0 <= k < 11 ==> !is_ws(#[trigger] t[k]));
    assert(skip_ws(t, 0) == 0);
    lemma_token_is(t, 0, 11);
    assert(is_ws(t[11]));
    assert(!is_ws(t[12])) by {
        assert(t[12] == e[0]);
        assert(is_b64_text_char(e[0]));
    }
    assert(skip_ws(t, 12) == 12);
    assert(skip_ws(t, 11) == 12);
    assert forall|k: int| 12 <= k < t.len() implies !is_ws(#[trigger] t[k]) by {
        assert(t[k] == e[k - 12]);
        assert(is_b64_text_char(e[k - 12]));
    }
    lemma_token_is(t, 12, t.len() as int);
    assert(t.subrange(0, 11) =~= ssh_key_type_chars());
    assert(t.subrange(12, t.len() as int) =~= e);
    lemma_ssh_wire_roundtrip(pubkey);
}


/// `std::str::from_utf8`: the text the bytes encode, or `None` for bytes
/// that are not UTF-8.
#[verifier::external_body]
pub(crate) fn utf8_text(bytes: &[u8]) -> (r: Option<String>)
    ensures
        r is Some <==> valid_utf8(bytes@),
        r matches Some(t) ==> t@ == decode_utf8(bytes@),
{
    std::str::from_utf8(bytes).ok().map(|t| t.to_string())
}

/// The device identity used to authenticate handshakes. It has no `Debug`:
/// the seed must not reach a log; `describe` shows the public part.
#[derive(Clone)]
pub enum Identity {
    /// The 32-byte ed25519 seed, held in memory, with its public key.
    File { seed: [u8; 32], pubkey: Pubkey },
    /// Signing is delegated to the ssh-agent listening on `socket`; `pubkey`
    /// selects the agent's key.
    Agent { socket: String, pubkey: Pubkey },
}

/// First line of `s` as `str::lines` yields it (`\n` or `\r\n` ends a line),
/// or `None` for empty text.
pub open spec fn first_line(s: Seq<char>) -> Option<Seq<char>> {
    if s.len() == 0 {
        None
    } else if exists|i: int| 0 <= i < s.len() && s[i] == '\n' {
        let e = choose|i: int|
            0 <= i < s.len() && s[i] == '\n' && forall|j: int| 0 <= j < i ==> s[j] != '\n';
        if e > 0 && s[e - 1] == '\r' {
            Some(s.subrange(0, e - 1))
        } else {
            Some(s.subrange(0, e))
        }
    } else {
        Some(s)
    }
}

/// `agentsync-identity-v1 ` as characters.
pub open spec fn identity_header() -> Seq<char> {
    seq![
        'a', 'g', 'e', 'n', 't', 's', 'y', 'n', 'c', '-', 'i', 'd', 'e', 'n', 't', 'i', 't', 'y',
        '-', 'v', '1', ' ',
    ]
}

/// The seed an identity file holds: its first line must start with
/// `agentsync-identity-v1 `; the rest, trimmed, is the unpadded base64 of
/// exactly 32 bytes.
pub open spec fn parse_identity_text(s: Seq<char>) -> Option<Seq<u8>> {
    match first_line(s) {
        None => None,
        Some(l) => if l.len() < identity_header().len() || l.subrange(
            0,
            identity_header().len() as int,
        ) != identity_header() {
            None
        } else {
            match b64_nopad_decode(trim(l.subrange(identity_header().len() as int, l.len() as int))) {
                None => None,
                Some(b) => if b.len() != 32 {
                    None
                } else {
                    Some(b)
                },
            }
        },
    }
}

/// The body of an identity file for `seed`.
pub open spec fn identity_text(seed: Seq<u8>) -> Seq<char> {
    identity_header() + b64_encode(seed, false) + seq!['\n']
}

impl Identity {
    /// The public key.
    pub open spec fn spec_pubkey(&self) -> Pubkey {
        match self {
            Identity::File { pubkey, .. } => *pubkey,
            Identity::Agent { pubkey, .. } => *pubkey,
        }
    }

    /// A file-backed identity's public key belongs to its seed.
    pub open spec fn wf(&self) -> bool {
        match self {
            Identity::File { seed, pubkey } => pubkey.0@ == ed25519_public(seed@),
            Identity::Agent { .. } => true,
        }
    }

    /// A fresh file-backed identity from a random seed.
    pub fn generate() -> (r: Identity)
        ensures
            r is File,
            r.wf(),
    {
        Identity::from_seed(random_bytes_32())
    }

    /// The file-backed identity with secret seed `seed`.
    pub fn from_seed(seed: [u8; 32]) -> (r: Identity)
        ensures
            r matches Identity::File { seed: s, pubkey } && s == seed && pubkey.0@ == ed25519_public(
                seed@,
            ),
            r.wf(),
    {
        let pk = ed25519_public_key(&seed);
        Identity::File { seed, pubkey: Pubkey(pk) }
    }

    /// An agent-backed identity: `pubkey` selects which of the agent's keys
    /// signs.
    pub fn from_agent(socket: String, pubkey: Pubkey) -> (r: Identity)
        ensures
            r == (Identity::Agent { socket, pubkey }),
    {
        Identity::Agent { socket, pubkey }
    }

    /// The public key.
    pub fn pubkey(&self) -> (r: Pubkey)
        ensures
            r == self.spec_pubkey(),
    {
        match self {
            Identity::File { pubkey, .. } => *pubkey,
            Identity::Agent { pubkey, .. } => *pubkey,
        }
    }

    /// The 32-byte seed of a file-backed identity; an agent-backed one has
    /// no exportable secret.
    pub fn seed(&self) -> (r: Result<[u8; 32], Error>)
        ensures
            match self {
                Identity::File { seed, .. } => r == Ok::<[u8; 32], Error>(*seed),
                Identity::Agent { .. } => r matches Err(Error::Auth(_)),
            },
    {
        match self {
            Identity::File { seed, .. } => Ok(*seed),
            Identity::Agent { .. } => Err(
                Error::Auth(String::from_str("agent-backed identity has no exportable seed")),
            ),
        }
    }

    /// Signs `message` with a file-backed identity. An agent-backed identity
    /// signs through its agent (see `agent_sign_request`), so here it gives
    /// `None`.
    pub fn sign(&self, message: &[u8]) -> (r: Option<[u8; 64]>)
        ensures
            match self {
                Identity::File { seed, .. } => r matches Some(sig) && sig@ == ed25519_signature(
                    seed@,
                    message@,
                ),
                Identity::Agent { .. } => r is None,
            },
            self.wf() && r is Some ==> self.spec_pubkey().verify_spec(message@, r->0@),
    {
        match self {
            Identity::File { seed, .. } => Some(ed25519_sign(seed, message)),
            Identity::Agent { .. } => None,
        }
    }

    /// The identity file body: `agentsync-identity-v1 <base64 seed>\n`.
    /// Only file-backed identities have one. `from_file_contents` reads it
    /// back as the same seed.
    pub fn to_file_contents(&self) -> (r: Result<String, Error>)
        ensures
            match self {
                Identity::File { seed, .. } => r matches Ok(t) && t@ == identity_text(seed@)
                    && parse_identity_text(t@) == Some(seed@),
                Identity::Agent { .. } => r matches Err(Error::Auth(_)),
            },
    {
        let seed = self.seed()?;
        let b64 = base64_nopad_encode(seed.as_slice());
        let mut out = String::from_str("agentsync-identity-v1 ");
        out.append(b64.as_str());
        out.append("\n");
        proof {
            reveal_strlit("agentsync-identity-v1 ");
            reveal_strlit("\n");
            assert(out@ =~= identity_text(seed@));
            lemma_identity_text_roundtrip(seed@);
        }
        Ok(out)
    }

    /// Reads an identity file body (see `to_file_contents`).
    pub fn from_file_contents(bytes: &[u8]) -> (r: Result<Identity, Error>)
        ensures
            !valid_utf8(bytes@) ==> r matches Err(Error::InvalidUtf8),
            valid_utf8(bytes@) ==> match parse_identity_text(decode_utf8(bytes@)) {
                None => r matches Err(Error::Auth(_)),
                Some(seed) => r matches Ok(id) && id is File && id.wf() && id->File_seed@ == seed,
            },
    {
        let text = match utf8_text(bytes) {
            Some(t) => t,
            None => {
                return Err(Error::InvalidUtf8);
            },
        };
        let cs = chars_of(text.as_str());
        let seed = parse_identity_chars(&cs)?;
        Ok(Identity::from_seed(seed))
    }

    /// The identity as it may be shown: its kind and public key, and for
    /// an agent identity the socket; never the seed.
    pub fn describe(&self) -> (r: String)
        ensures
            r@ == match self {
                Identity::File { pubkey, .. } => "Identity::File("@ + ssh_pubkey_text(pubkey.0@) + ")"@,
                Identity::Agent { socket, pubkey } => "Identity::Agent("@ + ssh_pubkey_text(pubkey.0@) + " via "@
                    + socket@ + ")"@,
            },
    {
        match self {
            Identity::File { pubkey, .. } => {
                let mut out = String::from_str("Identity::File(");
                out.append(pubkey.to_ssh_string().as_str());
                out.append(")");
                out
            },
            Identity::Agent { socket, pubkey } => {
                let mut out = String::from_str("Identity::Agent(");
                out.append(pubkey.to_ssh_string().as_str());
                out.append(" via ");
                out.append(socket.as_str());
                out.append(")");
                out
            },
        }
    }

    /// The `.pub` sidecar body: `ssh-ed25519 <base64>\n`.
    pub fn pubkey_file_contents(&self) -> (r: String)
        ensures
            r@ == ssh_pubkey_text(self.spec_pubkey().0@) + seq!['\n'],
    {
        let mut out = self.pubkey().to_ssh_string();
        out.append("\n");
        proof {
            reveal_strlit("\n");
        }
        out
    }
}

impl Pubkey {
    /// What `verify` reports.
    pub open spec fn verify_spec(&self, message: Seq<u8>, signature: Seq<u8>) -> bool {
        signature.len() == 64 && ed25519_verifies(self.0@, message, signature)
    }
}


/// Executable `parse_identity_text`.
fn parse_identity_chars(cs: &Vec<char>) -> (r: Result<[u8; 32], Error>)
    ensures
        match parse_identity_text(cs@) {
            None => r matches Err(Error::Auth(_)),
            Some(seed) => r matches Ok(a) && a@ == seed,
        },
{
    let line = match first_line_of(&cs) {
        Some(l) => l,
        None => {
            return Err(Error::Auth(String::from_str("empty identity file")));
        },
    };
    proof {
        reveal_strlit("agentsync-identity-v1 ");
        assert("agentsync-identity-v1 "@ =~= identity_header());
    }
    if !starts_with_lit(&line, "agentsync-identity-v1 ") {
        return Err(
            Error::Auth(String::from_str("identity file is not in agentsync-identity-v1 format")),
        );
    }
    let rest = slice_vec(&line, 22, line.len());
    let rest = trim_vec(&rest);
    let seed_bytes = match base64_nopad_decode(string_of(rest.as_slice()).as_str()) {
        Some(b) => b,
        None => {
            return Err(Error::Auth(String::from_str("identity file base64 decode failed")));
        },
    };
    if seed_bytes.len() != 32 {
        return Err(Error::Auth(String::from_str("identity seed wrong length")));
    }
    let mut seed = [0u8; 32];
    let mut k: usize = 0;
    while k < 32
        invariant
            k <= 32,
            seed_bytes@.len() == 32,
            forall|j: int| 0 <= j < k ==> seed@[j] == seed_bytes@[j],
        decreases 32 - k,
    {
        seed[k] = seed_bytes[k];
        k = k + 1;
    }
    assert(seed@ =~= seed_bytes@);
    Ok(seed)
}

/// Executable `first_line`.
fn first_line_of(s: &Vec<char>) -> (r: Option<Vec<char>>)
    ensures
        match first_line(s@) {
            None => r is None,
            Some(l) => r matches Some(v) && v@ == l,
        },
{
    if s.len() == 0 {
        return None;
    }
    let mut e: usize = 0;
    while e < s.len() && s[e] != '\n'
        invariant
            e <= s@.len(),
            forall|j: int| 0 <= j < e ==> s@[j] != '\n',
        decreases s@.len() - e,
    {
        e = e + 1;
    }
    if e == s.len() {
        proof {
            assert(!exists|i: int| 0 <= i < s@.len() && s@[i] == '\n');
        }
        return Some(slice_vec(s, 0, e));
    }
    proof {
        let c = choose|i: int|
            0 <= i < s@.len() && s@[i] == '\n' && forall|j: int| 0 <= j < i ==> s@[j] != '\n';
        assert(c == e) by {
            if c < e {
                assert(s@[c] != '\n');
            }
            if c > e {
                assert(s@[e as int] != '\n');
            }
        }
    }
    if e > 0 && s[e - 1] == '\r' {
        Some(slice_vec(s, 0, e - 1))
    } else {
        Some(slice_vec(s, 0, e))
    }
}

/// An identity file reads back as the seed it was written for, given that
/// the base64 decoder undoes the encoder on the seed.
#[verifier::rlimit(40)]
#[verifier::spinoff_prover]
proof fn lemma_identity_text_roundtrip(seed: Seq<u8>)
    requires
        seed.len() == 32,
        b64_nopad_decode(b64_encode(seed, false)) == Some(seed),
    ensures
        parse_identity_text(identity_text(seed)) == Some(seed),
{
    let t = identity_text(seed);
    let e = b64_encode(seed, false);
    lemma_b64_text(seed, false);
    let h = identity_header();
    assert(t.len() == 22 + e.len() + 1);
    let n = t.len() - 1;
    assert(t[n] == '\n');
    assert forall|j: int| 0 <= j < n implies t[j] != '\n' by {
        if j < 22 {
            assert(t[j] == h[j]);
        } else {
            assert(t[j] == e[j - 22]);
            assert(is_b64_text_char(e[j - 22]));
        }
    }
    let c = choose|i: int|
        0 <= i < t.len() && t[i] == '\n' && forall|j: int| 0 <= j < i ==> t[j] != '\n';
    assert(c == n) by {
        if c < n {
            assert(t[c] != '\n');
        }
    }
    assert(t[n - 1] == e[e.len() - 1]);
    assert(is_b64_text_char(e[e.len() - 1]));
    let l = t.subrange(0, n);
    assert(first_line(t) == Some(l));
    assert(l.subrange(0, 22) =~= h);
    let rest = l.subrange(22, l.len() as int);
    assert(rest =~= e);
    assert(is_b64_text_char(e[0]));
    lemma_trim_noop(e);
}


pub const SSH_AGENTC_REQUEST_IDENTITIES: u8 = 11;

pub const SSH_AGENT_IDENTITIES_ANSWER: u8 = 12;

pub const SSH_AGENTC_SIGN_REQUEST: u8 = 13;

pub const SSH_AGENT_SIGN_RESPONSE: u8 = 14;

pub const SSH_AGENT_FAILURE: u8 = 5;

/// The framed "list identities" request: length 1, type 11.
pub fn agent_identities_request() -> (r: Vec<u8>)
    ensures
        r@ == seq![0u8, 0u8, 0u8, 1u8, SSH_AGENTC_REQUEST_IDENTITIES],
{
    let r: Vec<u8> = vec![0u8, 0u8, 0u8, 1u8, SSH_AGENTC_REQUEST_IDENTITIES];
    assert(r@ =~= seq![0u8, 0u8, 0u8, 1u8, SSH_AGENTC_REQUEST_IDENTITIES]);
    r
}

/// The sign request body: type 13, the key blob, the message, flags 0.
pub open spec fn agent_sign_payload(pubkey: Seq<u8>, message: Seq<u8>) -> Seq<u8> {
    seq![SSH_AGENTC_SIGN_REQUEST] + ssh_string(ssh_wire(pubkey)) + ssh_string(message) + be32(0)
}

/// The framed sign request asking the agent to sign `message` with
/// `pubkey`.
pub fn agent_sign_request(pubkey: &Pubkey, message: &[u8]) -> (r: Vec<u8>)
    requires
        message@.len() + 64 < 0x1_0000_0000,
    ensures
        r@ == ssh_string(agent_sign_payload(pubkey.0@, message@)),
{
    let mut payload: Vec<u8> = Vec::new();
    payload.push(SSH_AGENTC_SIGN_REQUEST);
    let wire = encode_ssh_wire(&pubkey.0);
    write_string(&mut payload, wire.as_slice());
    write_string(&mut payload, message);
    push_be32(&mut payload, 0);
    assert(payload@ =~= agent_sign_payload(pubkey.0@, message@));
    let mut req: Vec<u8> = Vec::new();
    write_string(&mut req, payload.as_slice());
    assert(req@ =~= ssh_string(agent_sign_payload(pubkey.0@, message@)));
    req
}

/// The signature inside an agent's sign response body, if it is one: type
/// 14, then a blob holding `string("ssh-ed25519") || string(<64 bytes>)`.
pub open spec fn agent_signature(resp: Seq<u8>) -> Option<Seq<u8>> {
    if resp.len() == 0 || resp[0] != SSH_AGENT_SIGN_RESPONSE {
        None
    } else {
        match ssh_string_at(resp, 1) {
            None => None,
            Some((a, b)) => {
                let blob = resp.subrange(a, b);
                match ssh_string_at(blob, 0) {
                    None => None,
                    Some((c, d)) => if blob.subrange(c, d) != ssh_key_type_bytes() {
                        None
                    } else {
                        match ssh_string_at(blob, d) {
                            None => None,
                            Some((e, f)) => if f - e != 64 {
                                None
                            } else {
                                Some(blob.subrange(e, f))
                            },
                        }
                    },
                }
            },
        }
    }
}

/// Reads the signature out of an agent's sign response body.
pub fn parse_agent_sign_response(resp: &[u8]) -> (r: Result<[u8; 64], Error>)
    ensures
        match agent_signature(resp@) {
            None => r matches Err(Error::Auth(_)),
            Some(sig) => r matches Ok(a) && a@ == sig,
        },
{
    if resp.len() == 0 {
        return Err(Error::Auth(String::from_str("ssh-agent empty response")));
    }
    if resp[0] == SSH_AGENT_FAILURE {
        return Err(
            Error::Auth(
                String::from_str(
                    "ssh-agent refused to sign (user cancelled, key locked, or wrong key)",
                ),
            ),
        );
    }
    if resp[0] != SSH_AGENT_SIGN_RESPONSE {
        return Err(Error::Auth(String::from_str("ssh-agent returned unexpected response type")));
    }
    let mut cursor: usize = 1;
    let blob = read_ssh_string(resp, &mut cursor)?;
    let mut inner: usize = 0;
    let kind = read_ssh_string(blob.as_slice(), &mut inner)?;
    let t = key_type_bytes();
    if !bytes_eq(&kind, &t) {
        return Err(Error::Auth(String::from_str("ssh-agent returned unexpected key type")));
    }
    let sig = read_ssh_string(blob.as_slice(), &mut inner)?;
    if sig.len() != 64 {
        return Err(Error::Auth(String::from_str("ssh-agent returned signature of wrong length")));
    }
    let mut out = [0u8; 64];
    let mut k: usize = 0;
    while k < 64
        invariant
            k <= 64,
            sig@.len() == 64,
            forall|j: int| 0 <= j < k ==> out@[j] == sig@[j],
        decreases 64 - k,
    {
        out[k] = sig[k];
        k = k + 1;
    }
    assert(out@ =~= sig@);
    Ok(out)
}

/// The ed25519 keys listed by `n` (blob, comment) entries starting at `c`;
/// blobs of other key types are skipped. `None` if an entry is truncated.
pub open spec fn agent_keys(resp: Seq<u8>, c: int, n: nat) -> Option<Seq<Seq<u8>>>
    decreases n,
{
    if n == 0 {
        Some(Seq::empty())
    } else {
        match ssh_string_at(resp, c) {
            None => None,
            Some((a, b)) => match ssh_string_at(resp, b) {
                None => None,
                Some((_x, d)) => match agent_keys(resp, d, (n - 1) as nat) {
                    None => None,
                    Some(rest) => match parse_ssh_wire(resp.subrange(a, b)) {
                        Some(pk) => Some(seq![pk] + rest),
                        None => Some(rest),
                    },
                },
            },
        }
    }
}

/// The keys an agent's identities answer body lists: type 12, a count,
/// then that many (blob, comment) entries.
pub open spec fn agent_identities(resp: Seq<u8>) -> Option<Seq<Seq<u8>>> {
    if resp.len() < 5 || resp[0] != SSH_AGENT_IDENTITIES_ANSWER {
        None
    } else {
        agent_keys(resp, 5, be32_at(resp, 1) as nat)
    }
}

/// Prepends `pre` to an optional list.
pub open spec fn prepend_keys(pre: Seq<Seq<u8>>, rest: Option<Seq<Seq<u8>>>) -> Option<
    Seq<Seq<u8>>,
> {
    match rest {
        None => None,
        Some(r) => Some(pre + r),
    }
}

/// Reads the ed25519 keys out of an agent's identities answer body.
pub fn parse_agent_identities(resp: &[u8]) -> (r: Result<Vec<Pubkey>, Error>)
    ensures
        match agent_identities(resp@) {
            None => r matches Err(Error::Auth(_)),
            Some(keys) => r matches Ok(v) && v@.map_values(|p: Pubkey| p.0@) == keys,
        },
{
    if resp.len() == 0 || resp[0] != SSH_AGENT_IDENTITIES_ANSWER {
        return Err(Error::Auth(String::from_str("ssh-agent did not return identities")));
    }
    if resp.len() < 5 {
        return Err(Error::Auth(String::from_str("ssh-agent identities response truncated")));
    }
    let n: usize = (resp[1] as usize) * 16777216 + (resp[2] as usize) * 65536 + (resp[3] as usize)
        * 256 + (resp[4] as usize);
    let mut cursor: usize = 5;
    let mut keys: Vec<Pubkey> = Vec::new();
    let mut i: usize = 0;
    while i < n
        invariant
            i <= n,
            n == be32_at(resp@, 1),
            cursor <= resp@.len(),
            resp@.len() >= 5,
            resp@[0] == SSH_AGENT_IDENTITIES_ANSWER,
            agent_identities(resp@) == prepend_keys(
                keys@.map_values(|p: Pubkey| p.0@),
                agent_keys(resp@, cursor as int, (n - i) as nat),
            ),
        decreases n - i,
    {
        let ghost c0 = cursor as int;
        let ghost k0 = keys@.map_values(|p: Pubkey| p.0@);
        let blob = read_ssh_string(resp, &mut cursor)?;
        let _comment = read_ssh_string(resp, &mut cursor)?;
        match decode_ssh_wire(blob.as_slice()) {
            Ok(raw) => {
                keys.push(Pubkey(raw));
                proof {
                    assert(keys@.map_values(|p: Pubkey| p.0@) =~= k0.push(raw@));
                    let rest = agent_keys(resp@, cursor as int, (n - i - 1) as nat);
                    if rest is Some {
                        assert(k0 + (seq![raw@] + rest->0) =~= k0.push(raw@) + rest->0);
                    }
                }
            },
            Err(_) => {},
        }
        i = i + 1;
    }
    proof {
        assert(keys@.map_values(|p: Pubkey| p.0@) + Seq::<Seq<u8>>::empty() =~= keys@.map_values(
            |p: Pubkey| p.0@,
        ));
    }
    Ok(keys)
}


/// `p` without trailing separators and trailing `/.` components.
pub open spec fn strip_path_tail(p: Seq<char>) -> Seq<char>
    decreases p.len(),
{
    if p.len() > 0 && p[p.len() - 1] == '/' {
        strip_path_tail(p.drop_last())
    } else if p.len() >= 2 && p[p.len() - 1] == '.' && p[p.len() - 2] == '/' {
        strip_path_tail(p.subrange(0, p.len() - 2))
    } else {
        p
    }
}

/// Index just after the last `/` in `t` (0 if none).
pub open spec fn last_sep_end(t: Seq<char>, i: int) -> int
    decreases i,
{
    if i <= 0 {
        0
    } else if t[i - 1] == '/' {
        i
    } else {
        last_sep_end(t, i - 1)
    }
}

/// The path of the public-key file written next to the identity secret at
/// `p`: `p` with `.pub` appended to its file name. A path with no file
/// name (empty, `/`, ending in `.` or `..`) is returned unchanged.
pub open spec fn pubkey_sidecar_spec(p: Seq<char>) -> Seq<char> {
    let t = strip_path_tail(p);
    let name = t.subrange(last_sep_end(t, t.len() as int), t.len() as int);
    if name.len() == 0 || name == seq!['.'] || name == seq!['.', '.'] {
        p
    } else {
        t + seq!['.', 'p', 'u', 'b']
    }
}

/// See `pubkey_sidecar_spec`.
pub fn pubkey_sidecar(secret_path: &str) -> (r: String)
    ensures
        r@ == pubkey_sidecar_spec(secret_path@),
{
    let p = chars_of(secret_path);
    let mut e = p.len();
    proof {
        assert(p@.subrange(0, p@.len() as int) =~= p@);
    }
    while (e > 0 && p[e - 1] == '/') || (e >= 2 && p[e - 1] == '.' && p[e - 2] == '/')
        invariant
            e <= p@.len(),
            strip_path_tail(p@.subrange(0, e as int)) == strip_path_tail(p@),
        decreases e,
    {
        proof {
            if e > 0 && p@[e - 1] == '/' {
                assert(p@.subrange(0, e as int).drop_last() =~= p@.subrange(0, e - 1));
            } else {
                assert(p@.subrange(0, e as int).subrange(0, e - 2) =~= p@.subrange(0, e - 2));
            }
        }
        if e > 0 && p[e - 1] == '/' {
            e = e - 1;
        } else {
            e = e - 2;
        }
    }
    let t = slice_vec(&p, 0, e);
    proof {
        assert(p@.subrange(0, p@.len() as int) =~= p@);
    }
    let mut b = t.len();
    while b > 0 && t[b - 1] != '/'
        invariant
            b <= t@.len(),
            last_sep_end(t@, b as int) == last_sep_end(t@, t@.len() as int),
        decreases b,
    {
        b = b - 1;
    }
    let name = slice_vec(&t, b, t.len());
    proof {
        reveal_strlit(".");
        reveal_strlit("..");
        assert("."@ =~= seq!['.']);
        assert(".."@ =~= seq!['.', '.']);
    }
    if name.len() == 0 || eq_lit(&name, ".") || eq_lit(&name, "..") {
        return string_of(p.as_slice());
    }
    let mut out = t;
    extend_lit(&mut out, ".pub");
    proof {
        reveal_strlit(".pub");
        assert(".pub"@ =~= seq!['.', 'p', 'u', 'b']);
    }
    string_of(out.as_slice())
}

} // verus!
