//! Byte encodings and digests the library relies on: base64 (standard
//! alphabet, with and without padding), lowercase hex, SHA-256 and
//! HMAC-SHA-256. The work is done by the `base64`, `hex`, `sha2` and `hmac`
//! crates; the contracts below say what each call returns.

use base64::Engine;
use hmac::Mac;
use rand_core::RngCore;
use sha2::Digest;
use vstd::prelude::*;

verus! {

/// The standard base64 alphabet (`A-Z a-z 0-9 + /`).
pub open spec fn b64_char(v: int) -> char {
    if v < 26 {
        ((65 + v) as u32) as char
    } else if v < 52 {
        ((97 + v - 26) as u32) as char
    } else if v < 62 {
        ((48 + v - 52) as u32) as char
    } else if v == 62 {
        '+'
    } else {
        '/'
    }
}

/// Standard base64 of `b`; `pad` adds the trailing `=` characters.
pub open spec fn b64_encode(b: Seq<u8>, pad: bool) -> Seq<char>
    decreases b.len(),
{
    if b.len() == 0 {
        Seq::empty()
    } else if b.len() == 1 {
        let head = seq![b64_char((b[0] as int) / 4), b64_char(((b[0] as int) % 4) * 16)];
        if pad {
            head + seq!['=', '=']
        } else {
            head
        }
    } else if b.len() == 2 {
        let head = seq![
            b64_char((b[0] as int) / 4),
            b64_char(((b[0] as int) % 4) * 16 + (b[1] as int) / 16),
            b64_char(((b[1] as int) % 16) * 4),
        ];
        if pad {
            head.push('=')
        } else {
            head
        }
    } else {
        seq![
            b64_char((b[0] as int) / 4),
            b64_char(((b[0] as int) % 4) * 16 + (b[1] as int) / 16),
            b64_char(((b[1] as int) % 16) * 4 + (b[2] as int) / 64),
            b64_char((b[2] as int) % 64),
        ] + b64_encode(b.subrange(3, b.len() as int), pad)
    }
}

/// Every base64 character is an ASCII letter, digit, `+`, `/` or `=`.
pub open spec fn is_b64_text_char(c: char) -> bool {
    ('A' <= c <= 'Z') || ('a' <= c <= 'z') || ('0' <= c <= '9') || c == '+' || c == '/' || c
        == '='
}

proof fn lemma_b64_char(v: int)
    requires
        0 <= v < 64,
    ensures
        is_b64_text_char(b64_char(v)),
{
}

/// Base64 text is made of base64 characters only, and is empty only for
/// empty input.
pub proof fn lemma_b64_text(b: Seq<u8>, pad: bool)
    ensures
        forall|i: int| 0 <= i < b64_encode(b, pad).len() ==> is_b64_text_char(#[trigger] b64_encode(b, pad)[i]),
        b64_encode(b, pad).len() == 0 <==> b.len() == 0,
        !pad ==> b64_encode(b, pad).len() == (4 * b.len() + 2) / 3,
    decreases b.len(),
{
    if b.len() > 0 {
        let x0 = b[0] as int;
        lemma_b64_char(x0 / 4);
        lemma_b64_char((x0 % 4) * 16);
        if b.len() >= 2 {
            let x1 = b[1] as int;
            lemma_b64_char((x0 % 4) * 16 + x1 / 16);
            lemma_b64_char((x1 % 16) * 4);
            if b.len() >= 3 {
                let x2 = b[2] as int;
                lemma_b64_char((x1 % 16) * 4 + x2 / 64);
                lemma_b64_char(x2 % 64);
                lemma_b64_text(b.subrange(3, b.len() as int), pad);
            }
        }
    }
}

/// What `STANDARD.decode` (padded, canonical) yields for `text`, or `None`
/// where it reports an error.
pub uninterp spec fn b64_standard_decode(text: Seq<char>) -> Option<Seq<u8>>;

/// What `STANDARD_NO_PAD.decode` yields for `text`, or `None` where it
/// reports an error.
pub uninterp spec fn b64_nopad_decode(text: Seq<char>) -> Option<Seq<u8>>;

/// SHA-256 digest of `b`.
pub uninterp spec fn sha256(b: Seq<u8>) -> Seq<u8>;

/// HMAC-SHA-256 of `msg` under `key`.
pub uninterp spec fn hmac_sha256(key: Seq<u8>, msg: Seq<u8>) -> Seq<u8>;

/// `base64::engine::general_purpose::STANDARD.encode`: the padded base64
/// text of `bytes`, which the same engine decodes back to `bytes`.
#[verifier::external_body]
pub(crate) fn base64_standard_encode(bytes: &[u8]) -> (r: String)
    ensures
        r@ == b64_encode(bytes@, true),
        b64_standard_decode(r@) == Some(bytes@),
{
    base64::engine::general_purpose::STANDARD.encode(bytes)
}

/// `base64::engine::general_purpose::STANDARD_NO_PAD.encode`: the unpadded
/// base64 text of `bytes`, which the same engine decodes back to `bytes`.
#[verifier::external_body]
pub(crate) fn base64_nopad_encode(bytes: &[u8]) -> (r: String)
    ensures
        r@ == b64_encode(bytes@, false),
        b64_nopad_decode(r@) == Some(bytes@),
{
    base64::engine::general_purpose::STANDARD_NO_PAD.encode(bytes)
}

/// `base64::engine::general_purpose::STANDARD.decode`, with the decoder's
/// error reported as `None`.
#[verifier::external_body]
pub(crate) fn base64_standard_decode(text: &str) -> (r: Option<Vec<u8>>)
    ensures
        r matches Some(v) ==> b64_standard_decode(text@) == Some(v@),
        r is None ==> b64_standard_decode(text@) is None,
{
    base64::engine::general_purpose::STANDARD.decode(text.as_bytes()).ok()
}

/// `base64::engine::general_purpose::STANDARD_NO_PAD.decode`, with the
/// decoder's error reported as `None`.
#[verifier::external_body]
pub(crate) fn base64_nopad_decode(text: &str) -> (r: Option<Vec<u8>>)
    ensures
        r matches Some(v) ==> b64_nopad_decode(text@) == Some(v@),
        r is None ==> b64_nopad_decode(text@) is None,
{
    base64::engine::general_purpose::STANDARD_NO_PAD.decode(text.as_bytes()).ok()
}

/// `sha2::Sha256::digest`: the 32-byte digest of `bytes`.
#[verifier::external_body]
pub(crate) fn sha256_digest(bytes: &[u8]) -> (r: Vec<u8>)
    ensures
        r@ == sha256(bytes@),
        r@.len() == 32,
{
    sha2::Sha256::digest(bytes).to_vec()
}

/// `hmac::Hmac<Sha256>` keyed with `key`, fed `msg`, finalized: the 32-byte
/// tag.
#[verifier::external_body]
pub(crate) fn hmac_sha256_tag(key: &[u8], msg: &[u8]) -> (r: Vec<u8>)
    ensures
        r@ == hmac_sha256(key@, msg@),
        r@.len() == 32,
{
    let mut mac = <hmac::Hmac<sha2::Sha256> as Mac>::new_from_slice(key).unwrap();
    mac.update(msg);
    mac.finalize().into_bytes().to_vec()
}

/// 32 bytes from the operating system's random source
/// (`rand_core::OsRng`). Nothing is promised of their value.
#[verifier::external_body]
pub(crate) fn random_bytes_32() -> (r: [u8; 32]) {
    let mut b = [0u8; 32];
    rand_core::OsRng.fill_bytes(&mut b);
    b
}

/// The 32 bytes of `v` as an array.
pub fn array32_of(v: &Vec<u8>) -> (r: [u8; 32])
    requires
        v@.len() == 32,
    ensures
        r@ == v@,
{
    let mut out = [0u8; 32];
    let mut k: usize = 0;
    while k < 32
        invariant
            k <= 32,
            v@.len() == 32,
            forall|j: int| 0 <= j < k ==> out@[j] == v@[j],
        decreases 32 - k,
    {
        out[k] = v[k];
        k = k + 1;
    }
    assert(out@ =~= v@);
    out
}

/// Lowercase hex digit for `v` in `0..16`.
pub open spec fn hex_digit(v: int) -> char {
    if v < 10 {
        ((48 + v) as u32) as char
    } else {
        ((97 + v - 10) as u32) as char
    }
}

/// Lowercase hex text of `b`, two digits per byte.
pub open spec fn hex_lower(b: Seq<u8>) -> Seq<char>
    decreases b.len(),
{
    if b.len() == 0 {
        Seq::empty()
    } else {
        seq![hex_digit((b[0] as int) / 16), hex_digit((b[0] as int) % 16)] + hex_lower(b.subrange(1, b.len() as int))
    }
}

/// `hex::encode`: lowercase hex, two digits per byte.
#[verifier::external_body]
pub(crate) fn hex_encode(bytes: &[u8]) -> (r: String)
    ensures
        r@ == hex_lower(bytes@),
{
    hex::encode(bytes)
}

} // verus!
