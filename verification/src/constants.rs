//! Defaults shared between the command line and the library, and the
//! completion of rendezvous URLs.

use crate::text::{
    chars_of, extend_chars, extend_lit, is_ws, lemma_trim_edges, lemma_trim_idempotent, lemma_trim_noop,
    starts_with_lit, string_of, trim, trim_vec,
};
use vstd::prelude::*;

verus! {

/// Default `--listen` port: the `wss://` scheme port, so URLs can leave it
/// out.
pub const DEFAULT_PORT: u16 = 443;

/// Default `--listen` bind address (`0.0.0.0:<DEFAULT_PORT>`).
pub const DEFAULT_LISTEN_ADDR: &'static str = "0.0.0.0:443";

/// Default `--listen` bind address when TLS is off, matching `ws://`.
pub const DEFAULT_LISTEN_ADDR_NO_TLS: &'static str = "0.0.0.0:80";

/// Name of the authorized-keys list inside a vault.
pub const AUTHORIZED_KEYS_FILE: &'static str = "authorized_keys";

/// Per-user state directory, relative to the home directory.
pub const USER_STATE_DIR: &'static str = ".agentsync";

/// Default identity file name inside [`USER_STATE_DIR`].
pub const USER_IDENTITY_FILENAME: &'static str = "id_ed25519";

/// ASCII letters.
pub open spec fn is_ascii_alpha(c: char) -> bool {
    ('a' <= c && c <= 'z') || ('A' <= c && c <= 'Z')
}

/// Characters allowed in a URL scheme after its first letter.
pub open spec fn is_scheme_char(c: char) -> bool {
    is_ascii_alpha(c) || ('0' <= c && c <= '9') || c == '+' || c == '-' || c == '.'
}

/// The first index at or after `i` whose character cannot be part of a
/// scheme, or `s.len()`.
pub open spec fn scheme_end(s: Seq<char>, i: int) -> int
    decreases s.len() - i,
{
    if i >= s.len() {
        s.len() as int
    } else if !is_scheme_char(s[i]) {
        i
    } else {
        scheme_end(s, i + 1)
    }
}

/// `://`
pub open spec fn scheme_sep() -> Seq<char> {
    seq![':', '/', '/']
}

/// Whether `s` begins with `<scheme>://`: a letter, then letters, digits,
/// `+`, `-` or `.`, then `://`.
pub open spec fn has_scheme_prefix_spec(s: Seq<char>) -> bool {
    let j = scheme_end(s, 1);
    &&& s.len() > 0
    &&& is_ascii_alpha(s[0])
    &&& j + 3 <= s.len()
    &&& s.subrange(j, j + 3) == scheme_sep()
}

/// `prefix` begins `s`.
pub open spec fn begins_with(s: Seq<char>, prefix: Seq<char>) -> bool {
    prefix.len() <= s.len() && s.subrange(0, prefix.len() as int) == prefix
}

/// What `normalize_with_scheme` returns: the trimmed URL, with `wss://` (or
/// `ws://` when `no_tls`) put in front when it names no scheme.
pub open spec fn normalize_with_scheme_spec(url: Seq<char>, no_tls: bool) -> Seq<char> {
    let t = trim(url);
    if begins_with(t, seq!['w', 's', ':', '/', '/']) || begins_with(
        t,
        seq!['w', 's', 's', ':', '/', '/'],
    ) || has_scheme_prefix_spec(t) {
        t
    } else if no_tls {
        seq!['w', 's', ':', '/', '/'] + t
    } else {
        seq!['w', 's', 's', ':', '/', '/'] + t
    }
}

fn is_ascii_alpha_exec(c: char) -> (r: bool)
    ensures
        r == is_ascii_alpha(c),
{
    ('a' <= c && c <= 'z') || ('A' <= c && c <= 'Z')
}

fn is_scheme_char_exec(c: char) -> (r: bool)
    ensures
        r == is_scheme_char(c),
{
    is_ascii_alpha_exec(c) || ('0' <= c && c <= '9') || c == '+' || c == '-' || c == '.'
}

/// True if `s` starts with a `<scheme>://` prefix.
pub fn has_scheme_prefix(s: &Vec<char>) -> (r: bool)
    ensures
        r == has_scheme_prefix_spec(s@),
{
    if s.len() == 0 || !is_ascii_alpha_exec(s[0]) {
        return false;
    }
    let mut i: usize = 1;
    while i < s.len() && is_scheme_char_exec(s[i])
        invariant
            1 <= i <= s@.len(),
            scheme_end(s@, i as int) == scheme_end(s@, 1),
        decreases s@.len() - i,
    {
        i = i + 1;
    }
    if i == s.len() {
        return false;
    }
    if s.len() - i < 3 {
        return false;
    }
    let r = s[i] == ':' && s[i + 1] == '/' && s[i + 2] == '/';
    proof {
        let t = s@.subrange(i as int, i + 3);
        if r {
            assert(t =~= scheme_sep());
        }
        if t == scheme_sep() {
            assert(t[0] == ':' && t[1] == '/' && t[2] == '/');
        }
    }
    r
}

/// Adds `wss://` in front of a rendezvous URL that names no scheme.
pub fn normalize_rendezvous_url(url: &str) -> (r: String)
    ensures
        r@ == normalize_with_scheme_spec(url@, false),
{
    normalize_with_scheme(url, false)
}

/// Trims `url` and, when it names no scheme, puts `wss://` in front, or
/// `ws://` when `no_tls`; a URL with a scheme of its own is kept as it is.
pub fn normalize_with_scheme(url: &str, no_tls: bool) -> (r: String)
    ensures
        r@ == normalize_with_scheme_spec(url@, no_tls),
{
    let raw = chars_of(url);
    let t = trim_vec(&raw);
    let ws = starts_with_lit(&t, "ws://");
    let wss = starts_with_lit(&t, "wss://");
    let other = has_scheme_prefix(&t);
    proof {
        reveal_strlit("ws://");
        reveal_strlit("wss://");
        assert("ws://"@ =~= seq!['w', 's', ':', '/', '/']);
        assert("wss://"@ =~= seq!['w', 's', 's', ':', '/', '/']);
        assert(ws == begins_with(t@, seq!['w', 's', ':', '/', '/']));
    }
    if ws || wss || other {
        return string_of(t.as_slice());
    }
    let mut out: Vec<char> = Vec::new();
    if no_tls {
        extend_lit(&mut out, "ws://");
    } else {
        extend_lit(&mut out, "wss://");
    }
    extend_chars(&mut out, &t);
    string_of(out.as_slice())
}

/// Completing a URL twice is completing it once: what comes out always
/// names a scheme and has no surrounding white space.
pub proof fn lemma_normalize_with_scheme_idempotent(url: Seq<char>, no_tls: bool)
    ensures
        normalize_with_scheme_spec(normalize_with_scheme_spec(url, no_tls), no_tls)
            == normalize_with_scheme_spec(url, no_tls),
{
    let t = trim(url);
    let r = normalize_with_scheme_spec(url, no_tls);
    lemma_trim_idempotent(url);
    lemma_trim_edges(url);
    let ws = seq!['w', 's', ':', '/', '/'];
    let wss = seq!['w', 's', 's', ':', '/', '/'];
    if begins_with(t, ws) || begins_with(t, wss) || has_scheme_prefix_spec(t) {
        assert(r == t);
        assert(trim(r) == r);
    } else {
        let p = if no_tls {
            ws
        } else {
            wss
        };
        assert(r == p + t);
        assert(r[0] == 'w');
        assert(!is_ws(r[0]));
        if t.len() > 0 {
            assert(r[r.len() - 1] == t[t.len() - 1]);
        } else {
            assert(r[r.len() - 1] == '/');
        }
        lemma_trim_noop(r);
        assert(r.subrange(0, p.len() as int) =~= p);
        assert(begins_with(r, p));
    }
}

} // verus!
