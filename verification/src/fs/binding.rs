//! The small glob matcher behind the inclusion and exclusion filters.
//!
//! Only `*` is special. A `**` pair (optionally followed by `/`) is a single
//! wildcard, exactly like `*`; every wildcard matches any run of bytes,
//! slashes included. When the subject is used up, only a tail made entirely
//! of `*` still matches.

use crate::constants::AUTHORIZED_KEYS_FILE;
use crate::path::{
    kept_pieces, kept_segments, normalize, normalize_ok, normalize_spec, seg_views, split_pieces,
    split_slash, unify_separators,
};
use crate::text::{chars_eq, chars_of, eq_lit, extend_chars, extend_lit, starts_with, string_of};
use vstd::prelude::*;
use vstd::string::StringSliceAdditionalSpecFns;
use vstd::utf8::{char_u32_cast, encode_scalar, encode_utf8, encode_utf8_decode_utf8};

verus! {

pub const STAR: u8 = 42;

pub const SLASH: u8 = 47;

/// Position just after the wildcard that starts at `i` (`*`, `**` or `**/`).
pub open spec fn star_end(p: Seq<u8>, i: int) -> int {
    if i + 1 < p.len() && p[i + 1] == STAR {
        if i + 2 < p.len() && p[i + 2] == SLASH {
            i + 3
        } else {
            i + 2
        }
    } else {
        i + 1
    }
}

/// Every byte of `p` from `i` on is `*`.
pub open spec fn all_stars(p: Seq<u8>, i: int) -> bool {
    forall|k: int| i <= k < p.len() ==> p[k] == STAR
}

/// No `*` among `p[a..b]`.
pub open spec fn no_star(p: Seq<u8>, a: int, b: int) -> bool {
    forall|k: int| a <= k < b ==> p[k] != STAR
}

/// Whether the pattern suffix `p[i..]` matches the subject suffix `s[j..]`.
pub open spec fn glob_from(p: Seq<u8>, i: int, s: Seq<u8>, j: int) -> bool
    decreases p.len() - i, 1int, s.len() - j,
{
    if i < 0 || j < 0 {
        false
    } else if j >= s.len() {
        all_stars(p, i)
    } else if i >= p.len() {
        false
    } else if p[i] == STAR {
        star_any(p, star_end(p, i), s, j)
    } else if p[i] == s[j] {
        glob_from(p, i + 1, s, j + 1)
    } else {
        false
    }
}

/// Whether `p[q..]` matches `s[w..]` for some `w` in `[k, |s|]`: what a
/// wildcard ending at `q` allows once `s[..k]` is consumed.
pub open spec fn star_any(p: Seq<u8>, q: int, s: Seq<u8>, k: int) -> bool
    decreases p.len() - q, 2int, s.len() - k,
{
    if q < 0 || q > p.len() || k < 0 || k > s.len() {
        false
    } else if k == s.len() {
        glob_from(p, q, s, k)
    } else {
        glob_from(p, q, s, k) || star_any(p, q, s, k + 1)
    }
}

/// Whether the whole pattern matches the whole subject.
pub open spec fn glob_matches(p: Seq<u8>, s: Seq<u8>) -> bool {
    glob_from(p, 0, s, 0)
}


proof fn lemma_literal_from(p: Seq<u8>, i: int, s: Seq<u8>, j: int)
    requires
        0 <= i <= p.len(),
        0 <= j <= s.len(),
        no_star(p, 0, p.len() as int),
    ensures
        glob_from(p, i, s, j) == (p.subrange(i, p.len() as int) == s.subrange(j, s.len() as int)),
    decreases p.len() - i,
{
    let pr = p.subrange(i, p.len() as int);
    let sr = s.subrange(j, s.len() as int);
    if j >= s.len() {
        if i < p.len() {
            assert(p[i] != STAR);
            assert(pr.len() != sr.len());
        } else {
            assert(pr =~= sr);
        }
    } else if i >= p.len() {
        assert(pr.len() != sr.len());
    } else {
        assert(p[i] != STAR);
        lemma_literal_from(p, i + 1, s, j + 1);
        assert(pr[0] == p[i] && sr[0] == s[j]);
        if p[i] == s[j] {
            if pr =~= sr {
                assert(p.subrange(i + 1, p.len() as int) =~= pr.subrange(1, pr.len() as int));
                assert(s.subrange(j + 1, s.len() as int) =~= sr.subrange(1, sr.len() as int));
            }
            if p.subrange(i + 1, p.len() as int) == s.subrange(j + 1, s.len() as int) {
                assert(pr =~= sr) by {
                    assert forall|k: int| 0 <= k < pr.len() implies pr[k] == sr[k] by {
                        if k > 0 {
                            assert(pr[k] == p.subrange(i + 1, p.len() as int)[k - 1]);
                            assert(sr[k] == s.subrange(j + 1, s.len() as int)[k - 1]);
                        }
                    }
                }
            }
        }
    }
}

/// A pattern with no `*` matches exactly the subject equal to it.
pub proof fn lemma_glob_literal(pattern: Seq<u8>, subject: Seq<u8>)
    requires
        no_star(pattern, 0, pattern.len() as int),
    ensures
        glob_matches(pattern, subject) == (pattern == subject),
{
    lemma_literal_from(pattern, 0, subject, 0);
    assert(pattern.subrange(0, pattern.len() as int) =~= pattern);
    assert(subject.subrange(0, subject.len() as int) =~= subject);
}

proof fn lemma_scalar_no_star(v: u32)
    requires
        v != 42,
    ensures
        forall|i: int| 0 <= i < encode_scalar(v).len() ==> encode_scalar(v)[i] != STAR,
{
    assert(v <= 0x7F && v != 42 ==> (v & 0x7F) as u8 != 42u8) by (bit_vector);
    assert((0xC0u8 | ((v >> 6u32) & 0x1F) as u8) != 42u8) by (bit_vector);
    assert((0xE0u8 | ((v >> 12u32) & 0x0F) as u8) != 42u8) by (bit_vector);
    assert((0xF0u8 | ((v >> 18u32) & 0x7) as u8) != 42u8) by (bit_vector);
    assert((0x80u8 | (v & 0x3F) as u8) != 42u8) by (bit_vector);
    assert((0x80u8 | ((v >> 6u32) & 0x3F) as u8) != 42u8) by (bit_vector);
    assert((0x80u8 | ((v >> 12u32) & 0x3F) as u8) != 42u8) by (bit_vector);
}

proof fn lemma_encode_no_star(cs: Seq<char>)
    requires
        !cs.contains('*'),
    ensures
        no_star(encode_utf8(cs), 0, encode_utf8(cs).len() as int),
    decreases cs.len(),
{
    if cs.len() > 0 {
        let rest = cs.drop_first();
        assert(!rest.contains('*')) by {
            if rest.contains('*') {
                let w = choose|w: int| 0 <= w < rest.len() && rest[w] == '*';
                assert(cs[w + 1] == '*');
            }
        }
        lemma_encode_no_star(rest);
        assert(cs[0] != '*');
        char_u32_cast(cs[0], cs[0] as u32);
        char_u32_cast('*', 42u32);
        assert((cs[0] as u32) != 42);
        lemma_scalar_no_star(cs[0] as u32);
        let e = encode_scalar(cs[0] as u32);
        let r = encode_utf8(rest);
        assert forall|k: int| 0 <= k < (e + r).len() implies (e + r)[k] != STAR by {
            if k < e.len() {
                assert((e + r)[k] == e[k]);
            } else {
                assert((e + r)[k] == r[k - e.len()]);
            }
        }
    }
}

/// A pattern with no `*` matches exactly the path equal to it: what
/// [`glob_match`] decides on the two texts' UTF-8 bytes.
pub proof fn lemma_glob_literal_text(pattern: Seq<char>, path: Seq<char>)
    requires
        !pattern.contains('*'),
    ensures
        glob_matches(encode_utf8(pattern), encode_utf8(path)) == (pattern == path),
{
    lemma_encode_no_star(pattern);
    lemma_glob_literal(encode_utf8(pattern), encode_utf8(path));
    encode_utf8_decode_utf8(pattern);
    encode_utf8_decode_utf8(path);
}

/// Some later start `k` in `(lo, |s|]` lets the pattern tail `p[q..]` match.
pub open spec fn later_alt(p: Seq<u8>, q: int, s: Seq<u8>, lo: int) -> bool {
    exists|k: int| lo < k <= s.len() && #[trigger] glob_from(p, q, s, k)
}

/// Unfolds one wildcard step of `glob_from`.
proof fn lemma_star_step(p: Seq<u8>, i: int, s: Seq<u8>, j: int)
    requires
        0 <= i < p.len(),
        0 <= j < s.len(),
        p[i] == STAR,
    ensures
        glob_from(p, i, s, j) == (exists|k: int|
            j <= k <= s.len() && #[trigger] glob_from(p, star_end(p, i), s, k)),
{
    lemma_star_any(p, star_end(p, i), s, j);
}

/// `star_any` is the bounded existential it stands for.
proof fn lemma_star_any(p: Seq<u8>, q: int, s: Seq<u8>, k: int)
    requires
        0 <= q <= p.len(),
        0 <= k <= s.len(),
    ensures
        star_any(p, q, s, k) == (exists|w: int| k <= w <= s.len() && #[trigger] glob_from(p, q, s, w)),
    decreases s.len() - k,
{
    if k < s.len() {
        lemma_star_any(p, q, s, k + 1);
        if exists|w: int| k <= w <= s.len() && #[trigger] glob_from(p, q, s, w) {
            let w = choose|w: int| k <= w <= s.len() && #[trigger] glob_from(p, q, s, w);
            if w > k {
                assert(glob_from(p, q, s, w));
            }
        }
        if glob_from(p, q, s, k) {
            assert(exists|w: int| k <= w <= s.len() && #[trigger] glob_from(p, q, s, w));
        }
        if star_any(p, q, s, k + 1) {
            let w = choose|w: int| k + 1 <= w <= s.len() && #[trigger] glob_from(p, q, s, w);
            assert(glob_from(p, q, s, w));
            assert(exists|w: int| k <= w <= s.len() && #[trigger] glob_from(p, q, s, w));
        }
    } else {
        if exists|w: int| k <= w <= s.len() && #[trigger] glob_from(p, q, s, w) {
            let w = choose|w: int| k <= w <= s.len() && #[trigger] glob_from(p, q, s, w);
            assert(w == k);
        }
        if glob_from(p, q, s, k) {
            assert(exists|w: int| k <= w <= s.len() && #[trigger] glob_from(p, q, s, w));
        }
    }
}

proof fn lemma_star_end(p: Seq<u8>, i: int)
    requires
        0 <= i < p.len(),
    ensures
        i < star_end(p, i) <= p.len(),
{
}

/// A star-free stretch `p[a..b]` consumes exactly `b - a` subject bytes.
proof fn lemma_literal_walk(p: Seq<u8>, a: int, b: int, s: Seq<u8>, k: int)
    requires
        0 <= a <= b <= p.len(),
        0 <= k <= s.len(),
        no_star(p, a, b),
        glob_from(p, a, s, k),
    ensures
        k + (b - a) <= s.len(),
        glob_from(p, b, s, k + (b - a)),
    decreases b - a,
{
    if a < b {
        if k >= s.len() {
            assert(all_stars(p, a));
            assert(p[a] == STAR);
        } else {
            assert(p[a] != STAR);
            assert(p[a] == s[k]);
            lemma_literal_walk(p, a + 1, b, s, k + 1);
        }
    }
}

/// An all-star tail keeps matching an exhausted subject after one wildcard.
proof fn lemma_all_stars_tail(p: Seq<u8>, i: int)
    requires
        0 <= i < p.len(),
        all_stars(p, i),
    ensures
        all_stars(p, star_end(p, i)),
{
}

/// Whether `pattern` matches `path` (see the module notes for the syntax).
pub fn glob_match(pattern: &str, path: &str) -> (r: bool)
    ensures
        r == glob_matches(encode_utf8(pattern@), encode_utf8(path@)),
{
    let pat = pattern.as_bytes();
    let s = path.as_bytes();
    let ghost gp = pat@;
    let ghost gs = s@;
    let mut pi: usize = 0;
    let mut si: usize = 0;
    let mut has_star = false;
    let mut star_pi: usize = 0;
    let mut star_si: usize = 0;
    while si < s.len()
        invariant
            gp == pat@,
            gs == s@,
            gp == pattern.spec_bytes(),
            gs == path.spec_bytes(),
            pi <= pat@.len(),
            si <= s@.len(),
            star_si <= si,
            !has_star ==> (glob_matches(gp, gs) == glob_from(gp, pi as int, gs, si as int)),
            has_star ==> {
                &&& star_pi < pat@.len()
                &&& gp[star_pi as int] == STAR
                &&& star_end(gp, star_pi as int) <= pi
                &&& star_si <= si
                &&& pi - star_end(gp, star_pi as int) == si - star_si
                &&& no_star(gp, star_end(gp, star_pi as int), pi as int)
                &&& glob_matches(gp, gs) == (glob_from(gp, pi as int, gs, si as int)
                    || later_alt(gp, star_end(gp, star_pi as int), gs, star_si as int))
            },
        decreases s@.len() - star_si, s@.len() - si + pat@.len() - pi,
    {
        let ghost old_pi = pi as int;
        let ghost old_si = si as int;
        let ghost old_has = has_star;
        let ghost old_q = star_end(gp, star_pi as int);
        let ghost old_ss = star_si as int;
        if pi < pat.len() && pat[pi] == STAR {
            // A wildcard: record it and step past it.
            proof {
                lemma_star_end(gp, pi as int);
            }
            let q: usize = if pi + 1 < pat.len() && pat[pi + 1] == STAR {
                if pi + 2 < pat.len() && pat[pi + 2] == SLASH {
                    pi + 3
                } else {
                    pi + 2
                }
            } else {
                pi + 1
            };
            proof {
                let q = q as int;
                assert(q == star_end(gp, old_pi));
                lemma_star_step(gp, old_pi, gs, old_si);
                assert(glob_from(gp, old_pi, gs, old_si) == (exists|k: int|
                    old_si <= k <= gs.len() && #[trigger] glob_from(gp, q, gs, k)));
                if old_has {
                    assert forall|k: int|
                        old_ss < k <= gs.len() && #[trigger] glob_from(gp, old_q, gs, k) implies
                        glob_from(gp, q, gs, old_si) || later_alt(gp, q, gs, old_si) by {
                        lemma_literal_walk(gp, old_q, old_pi, gs, k);
                        let k2 = k + (old_pi - old_q);
                        if k2 < gs.len() {
                            assert(glob_from(gp, old_pi, gs, k2));
                            lemma_star_end(gp, old_pi);
                            lemma_star_step(gp, old_pi, gs, k2);
                            assert(exists|w: int| k2 <= w <= gs.len() && #[trigger] glob_from(gp, q, gs, w));
                            let w = choose|w: int| k2 <= w <= gs.len() && #[trigger] glob_from(gp, q, gs, w);
                            assert(glob_from(gp, q, gs, w));
                        } else {
                            lemma_all_stars_tail(gp, old_pi);
                            assert(glob_from(gp, q, gs, gs.len() as int));
                        }
                    }
                }
                if glob_from(gp, q, gs, old_si) || later_alt(gp, q, gs, old_si) {
                    if !glob_from(gp, q, gs, old_si) {
                        let w = choose|w: int| old_si < w <= gs.len() && #[trigger] glob_from(gp, q, gs, w);
                        assert(glob_from(gp, q, gs, w));
                    }
                }
            }
            has_star = true;
            star_pi = pi;
            pi = q;
            star_si = si;
        } else if pi < pat.len() && pat[pi] == s[si] {
            pi = pi + 1;
            si = si + 1;
        } else if has_star {
            // Mismatch: let the last wildcard swallow one more byte.
            proof {
                lemma_star_end(gp, star_pi as int);
                assert(!glob_from(gp, old_pi, gs, old_si));
                let q = old_q;
                if later_alt(gp, q, gs, old_ss) {
                    let w = choose|w: int| old_ss < w <= gs.len() && #[trigger] glob_from(gp, q, gs, w);
                    if w > old_ss + 1 {
                        assert(later_alt(gp, q, gs, old_ss + 1));
                    }
                }
                if glob_from(gp, q, gs, old_ss + 1) {
                    assert(later_alt(gp, q, gs, old_ss));
                }
                if later_alt(gp, q, gs, old_ss + 1) {
                    let w = choose|w: int| old_ss + 1 < w <= gs.len() && #[trigger] glob_from(gp, q, gs, w);
                    assert(later_alt(gp, q, gs, old_ss));
                }
            }
            let q: usize = if star_pi + 1 < pat.len() && pat[star_pi + 1] == STAR {
                if star_pi + 2 < pat.len() && pat[star_pi + 2] == SLASH {
                    star_pi + 3
                } else {
                    star_pi + 2
                }
            } else {
                star_pi + 1
            };
            pi = q;
            star_si = star_si + 1;
            si = star_si;
        } else {
            proof {
                assert(!glob_from(gp, old_pi, gs, old_si));
            }
            return false;
        }
    }
    proof {
        if has_star {
            let q = star_end(gp, star_pi as int);
            if later_alt(gp, q, gs, star_si as int) {
                let w = choose|w: int| star_si < w <= gs.len() && #[trigger] glob_from(gp, q, gs, w);
                lemma_literal_walk(gp, q, pi as int, gs, w);
            }
        }
    }
    while pi < pat.len() && pat[pi] == STAR
        invariant
            pi <= pat@.len(),
            gp == pat@,
            glob_matches(gp, gs) == glob_from(gp, pi as int, gs, gs.len() as int),
            si == gs.len(),
        decreases pat@.len() - pi,
    {
        pi = pi + 1;
    }
    pi == pat.len()
}

/// Whether any of `patterns` matches `path`.
pub fn glob_match_any(patterns: &[String], path: &str) -> (r: bool)
    ensures
        r == exists|i: int|
            0 <= i < patterns@.len() && glob_matches(
                encode_utf8(#[trigger] patterns@[i]@),
                encode_utf8(path@),
            ),
{
    let mut i: usize = 0;
    while i < patterns.len()
        invariant
            i <= patterns@.len(),
            forall|j: int|
                0 <= j < i ==> !glob_matches(encode_utf8(#[trigger] patterns@[j]@), encode_utf8(path@)),
        decreases patterns@.len() - i,
    {
        if glob_match(patterns[i].as_str(), path) {
            return true;
        }
        i = i + 1;
    }
    false
}

/// Whether some pattern of `patterns` matches `path`.
pub open spec fn matches_any(patterns: Seq<String>, path: Seq<char>) -> bool {
    exists|i: int|
        0 <= i < patterns.len() && glob_matches(
            encode_utf8(#[trigger] patterns[i]@),
            encode_utf8(path),
        )
}

/// The text of each string.
pub open spec fn texts(v: Seq<String>) -> Seq<Seq<char>> {
    v.map_values(|s: String| s@)
}

/// ASCII lowercase of one character.
pub open spec fn ascii_lower(c: char) -> char {
    if 'A' <= c && c <= 'Z' {
        ((c as u32) + 32) as char
    } else {
        c
    }
}

/// ASCII lowercase of a text.
pub open spec fn ascii_lower_seq(s: Seq<char>) -> Seq<char> {
    s.map_values(|c: char| ascii_lower(c))
}

/// `s` with every leading `c` removed.
pub open spec fn strip_leading(s: Seq<char>, c: char) -> Seq<char>
    decreases s.len(),
{
    if s.len() > 0 && s[0] == c {
        strip_leading(s.subrange(1, s.len() as int), c)
    } else {
        s
    }
}

/// An extension as `for_extensions` stores it: leading dots gone, ASCII
/// lowercase.
pub open spec fn ext_norm(s: Seq<char>) -> Seq<char> {
    ascii_lower_seq(strip_leading(s, '.'))
}

/// `**/*.`
pub open spec fn include_prefix() -> Seq<char> {
    seq!['*', '*', '/', '*', '.']
}

/// The exclude patterns every binding starts with.
pub open spec fn default_excludes() -> Seq<Seq<char>> {
    seq![
        seq!['*', '*', '/', '.', 'g', 'i', 't', '/', '*', '*'],
        seq!['*', '*', '/', 'n', 'o', 'd', 'e', '_', 'm', 'o', 'd', 'u', 'l', 'e', 's', '/', '*', '*'],
        seq!['*', '*', '/', '.', 'D', 'S', '_', 'S', 't', 'o', 'r', 'e'],
        seq!['*', '*', '/', '.', 'a', 'g', 'e', 'n', 't', 's', 'y', 'n', 'c', '/', '*', '*'],
    ]
}

/// `authorized_keys`
pub open spec fn authorized_keys_name() -> Seq<char> {
    seq!['a', 'u', 't', 'h', 'o', 'r', 'i', 'z', 'e', 'd', '_', 'k', 'e', 'y', 's']
}

fn string_from(cs: &Vec<char>) -> (r: String)
    ensures
        r@ == cs@,
{
    string_of(cs.as_slice())
}

/// The exclude patterns every binding starts with: `.git`, `node_modules`,
/// `.DS_Store` and `.agentsync` anywhere in the tree.
pub fn default_exclude_patterns() -> (r: Vec<String>)
    ensures
        texts(r@) == default_excludes(),
{
    let mut r: Vec<String> = Vec::new();
    r.push(String::from_str("**/.git/**"));
    r.push(String::from_str("**/node_modules/**"));
    r.push(String::from_str("**/.DS_Store"));
    r.push(String::from_str("**/.agentsync/**"));
    proof {
        reveal_strlit("**/.git/**");
        reveal_strlit("**/node_modules/**");
        reveal_strlit("**/.DS_Store");
        reveal_strlit("**/.agentsync/**");
        let d = default_excludes();
        assert(r@[0]@ =~= d[0]);
        assert(r@[1]@ =~= d[1]);
        assert(r@[2]@ =~= d[2]);
        assert(r@[3]@ =~= d[3]);
        assert(texts(r@) =~= d);
    }
    r
}

fn ascii_lower_exec(c: char) -> (r: char)
    ensures
        r == ascii_lower(c),
{
    if 'A' <= c && c <= 'Z' {
        let b: u8 = (c as u32 + 32) as u8;
        b as char
    } else {
        c
    }
}

/// Configuration for binding the vault to a local directory.
#[derive(Clone, Debug)]
pub struct BindOptions {
    pub exclude_patterns: Vec<String>,
    pub include_patterns: Vec<String>,
    /// Extensions (without the dot) stored as text; see [`Binding::is_text_extension`].
    pub text_extensions: Vec<String>,
    pub attachment_max_bytes: u64,
    pub text_file_max_bytes: u64,
}

impl BindOptions {
    /// Markdown-only defaults: `md` and `markdown`.
    pub fn markdown_only() -> (r: BindOptions)
        ensures
            texts(r.text_extensions@) == seq![seq!['m', 'd'], seq!['m', 'a', 'r', 'k', 'd', 'o', 'w', 'n']],
            texts(r.include_patterns@) == seq![
                include_prefix() + seq!['m', 'd'],
                include_prefix() + seq!['m', 'a', 'r', 'k', 'd', 'o', 'w', 'n'],
            ],
            texts(r.exclude_patterns@) == default_excludes(),
            r.attachment_max_bytes == 10485760,
            r.text_file_max_bytes == 1048576,
    {
        let mut exts: Vec<String> = Vec::new();
        exts.push(String::from_str("md"));
        exts.push(String::from_str("markdown"));
        proof {
            reveal_strlit("md");
            reveal_strlit("markdown");
        }
        let r = BindOptions::for_extensions(exts.as_slice());
        proof {
            let e0 = seq!['m', 'd'];
            let e1 = seq!['m', 'a', 'r', 'k', 'd', 'o', 'w', 'n'];
            assert(exts@[0]@ =~= e0);
            assert(exts@[1]@ =~= e1);
            assert(strip_leading(e0, '.') == e0);
            assert(strip_leading(e1, '.') == e1);
            assert(ascii_lower_seq(e0) =~= e0);
            assert(ascii_lower_seq(e1) =~= e1);
            assert(texts(r.text_extensions@) =~= seq![e0, e1]);
            assert(texts(r.include_patterns@) =~= seq![include_prefix() + e0, include_prefix() + e1]);
        }
        r
    }

    /// Options that sync the given extensions as text: each is stripped of
    /// leading dots and lowercased, and included through `**/*.<ext>`.
    pub fn for_extensions(exts: &[String]) -> (r: BindOptions)
        ensures
            texts(r.text_extensions@) == exts@.map_values(|s: String| ext_norm(s@)),
            texts(r.include_patterns@) == exts@.map_values(
                |s: String| include_prefix() + ext_norm(s@),
            ),
            texts(r.exclude_patterns@) == default_excludes(),
            r.attachment_max_bytes == 10485760,
            r.text_file_max_bytes == 1048576,
    {
        let mut norm: Vec<String> = Vec::new();
        let mut inc: Vec<String> = Vec::new();
        let mut i: usize = 0;
        while i < exts.len()
            invariant
                i <= exts@.len(),
                texts(norm@) == exts@.take(i as int).map_values(|s: String| ext_norm(s@)),
                texts(inc@) == exts@.take(i as int).map_values(
                    |s: String| include_prefix() + ext_norm(s@),
                ),
            decreases exts@.len() - i,
        {
            let cs = chars_of(exts[i].as_str());
            let mut a: usize = 0;
            assert(cs@.subrange(0, cs@.len() as int) =~= cs@);
            while a < cs.len() && cs[a] == '.'
                invariant
                    a <= cs@.len(),
                    strip_leading(cs@, '.') == strip_leading(cs@.subrange(a as int, cs@.len() as int), '.'),
                decreases cs@.len() - a,
            {
                assert(cs@.subrange(a as int, cs@.len() as int).subrange(1, cs@.len() - a) =~= cs@.subrange(
                    a + 1,
                    cs@.len() as int,
                ));
                a = a + 1;
            }
            let mut e: Vec<char> = Vec::new();
            let mut k: usize = a;
            while k < cs.len()
                invariant
                    a <= k <= cs@.len(),
                    e@ == ascii_lower_seq(cs@.subrange(a as int, k as int)),
                decreases cs@.len() - k,
            {
                let c = ascii_lower_exec(cs[k]);
                e.push(c);
                k = k + 1;
                assert(ascii_lower_seq(cs@.subrange(a as int, k as int)) =~= ascii_lower_seq(
                    cs@.subrange(a as int, k - 1),
                ).push(c));
            }
            proof {
                let rest = cs@.subrange(a as int, cs@.len() as int);
                if a < cs@.len() {
                    assert(rest[0] != '.');
                }
                assert(strip_leading(rest, '.') == rest);
                assert(e@ == ext_norm(exts@[i as int]@));
            }
            let mut pat: Vec<char> = Vec::new();
            extend_lit(&mut pat, "**/*.");
            extend_chars(&mut pat, &e);
            proof {
                reveal_strlit("**/*.");
                assert("**/*."@ =~= include_prefix());
            }
            let ghost n0 = texts(norm@);
            let ghost i0 = texts(inc@);
            norm.push(string_from(&e));
            inc.push(string_from(&pat));
            proof {
                assert(exts@.take(i + 1) =~= exts@.take(i as int).push(exts@[i as int]));
                assert(texts(norm@) =~= n0.push(e@));
                assert(texts(inc@) =~= i0.push(pat@));
            }
            i = i + 1;
        }
        assert(exts@.take(exts@.len() as int) =~= exts@);
        BindOptions {
            exclude_patterns: default_exclude_patterns(),
            include_patterns: inc,
            text_extensions: norm,
            attachment_max_bytes: 10485760,
            text_file_max_bytes: 1048576,
        }
    }
}

/// Whether a file path is synced: not excluded, and either the
/// authorized-keys file (which must always sync) or included.
pub open spec fn path_allowed_spec(opts: BindOptions, path: Seq<char>) -> bool {
    if opts.exclude_patterns@.len() > 0 && matches_any(opts.exclude_patterns@, path) {
        false
    } else if path == authorized_keys_name() {
        true
    } else if opts.include_patterns@.len() > 0 && !matches_any(opts.include_patterns@, path) {
        false
    } else {
        true
    }
}

/// Which files sync, in terms of the single patterns: a path that some
/// exclude pattern matches does not; otherwise the authorized-keys file
/// does, and any other path does exactly when the include list is empty
/// or some include pattern, whichever, matches it.
pub proof fn lemma_path_allowed_patterns(opts: BindOptions, path: Seq<char>)
    ensures
        (exists|i: int|
            0 <= i < opts.exclude_patterns@.len() && glob_matches(
                encode_utf8(#[trigger] opts.exclude_patterns@[i]@),
                encode_utf8(path),
            )) ==> !path_allowed_spec(opts, path),
        (forall|i: int|
            0 <= i < opts.exclude_patterns@.len() ==> !glob_matches(
                encode_utf8(#[trigger] opts.exclude_patterns@[i]@),
                encode_utf8(path),
            )) ==> (path_allowed_spec(opts, path) <==> (path == authorized_keys_name()
            || opts.include_patterns@.len() == 0 || exists|i: int|
            0 <= i < opts.include_patterns@.len() && glob_matches(
                encode_utf8(#[trigger] opts.include_patterns@[i]@),
                encode_utf8(path),
            ))),
{
}

/// Under the default options, every path ending in `.markdown` (or `.md`)
/// that the default excludes leave alone is synced.
pub proof fn lemma_markdown_only_allows(opts: BindOptions, path: Seq<char>, ext: Seq<char>)
    requires
        texts(opts.include_patterns@) == seq![include_prefix() + seq!['m', 'd'], include_prefix() + seq![
            'm',
            'a',
            'r',
            'k',
            'd',
            'o',
            'w',
            'n',
        ]],
        ext == seq!['m', 'd'] || ext == seq!['m', 'a', 'r', 'k', 'd', 'o', 'w', 'n'],
        glob_matches(encode_utf8(include_prefix() + ext), encode_utf8(path)),
        forall|i: int|
            0 <= i < opts.exclude_patterns@.len() ==> !glob_matches(
                encode_utf8(#[trigger] opts.exclude_patterns@[i]@),
                encode_utf8(path),
            ),
    ensures
        path_allowed_spec(opts, path),
{
    lemma_path_allowed_patterns(opts, path);
    let k: int = if ext == seq!['m', 'd'] { 0 } else { 1 };
    assert(texts(opts.include_patterns@).len() == opts.include_patterns@.len());
    assert(opts.include_patterns@.len() == 2);
    assert(texts(opts.include_patterns@)[k] == opts.include_patterns@[k]@);
    assert(opts.include_patterns@[k]@ == include_prefix() + ext);
    assert(glob_matches(encode_utf8(opts.include_patterns@[k]@), encode_utf8(path)));
}

/// Whether a directory path is synced: only the exclude list applies.
pub open spec fn dir_path_allowed_spec(opts: BindOptions, path: Seq<char>) -> bool {
    opts.exclude_patterns@.len() == 0 || !matches_any(opts.exclude_patterns@, path)
}

/// The pieces that `std::path` sees as components: neither empty nor `.`.
pub open spec fn path_components(p: Seq<char>) -> Seq<Seq<char>> {
    kept_segments(split_slash(p))
}

/// `Path::file_name`: the last component, unless it is `..`.
pub open spec fn file_name_spec(p: Seq<char>) -> Option<Seq<char>> {
    let comps = path_components(p);
    if comps.len() == 0 || comps.last() == seq!['.', '.'] {
        None
    } else {
        Some(comps.last())
    }
}

/// Index of the last `.` in `s`, or -1.
pub open spec fn last_dot(s: Seq<char>) -> int
    decreases s.len(),
{
    if s.len() == 0 {
        -1
    } else if s.last() == '.' {
        s.len() - 1
    } else {
        last_dot(s.drop_last())
    }
}

/// `Path::extension`: what follows the last `.` of the file name, unless
/// there is no `.` or the only one starts the name.
pub open spec fn extension_spec(p: Seq<char>) -> Option<Seq<char>> {
    match file_name_spec(p) {
        None => None,
        Some(name) => if last_dot(name) <= 0 {
            None
        } else {
            Some(name.subrange(last_dot(name) + 1, name.len() as int))
        },
    }
}

/// ASCII-case-insensitive equality.
pub open spec fn eq_ignore_ascii_case(a: Seq<char>, b: Seq<char>) -> bool {
    ascii_lower_seq(a) == ascii_lower_seq(b)
}

/// Whether a file is stored as text: the authorized-keys file always is; a
/// file with an extension is when the extension is listed (any ASCII case);
/// one without (an extensionless file or a dotfile) is when no extension
/// is listed or the list holds an empty entry.
pub open spec fn is_text_extension_spec(opts: BindOptions, path: Seq<char>) -> bool {
    if path == authorized_keys_name() {
        true
    } else {
        match extension_spec(path) {
            Some(ext) => exists|i: int|
                0 <= i < opts.text_extensions@.len() && eq_ignore_ascii_case(
                    #[trigger] opts.text_extensions@[i]@,
                    ext,
                ),
            None => opts.text_extensions@.len() == 0 || exists|i: int|
                0 <= i < opts.text_extensions@.len() && (#[trigger] opts.text_extensions@[i])@.len() == 0,
        }
    }
}

/// `root` without trailing `/`.
pub open spec fn root_base(root: Seq<char>) -> Seq<char>
    decreases root.len(),
{
    if root.len() > 0 && root.last() == '/' {
        root_base(root.drop_last())
    } else {
        root
    }
}

/// The part of `abs` below `root`, if `abs` is `root` or lies under it.
pub open spec fn strip_root(root: Seq<char>, abs: Seq<char>) -> Option<Seq<char>> {
    let b = root_base(root);
    if abs == b {
        Some(Seq::empty())
    } else if b.len() < abs.len() && abs.subrange(0, b.len() as int) == b && abs[b.len() as int]
        == '/' {
        Some(abs.subrange(b.len() as int + 1, abs.len() as int))
    } else {
        None
    }
}

/// The vault path for a local path under `root`, before the allow-check:
/// the part below the root, normalized; `None` when outside the root, at
/// the root itself, or refused by `normalize`.
pub open spec fn vault_path_candidate(root: Seq<char>, abs: Seq<char>) -> Option<Seq<char>> {
    match strip_root(root, abs) {
        None => None,
        Some(rel) => {
            let r = unify_separators(rel);
            if r.len() == 0 || !normalize_ok(r) {
                None
            } else {
                Some(normalize_spec(r))
            }
        },
    }
}

/// `PathBuf::push` of a relative piece with no separator in it.
pub open spec fn push_piece(p: Seq<char>, seg: Seq<char>) -> Seq<char> {
    if p.len() > 0 && p.last() != '/' {
        p + seq!['/'] + seg
    } else {
        p + seg
    }
}

/// `root` with the pieces of `vault` pushed one by one.
pub open spec fn push_pieces(root: Seq<char>, pieces: Seq<Seq<char>>) -> Seq<char>
    decreases pieces.len(),
{
    if pieces.len() == 0 {
        root
    } else {
        push_piece(push_pieces(root, pieces.drop_last()), pieces.last())
    }
}

/// A vault bound to a local directory: its root and its filters.
pub struct Binding {
    root: String,
    opts: BindOptions,
}

impl Binding {
    pub closed spec fn root_spec(&self) -> Seq<char> {
        self.root@
    }

    pub closed spec fn opts_spec(&self) -> BindOptions {
        self.opts
    }

    pub fn new(root: &str, opts: BindOptions) -> (r: Binding)
        ensures
            r.root_spec() == root@,
            r.opts_spec() == opts,
    {
        Binding { root: String::from_str(root), opts }
    }

    pub fn root(&self) -> (r: &str)
        ensures
            r@ == self.root_spec(),
    {
        self.root.as_str()
    }

    pub fn opts(&self) -> (r: &BindOptions)
        ensures
            *r == self.opts_spec(),
    {
        &self.opts
    }

    /// Whether a file at vault path `path` is synced.
    pub fn path_allowed(&self, path: &str) -> (r: bool)
        ensures
            r == path_allowed_spec(self.opts_spec(), path@),
    {
        if self.opts.exclude_patterns.len() > 0 && glob_match_any(
            self.opts.exclude_patterns.as_slice(),
            path,
        ) {
            return false;
        }
        let cs = chars_of(path);
        let is_auth = eq_lit(&cs, AUTHORIZED_KEYS_FILE);
        proof {
            reveal_strlit("authorized_keys");
            assert(AUTHORIZED_KEYS_FILE@ =~= authorized_keys_name());
        }
        if is_auth {
            return true;
        }
        if self.opts.include_patterns.len() > 0 && !glob_match_any(
            self.opts.include_patterns.as_slice(),
            path,
        ) {
            return false;
        }
        true
    }

    /// Whether a directory at vault path `path` is synced.
    pub fn dir_path_allowed(&self, path: &str) -> (r: bool)
        ensures
            r == dir_path_allowed_spec(self.opts_spec(), path@),
    {
        if self.opts.exclude_patterns.len() == 0 {
            return true;
        }
        !glob_match_any(self.opts.exclude_patterns.as_slice(), path)
    }

    /// Whether a file at vault path `path` is stored as text rather than
    /// as an attachment.
    pub fn is_text_extension(&self, path: &str) -> (r: bool)
        ensures
            r == is_text_extension_spec(self.opts_spec(), path@),
    {
        let cs = chars_of(path);
        let is_auth = eq_lit(&cs, AUTHORIZED_KEYS_FILE);
        proof {
            reveal_strlit("authorized_keys");
            assert(AUTHORIZED_KEYS_FILE@ =~= authorized_keys_name());
        }
        if is_auth {
            return true;
        }
        match extension_of(&cs) {
            Some(ext) => {
                assert(extension_spec(path@) == Some(ext@));
                assert(path@ != authorized_keys_name());
                let exts = &self.opts.text_extensions;
                let mut i: usize = 0;
                while i < exts.len()
                    invariant
                        i <= exts@.len(),
                        exts@ == self.opts.text_extensions@,
                        extension_spec(path@) == Some(ext@),
                        path@ != authorized_keys_name(),
                        forall|j: int|
                            0 <= j < i ==> !eq_ignore_ascii_case(#[trigger] exts@[j]@, ext@),
                    decreases exts@.len() - i,
                {
                    let e = chars_of(exts[i].as_str());
                    if eq_ignore_case(&e, &ext) {
                        assert(eq_ignore_ascii_case(self.opts_spec().text_extensions@[i as int]@, ext@));
                        return true;
                    }
                    i = i + 1;
                }
                false
            },
            None => {
                let exts = &self.opts.text_extensions;
                let mut i: usize = 0;
                while i < exts.len()
                    invariant
                        i <= exts@.len(),
                        exts@ == self.opts.text_extensions@,
                        extension_spec(path@) is None,
                        path@ != authorized_keys_name(),
                        forall|j: int| 0 <= j < i ==> (#[trigger] exts@[j])@.len() != 0,
                    decreases exts@.len() - i,
                {
                    if chars_of(exts[i].as_str()).len() == 0 {
                        return true;
                    }
                    i = i + 1;
                }
                exts.len() == 0
            },
        }
    }

    /// Whether a file of `size` bytes at `path` exceeds the limit for its
    /// kind (text or attachment).
    pub fn over_size(&self, path: &str, size: u64) -> (r: bool)
        ensures
            r == if is_text_extension_spec(self.opts_spec(), path@) {
                size > self.opts_spec().text_file_max_bytes
            } else {
                size > self.opts_spec().attachment_max_bytes
            },
    {
        if self.is_text_extension(path) {
            size > self.opts.text_file_max_bytes
        } else {
            size > self.opts.attachment_max_bytes
        }
    }

    /// The vault path of the local file `abs`, or `None` when it lies
    /// outside the root, is the root, is refused by `normalize`, or is not
    /// synced.
    pub fn fs_path_to_vault_path(&self, abs: &str) -> (r: Option<String>)
        ensures
            r matches Some(v) ==> vault_path_candidate(self.root_spec(), abs@) == Some(v@)
                && path_allowed_spec(self.opts_spec(), v@),
            r is None ==> match vault_path_candidate(self.root_spec(), abs@) {
                Some(v) => !path_allowed_spec(self.opts_spec(), v),
                None => true,
            },
    {
        match self.candidate(abs) {
            None => None,
            Some(v) => if self.path_allowed(v.as_str()) {
                Some(v)
            } else {
                None
            },
        }
    }

    /// Like `fs_path_to_vault_path` for a directory: only the exclude list
    /// applies.
    pub fn fs_path_to_vault_dir_path(&self, abs: &str) -> (r: Option<String>)
        ensures
            r matches Some(v) ==> vault_path_candidate(self.root_spec(), abs@) == Some(v@)
                && dir_path_allowed_spec(self.opts_spec(), v@),
            r is None ==> match vault_path_candidate(self.root_spec(), abs@) {
                Some(v) => !dir_path_allowed_spec(self.opts_spec(), v),
                None => true,
            },
    {
        match self.candidate(abs) {
            None => None,
            Some(v) => if self.dir_path_allowed(v.as_str()) {
                Some(v)
            } else {
                None
            },
        }
    }

    fn candidate(&self, abs: &str) -> (r: Option<String>)
        ensures
            r matches Some(v) ==> vault_path_candidate(self.root_spec(), abs@) == Some(v@),
            r is None ==> vault_path_candidate(self.root_spec(), abs@) is None,
    {
        let root = chars_of(self.root.as_str());
        let a = chars_of(abs);
        let mut n: usize = root.len();
        assert(root@.subrange(0, n as int) =~= root@);
        while n > 0 && root[n - 1] == '/'
            invariant
                n <= root@.len(),
                root_base(root@) == root_base(root@.subrange(0, n as int)),
            decreases n,
        {
            assert(root@.subrange(0, n as int).drop_last() =~= root@.subrange(0, n - 1));
            n = n - 1;
        }
        let ghost b = root@.subrange(0, n as int);
        assert(n == 0 || b.last() != '/');
        assert(root_base(b) == b);
        let mut base: Vec<char> = Vec::new();
        let mut k: usize = 0;
        while k < n
            invariant
                k <= n <= root@.len(),
                base@ == root@.subrange(0, k as int),
            decreases n - k,
        {
            base.push(root[k]);
            k = k + 1;
            assert(base@ =~= root@.subrange(0, k as int));
        }
        let rel: Vec<char>;
        if chars_eq(&a, &base) {
            return None;
        } else if base.len() < a.len() && starts_with(&a, &base) && a[base.len()] == '/' {
            let mut t: Vec<char> = Vec::new();
            let mut j: usize = base.len() + 1;
            while j < a.len()
                invariant
                    base@.len() + 1 <= j <= a@.len(),
                    t@ == unify_separators(a@.subrange(base@.len() as int + 1, j as int)),
                decreases a@.len() - j,
            {
                let c = a[j];
                t.push(if c == '\\' { '/' } else { c });
                j = j + 1;
                assert(unify_separators(a@.subrange(base@.len() as int + 1, j as int)) =~= unify_separators(
                    a@.subrange(base@.len() as int + 1, j - 1),
                ).push(if c == '\\' { '/' } else { c }));
            }
            rel = t;
        } else {
            return None;
        }
        if rel.len() == 0 {
            return None;
        }
        let text = string_from(&rel);
        match normalize(text.as_str()) {
            Ok(v) => Some(v),
            Err(_) => None,
        }
    }

    /// The local path of vault path `vault`: the root with each piece of
    /// `vault` pushed in turn.
    pub fn vault_path_to_fs_path(&self, vault: &str) -> (r: String)
        ensures
            r@ == push_pieces(self.root_spec(), split_slash(vault@)),
    {
        let v = chars_of(vault);
        let pieces = split_pieces(&v);
        let mut p = chars_of(self.root.as_str());
        let mut i: usize = 0;
        while i < pieces.len()
            invariant
                i <= pieces@.len(),
                seg_views(pieces@) == split_slash(vault@),
                p@ == push_pieces(self.root_spec(), seg_views(pieces@).take(i as int)),
            decreases pieces@.len() - i,
        {
            proof {
                let t = seg_views(pieces@).take(i + 1);
                assert(t.drop_last() =~= seg_views(pieces@).take(i as int));
                assert(t.last() == pieces@[i as int]@);
            }
            if p.len() > 0 && p[p.len() - 1] != '/' {
                p.push('/');
            }
            extend_chars(&mut p, &pieces[i]);
            i = i + 1;
        }
        assert(seg_views(pieces@).take(pieces@.len() as int) =~= seg_views(pieces@));
        string_from(&p)
    }
}

/// ASCII-case-insensitive comparison of two texts.
fn eq_ignore_case(a: &Vec<char>, b: &Vec<char>) -> (r: bool)
    ensures
        r == eq_ignore_ascii_case(a@, b@),
{
    if a.len() != b.len() {
        proof {
            assert(ascii_lower_seq(a@).len() != ascii_lower_seq(b@).len());
        }
        return false;
    }
    let mut k: usize = 0;
    while k < a.len()
        invariant
            k <= a@.len() == b@.len(),
            forall|j: int| 0 <= j < k ==> ascii_lower(#[trigger] a@[j]) == ascii_lower(b@[j]),
        decreases a@.len() - k,
    {
        if ascii_lower_exec(a[k]) != ascii_lower_exec(b[k]) {
            proof {
                assert(ascii_lower_seq(a@)[k as int] != ascii_lower_seq(b@)[k as int]);
            }
            return false;
        }
        k = k + 1;
    }
    assert(ascii_lower_seq(a@) =~= ascii_lower_seq(b@));
    true
}

/// `Path::file_name` of the text `p`.
pub(crate) fn file_name_of(p: &Vec<char>) -> (r: Option<Vec<char>>)
    ensures
        match file_name_spec(p@) {
            Some(n) => r matches Some(x) && x@ == n,
            None => r is None,
        },
{
    let pieces = split_pieces(p);
    let comps = kept_pieces(&pieces);
    if comps.len() == 0 {
        return None;
    }
    let name = comps[comps.len() - 1].clone();
    proof {
        assert(seg_views(comps@).last() == name@);
    }
    if name.len() == 2 && name[0] == '.' && name[1] == '.' {
        assert(name@ =~= seq!['.', '.']);
        return None;
    }
    assert(name@ != seq!['.', '.']) by {
        if name@ == seq!['.', '.'] {
            assert(name@.len() == 2);
        }
    }
    Some(name)
}

/// `Path::extension` of the text `p`.
fn extension_of(p: &Vec<char>) -> (r: Option<Vec<char>>)
    ensures
        match extension_spec(p@) {
            Some(e) => r matches Some(x) && x@ == e,
            None => r is None,
        },
{
    let name = match file_name_of(p) {
        None => return None,
        Some(n) => n,
    };
    let mut k: usize = name.len();
    assert(name@.subrange(0, k as int) =~= name@);
    while k > 0 && name[k - 1] != '.'
        invariant
            k <= name@.len(),
            last_dot(name@) == last_dot(name@.subrange(0, k as int)),
        decreases k,
    {
        assert(name@.subrange(0, k as int).drop_last() =~= name@.subrange(0, k - 1));
        k = k - 1;
    }
    proof {
        if k > 0 {
            assert(name@.subrange(0, k as int).last() == '.');
        }
    }
    if k <= 1 {
        return None;
    }
    let mut e: Vec<char> = Vec::new();
    let mut j: usize = k;
    while j < name.len()
        invariant
            k <= j <= name@.len(),
            e@ == name@.subrange(k as int, j as int),
        decreases name@.len() - j,
    {
        e.push(name[j]);
        j = j + 1;
        assert(e@ =~= name@.subrange(k as int, j as int));
    }
    Some(e)
}

} // verus!
