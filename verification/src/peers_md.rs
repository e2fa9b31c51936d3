//! The `authorized_keys` file at the root of a vault: which device keys may
//! connect.
//!
//! Each line is `ssh-ed25519 <base64> [comment]`, as in OpenSSH. Lines
//! starting with `#` and blank lines are ignored. The older markdown bullet
//! form (`- `ssh-ed25519 ...` — alice`) is still read; rendering always
//! writes the SSH form.

use crate::codec::{b64_encode, is_b64_text_char, lemma_b64_text};
use crate::identity::{
    lemma_token_is, parse_ssh_pubkey_text, ssh_key_type_chars, ssh_pubkey_text, ssh_wire, Pubkey,
};
use crate::text::{
    lemma_trim_noop,
    chars_of, extend_chars, extend_lit, find_sub, find_token_end, find_trim_end, find_from, is_ws,
    lemma_skip_ws, lemma_token_end, lemma_trim_end_at, skip_whitespace, skip_ws, slice_vec,
    starts_with_lit, string_of, token_end, trim, trim_char, trim_char_vec, trim_end_at,
    trim_start, trim_vec,
};
use vstd::prelude::*;

verus! {

/// Name of the file, kept for callers that used the older name.
pub const PEERS_FILE: &'static str = "authorized_keys";

/// One authorized device: its key and a free-form label.
#[derive(Debug, Clone)]
pub struct AuthorizedPeer {
    pub pubkey: Pubkey,
    pub label: String,
}

impl AuthorizedPeer {
    /// The key bytes and label.
    pub open spec fn entry(&self) -> (Seq<u8>, Seq<char>) {
        (self.pubkey.0@, self.label@)
    }
}

/// The entries of `peers`, in order.
pub open spec fn peer_entries(peers: Seq<AuthorizedPeer>) -> Seq<(Seq<u8>, Seq<char>)> {
    peers.map_values(|p: AuthorizedPeer| p.entry())
}

/// First index at or after `i` holding `\n`, or `|s|`.
pub open spec fn first_nl(s: Seq<char>, i: int) -> int
    decreases s.len() - i,
{
    if i < 0 || i >= s.len() {
        s.len() as int
    } else if s[i] == '\n' {
        i
    } else {
        first_nl(s, i + 1)
    }
}

/// A line ended by `\r\n` loses its `\r`.
pub open spec fn strip_cr(l: Seq<char>) -> Seq<char> {
    if l.len() > 0 && l[l.len() - 1] == '\r' {
        l.drop_last()
    } else {
        l
    }
}

/// `str::lines`: split at `\n` (dropping a `\r` just before it); a final
/// line ending adds no empty line.
pub open spec fn lines(s: Seq<char>) -> Seq<Seq<char>>
    decreases s.len(),
{
    let e = first_nl(s, 0);
    if s.len() == 0 {
        Seq::empty()
    } else if 0 <= e < s.len() {
        seq![strip_cr(s.subrange(0, e))] + lines(s.subrange(e + 1, s.len() as int))
    } else {
        seq![s]
    }
}

/// `line` without a leading `- ` or `* ` list marker.
pub open spec fn marker_body(t: Seq<char>) -> Seq<char> {
    if t.len() >= 2 && ((t[0] == '-' && t[1] == ' ') || (t[0] == '*' && t[1] == ' ')) {
        t.subrange(2, t.len() as int)
    } else {
        t
    }
}

/// The separators between key and label in the legacy bullet form, tried
/// in this order: ` — `, ` – `, ` -- `, ` - `.
pub open spec fn label_seps() -> Seq<Seq<char>> {
    seq![
        seq![' ', '\u{2014}', ' '],
        seq![' ', '\u{2013}', ' '],
        seq![' ', '-', '-', ' '],
        seq![' ', '-', ' '],
    ]
}

/// Splits `s` at the first separator (in `label_seps` order) that occurs:
/// the part before it, and the trimmed part after it; `(s, "")` if none
/// occurs.
pub open spec fn split_key_label_from(s: Seq<char>, k: int) -> (Seq<char>, Seq<char>)
    decreases 4 - k,
{
    if k < 0 || k >= 4 {
        (s, Seq::empty())
    } else {
        let sep = label_seps()[k];
        let i = find_from(s, sep, 0);
        if i >= 0 {
            (s.subrange(0, i), trim(s.subrange(i + sep.len(), s.len() as int)))
        } else {
            split_key_label_from(s, k + 1)
        }
    }
}

proof fn lemma_find_none(s: Seq<char>, pat: Seq<char>, i: int)
    requires
        i >= 0,
        forall|k: int| i <= k && k + pat.len() <= s.len() ==> #[trigger] s.subrange(k, k + pat.len()) != pat,
    ensures
        find_from(s, pat, i) == -1,
    decreases s.len() + 1 - i,
{
    if i + pat.len() <= s.len() {
        assert(s.subrange(i, i + pat.len()) != pat);
        lemma_find_none(s, pat, i + 1);
    }
}

proof fn lemma_find_first(s: Seq<char>, pat: Seq<char>, i: int, j: int)
    requires
        0 <= i <= j,
        j + pat.len() <= s.len(),
        s.subrange(j, j + pat.len()) == pat,
        forall|k: int| i <= k < j ==> #[trigger] s.subrange(k, k + pat.len()) != pat,
    ensures
        find_from(s, pat, i) == j,
    decreases j - i,
{
    if i < j {
        assert(s.subrange(i, i + pat.len()) != pat);
        lemma_find_first(s, pat, i + 1, j);
    }
}

/// A dash a separator is made of: `-`, `—` or `–`.
pub open spec fn is_dash(c: char) -> bool {
    c == '-' || c == '\u{2014}' || c == '\u{2013}'
}

/// One of the four separator texts.
pub open spec fn is_separator_text(sep: Seq<char>) -> bool {
    sep == seq![' ', '\u{2014}', ' '] || sep == seq![' ', '\u{2013}', ' '] || sep == seq![' ', '-', '-', ' ']
        || sep == seq![' ', '-', ' ']
}

/// No space in `x` is followed by a dash: `x` holds no separator.
pub open spec fn no_space_dash(x: Seq<char>) -> bool {
    forall|i: int| 0 <= i < x.len() - 1 && x[i] == ' ' ==> !is_dash(#[trigger] x[i + 1])
}

/// `s` is `a <sep> b` where neither part holds a separator and `b` does
/// not start with a dash.
pub open spec fn split_around(s: Seq<char>, a: Seq<char>, sep: Seq<char>, b: Seq<char>) -> bool {
    &&& s == a + sep + b
    &&& is_separator_text(sep)
    &&& no_space_dash(a)
    &&& no_space_dash(b)
    &&& !(b.len() > 0 && is_dash(b[0]))
}

/// The only place in `s` where a space is followed by a dash is the start
/// of the separator.
proof fn lemma_space_dash_places(s: Seq<char>, a: Seq<char>, sep: Seq<char>, b: Seq<char>)
    requires
        split_around(s, a, sep, b),
    ensures
        forall|k: int| 0 <= k < s.len() - 1 && s[k] == ' ' && is_dash(#[trigger] s[k + 1]) ==> k == a.len(),
{
    let n = a.len() as int;
    let m = sep.len() as int;
    assert forall|k: int| 0 <= k < s.len() - 1 && s[k] == ' ' && is_dash(#[trigger] s[k + 1]) implies k == n by {
        assert(sep[0] == ' ' && is_dash(sep[1]));
        assert(sep.len() == 3 ==> sep[2] == ' ');
        assert(sep.len() == 4 ==> sep[2] == '-' && sep[3] == ' ');
        assert(sep.len() == 3 || sep.len() == 4);
        if k + 1 < n {
            assert(s[k] == a[k]);
            assert(s[k + 1] == a[k + 1]);
            assert(!is_dash(a[k + 1]));
        } else if k + 1 == n {
            assert(s[k + 1] == sep[0]);
        } else if k > n && k < n + m {
            assert(s[k] == sep[k - n]);
            if k + 1 < n + m {
                assert(s[k + 1] == sep[k + 1 - n]);
            } else {
                assert(s[k + 1] == b[0]);
            }
        } else if k >= n + m {
            let j = k - n - m;
            assert(s[k] == b[j]);
            assert(s[k + 1] == b[j + 1]);
            assert(!is_dash(b[j + 1]));
        }
    }
}

/// A window of `s` at `k` equal to a separator starts with a space
/// followed by a dash, and then matches it character by character.
proof fn lemma_window_chars(s: Seq<char>, pat: Seq<char>, k: int)
    requires
        is_separator_text(pat),
        0 <= k,
        k + pat.len() <= s.len(),
        s.subrange(k, k + pat.len()) == pat,
    ensures
        s[k] == ' ',
        is_dash(s[k + 1]),
        forall|t: int| 0 <= t < pat.len() ==> s[k + t] == #[trigger] pat[t],
{
    assert forall|t: int| 0 <= t < pat.len() implies s[k + t] == #[trigger] pat[t] by {
        assert(s.subrange(k, k + pat.len())[t] == s[k + t]);
    }
    assert(s[k] == pat[0]);
    assert(s[k + 1] == pat[1]);
}

/// A separator other than the one `s` is built with does not occur in it.
proof fn lemma_other_separator_absent(s: Seq<char>, a: Seq<char>, sep: Seq<char>, b: Seq<char>, p: Seq<char>)
    requires
        split_around(s, a, sep, b),
        is_separator_text(p),
        p != sep,
    ensures
        find_from(s, p, 0) == -1,
{
    lemma_space_dash_places(s, a, sep, b);
    let n = a.len() as int;
    assert forall|k: int| 0 <= k && k + p.len() <= s.len() implies #[trigger] s.subrange(k, k + p.len()) != p by {
        if s.subrange(k, k + p.len()) == p {
            lemma_window_chars(s, p, k);
            assert(k == n);
            assert(s[n + 1] == sep[1] && s[n + 2] == sep[2]);
            assert(s[k + 1] == p[1] && s[k + 2] == p[2]);
            if sep.len() == 3 && p.len() == 3 {
                assert(p =~= sep);
            } else if sep.len() == 4 && p.len() == 4 {
                assert(p =~= sep);
            } else if sep.len() == 3 {
                assert(p[2] == '-');
            } else {
                assert(p[2] == ' ');
            }
        }
    }
    lemma_find_none(s, p, 0);
}

/// The separator `s` is built with is found right after `a`.
proof fn lemma_own_separator_found(s: Seq<char>, a: Seq<char>, sep: Seq<char>, b: Seq<char>)
    requires
        split_around(s, a, sep, b),
    ensures
        find_from(s, sep, 0) == a.len(),
{
    lemma_space_dash_places(s, a, sep, b);
    let n = a.len() as int;
    assert(s.subrange(n, n + sep.len()) =~= sep);
    assert forall|k: int| 0 <= k < n implies #[trigger] s.subrange(k, k + sep.len()) != sep by {
        if s.subrange(k, k + sep.len()) == sep {
            lemma_window_chars(s, sep, k);
        }
    }
    lemma_find_first(s, sep, 0, n);
}

/// Splitting a legacy bullet body at its separator: when neither the key
/// part `a` nor the label part `b` holds a space followed by a dash, and
/// `b` does not start with one, `a <sep> b` splits into `a` and the
/// trimmed `b`, for each separator ` — `, ` – `, ` -- ` and ` - `.
pub proof fn lemma_split_key_label(a: Seq<char>, b: Seq<char>, sep: Seq<char>)
    requires
        no_space_dash(a),
        no_space_dash(b),
        !(b.len() > 0 && is_dash(b[0])),
        is_separator_text(sep),
    ensures
        split_key_label_from(a + sep + b, 0) == (a, trim(b)),
{
    let s = a + sep + b;
    let n = a.len() as int;
    assert(split_around(s, a, sep, b));
    let seps = label_seps();
    assert(is_separator_text(seps[0]) && is_separator_text(seps[1]) && is_separator_text(seps[2])
        && is_separator_text(seps[3]));
    lemma_own_separator_found(s, a, sep, b);
    assert(s.subrange(0, n) =~= a);
    assert(s.subrange(n + sep.len(), s.len() as int) =~= b);
    if sep != seps[0] {
        lemma_other_separator_absent(s, a, sep, b, seps[0]);
        if sep != seps[1] {
            lemma_other_separator_absent(s, a, sep, b, seps[1]);
            if sep != seps[2] {
                lemma_other_separator_absent(s, a, sep, b, seps[2]);
                assert(sep == seps[3]);
                assert(split_key_label_from(s, 3) == (a, trim(b)));
                assert(split_key_label_from(s, 2) == split_key_label_from(s, 3));
            } else {
                assert(split_key_label_from(s, 2) == (a, trim(b)));
            }
            assert(split_key_label_from(s, 1) == split_key_label_from(s, 2));
        } else {
            assert(split_key_label_from(s, 1) == (a, trim(b)));
        }
        assert(split_key_label_from(s, 0) == split_key_label_from(s, 1));
    }
}

/// What one line of the file authorizes, if anything.
pub open spec fn parse_line(raw: Seq<char>) -> Option<(Seq<u8>, Seq<char>)> {
    let t = trim_start(raw);
    if t.len() == 0 || t[0] == '#' {
        None
    } else {
        let body = marker_body(t);
        if body.len() > 0 && body[0] == '`' {
            let (k, label) = split_key_label_from(body, 0);
            match parse_ssh_pubkey_text(trim(trim_char(trim(k), '`'))) {
                Some(pk) => Some((pk, label)),
                None => None,
            }
        } else {
            let i1 = token_end(body, 0);
            if i1 >= body.len() {
                None
            } else {
                let i2 = token_end(body, i1 + 1);
                let label = if i2 >= body.len() {
                    Seq::empty()
                } else {
                    trim(body.subrange(i2 + 1, body.len() as int))
                };
                let key = body.subrange(0, i1) + seq![' '] + body.subrange(i1 + 1, i2);
                match parse_ssh_pubkey_text(key) {
                    Some(pk) => Some((pk, label)),
                    None => None,
                }
            }
        }
    }
}

/// The entries of the lines that parse, in order.
pub open spec fn parse_lines(ls: Seq<Seq<char>>) -> Seq<(Seq<u8>, Seq<char>)>
    decreases ls.len(),
{
    if ls.len() == 0 {
        Seq::empty()
    } else {
        let head = match parse_line(ls[0]) {
            Some(p) => seq![p],
            None => Seq::empty(),
        };
        head + parse_lines(ls.drop_first())
    }
}

/// What `parse_authorized_keys` reads from `content`.
pub open spec fn parse_authorized(content: Seq<char>) -> Seq<(Seq<u8>, Seq<char>)> {
    parse_lines(lines(content))
}

/// A legacy bullet line `- `K` <sep> L`, whose key text `K` reads as a
/// key and neither `K` nor `L` holds a separator (and `L` does not start
/// with a dash), authorizes that key under the trimmed label `L`, for
/// each of the separators ` — `, ` – `, ` -- ` and ` - `.
pub proof fn lemma_bullet_line(k: Seq<char>, sep: Seq<char>, l: Seq<char>, pk: Seq<u8>)
    requires
        parse_ssh_pubkey_text(k) == Some(pk),
        k.len() > 0,
        !is_ws(k[0]) && !is_ws(k[k.len() - 1]),
        k[0] != '`' && k[k.len() - 1] != '`',
        no_space_dash(k),
        is_separator_text(sep),
        no_space_dash(l),
        !(l.len() > 0 && is_dash(l[0])),
    ensures
        parse_line(seq!['-', ' ', '`'] + k + seq!['`'] + sep + l) == Some((pk, trim(l))),
{
    let raw = seq!['-', ' ', '`'] + k + seq!['`'] + sep + l;
    assert(skip_ws(raw, 0) == 0);
    assert(trim_start(raw) =~= raw);
    let a = seq!['`'] + k + seq!['`'];
    let body = a + sep + l;
    assert(marker_body(raw) =~= body);
    assert(no_space_dash(a)) by {
        assert forall|i: int| 0 <= i < a.len() - 1 && a[i] == ' ' implies !is_dash(#[trigger] a[i + 1]) by {
            assert(i >= 1);
            if i + 1 < a.len() - 1 {
                assert(a[i] == k[i - 1]);
                assert(a[i + 1] == k[i]);
                let j = i - 1;
                assert(k[j + 1] == k[i]);
            } else {
                assert(a[i] == k[k.len() - 1]);
            }
        }
    }
    lemma_split_key_label(a, l, sep);
    assert(body[0] == '`');
    lemma_trim_noop(a);
    assert(a.drop_first() =~= k + seq!['`']);
    assert((k + seq!['`']).drop_last() =~= k);
    assert(trim_char(k, '`') == k);
    assert(trim_char(k + seq!['`'], '`') == trim_char(k, '`'));
    assert(trim_char(a, '`') == trim_char(k + seq!['`'], '`'));
    lemma_trim_noop(k);
}

/// A file holding just such a bullet line (and its line end) authorizes
/// exactly that one key, under that label.
pub proof fn lemma_bullet_file(k: Seq<char>, sep: Seq<char>, l: Seq<char>, pk: Seq<u8>)
    requires
        parse_ssh_pubkey_text(k) == Some(pk),
        k.len() > 0,
        !is_ws(k[0]) && !is_ws(k[k.len() - 1]),
        k[0] != '`' && k[k.len() - 1] != '`',
        no_space_dash(k),
        is_separator_text(sep),
        no_space_dash(l),
        !(l.len() > 0 && is_dash(l[0])),
        forall|i: int| 0 <= i < k.len() ==> #[trigger] k[i] != '\n',
        forall|i: int| 0 <= i < l.len() ==> #[trigger] l[i] != '\n' && l[i] != '\r',
    ensures
        parse_authorized(seq!['-', ' ', '`'] + k + seq!['`'] + sep + l + seq!['\n']) == seq![(pk, trim(l))],
{
    let raw = seq!['-', ' ', '`'] + k + seq!['`'] + sep + l;
    let c = raw + seq!['\n'];
    lemma_bullet_line(k, sep, l, pk);
    assert forall|i: int| 0 <= i < raw.len() implies #[trigger] c[i] != '\n' by {
        assert(c[i] == raw[i]);
        let nk = 3 + k.len();
        if 3 <= i < nk {
            assert(raw[i] == k[i - 3]);
        } else if nk + 1 + sep.len() <= i {
            assert(raw[i] == l[i - nk - 1 - sep.len()]);
        } else if nk + 1 <= i {
            assert(raw[i] == sep[i - nk - 1]);
        }
    }
    lemma_first_nl_is(c, 0, raw.len() as int);
    assert(c.subrange(0, raw.len() as int) =~= raw);
    assert(c.subrange(raw.len() + 1int, c.len() as int) =~= Seq::<char>::empty());
    assert(raw[raw.len() - 1] != '\r') by {
        if l.len() > 0 {
            assert(raw[raw.len() - 1] == l[l.len() - 1]);
        } else {
            assert(raw[raw.len() - 1] == sep[sep.len() - 1]);
        }
    }
    assert(strip_cr(raw) == raw);
    let rest = c.subrange(raw.len() + 1int, c.len() as int);
    assert(lines(rest) =~= Seq::<Seq<char>>::empty());
    assert(lines(c) == seq![strip_cr(c.subrange(0, raw.len() as int))] + lines(rest));
    assert(lines(c) =~= seq![raw]);
    let one = seq![raw];
    assert(one[0] == raw);
    assert(one.drop_first() =~= Seq::<Seq<char>>::empty());
    assert(parse_lines(Seq::<Seq<char>>::empty()) =~= Seq::<(Seq<u8>, Seq<char>)>::empty());
    assert(parse_lines(one) == seq![(pk, trim(l))] + parse_lines(one.drop_first()));
    assert(parse_lines(one) =~= seq![(pk, trim(l))]);
}


/// The line without a leading `- ` or `* ` marker, if it has one.
pub fn strip_list_marker(line: &Vec<char>) -> (r: Option<Vec<char>>)
    ensures
        match r {
            Some(rest) => marker_body(line@) == rest@ && rest@ != line@,
            None => marker_body(line@) == line@,
        },
{
    if line.len() >= 2 && (line[0] == '-' || line[0] == '*') && line[1] == ' ' {
        let rest = slice_vec(line, 2, line.len());
        assert(rest@.len() != line@.len());
        Some(rest)
    } else {
        None
    }
}

/// One of the key/label separators, as characters.
fn label_sep(k: usize) -> (r: Vec<char>)
    requires
        k < 4,
    ensures
        r@ == label_seps()[k as int],
{
    let r: Vec<char> = if k == 0 {
        vec![' ', '\u{2014}', ' ']
    } else if k == 1 {
        vec![' ', '\u{2013}', ' ']
    } else if k == 2 {
        vec![' ', '-', '-', ' ']
    } else {
        vec![' ', '-', ' ']
    };
    assert(r@ =~= label_seps()[k as int]);
    r
}

/// Splits a legacy bullet body into key text and label (see
/// `split_key_label_from`).
pub fn split_key_and_label(s: &Vec<char>) -> (r: (Vec<char>, Vec<char>))
    ensures
        (r.0@, r.1@) == split_key_label_from(s@, 0),
{
    let mut k: usize = 0;
    while k < 4
        invariant
            k <= 4,
            split_key_label_from(s@, k as int) == split_key_label_from(s@, 0),
        decreases 4 - k,
    {
        let sep = label_sep(k);
        match find_sub(s, &sep) {
            Some(i) => {
                let n = s.len();
                let key = slice_vec(s, 0, i);
                let rest = slice_vec(s, i + sep.len(), n);
                return (key, trim_vec(&rest));
            },
            None => {},
        }
        k = k + 1;
    }
    (slice_vec(s, 0, s.len()), Vec::new())
}

/// Reads a legacy bullet line whose body starts with a backtick.
fn parse_legacy(body: &Vec<char>) -> (r: Option<AuthorizedPeer>)
    ensures
        ({
            let (k, label) = split_key_label_from(body@, 0);
            match parse_ssh_pubkey_text(trim(trim_char(trim(k), '`'))) {
                Some(pk) => r matches Some(p) && p.entry() == (pk, label),
                None => r is None,
            }
        }),
{
    let (key_part, label) = split_key_and_label(body);
    let key_text = trim_vec(&trim_char_vec(&trim_vec(&key_part), '`'));
    match Pubkey::from_ssh_string(string_of(key_text.as_slice()).as_str()) {
        Ok(pk) => Some(AuthorizedPeer { pubkey: pk, label: string_of(label.as_slice()) }),
        Err(_) => None,
    }
}

/// What one line authorizes, if anything (see `parse_line`).
fn parse_one_line(raw: &Vec<char>) -> (r: Option<AuthorizedPeer>)
    ensures
        match parse_line(raw@) {
            Some(e) => r matches Some(p) && p.entry() == e,
            None => r is None,
        },
{
    let a = skip_whitespace(raw, 0);
    proof {
        lemma_skip_ws(raw@, 0);
    }
    let trimmed = slice_vec(raw, a, raw.len());
    assert(trimmed@ == trim_start(raw@));
    if trimmed.len() == 0 || trimmed[0] == '#' {
        return None;
    }
    let body = match strip_list_marker(&trimmed) {
        Some(rest) => rest,
        None => trimmed,
    };
    assert(body@ == marker_body(trim_start(raw@)));
    if body.len() > 0 && body[0] == '`' {
        return parse_legacy(&body);
    }
    let i1 = find_token_end(&body, 0);
    proof {
        lemma_token_end(body@, 0);
    }
    if i1 >= body.len() {
        return None;
    }
    let i2 = find_token_end(&body, i1 + 1);
    proof {
        lemma_token_end(body@, i1 + 1);
    }
    let label = if i2 >= body.len() {
        Vec::new()
    } else {
        trim_vec(&slice_vec(&body, i2 + 1, body.len()))
    };
    let mut key = slice_vec(&body, 0, i1);
    key.push(' ');
    let blob = slice_vec(&body, i1 + 1, i2);
    extend_chars(&mut key, &blob);
    assert(key@ =~= body@.subrange(0, i1 as int) + seq![' '] + body@.subrange(i1 + 1, i2 as int));
    match Pubkey::from_ssh_string(string_of(key.as_slice()).as_str()) {
        Ok(pk) => Some(AuthorizedPeer { pubkey: pk, label: string_of(label.as_slice()) }),
        Err(_) => None,
    }
}


pub(crate) proof fn lemma_first_nl_is(s: Seq<char>, j: int, m: int)
    requires
        0 <= j <= m <= s.len(),
        forall|k: int| j <= k < m ==> #[trigger] s[k] != '\n',
        m == s.len() || s[m] == '\n',
    ensures
        first_nl(s, j) == m,
    decreases m - j,
{
    if j < m {
        lemma_first_nl_is(s, j + 1, m);
    }
}

proof fn lemma_parse_lines_cons(l: Seq<char>, rest: Seq<Seq<char>>)
    ensures
        parse_lines(seq![l] + rest) == (match parse_line(l) {
            Some(p) => seq![p],
            None => Seq::<(Seq<u8>, Seq<char>)>::empty(),
        }) + parse_lines(rest),
{
    let ls = seq![l] + rest;
    assert(ls[0] == l);
    assert(ls.drop_first() =~= rest);
}

/// Reads the authorized peers from the file content. Lines that do not
/// parse (comments, blank lines, anything else) are skipped.
pub fn parse_authorized_keys(content: &str) -> (r: Vec<AuthorizedPeer>)
    ensures
        peer_entries(r@) == parse_authorized(content@),
{
    let cs = chars_of(content);
    let n = cs.len();
    let mut out: Vec<AuthorizedPeer> = Vec::new();
    let mut i: usize = 0;
    proof {
        assert(cs@.subrange(0, n as int) =~= cs@);
        assert(peer_entries(out@) =~= Seq::<(Seq<u8>, Seq<char>)>::empty());
    }
    while i < n
        invariant
            n == cs@.len(),
            i <= n,
            peer_entries(out@) + parse_lines(lines(cs@.subrange(i as int, n as int))) == parse_lines(
                lines(content@),
            ),
            cs@ == content@,
        decreases n - i,
    {
        let mut e = i;
        while e < n && cs[e] != '\n'
            invariant
                i <= e <= n,
                n == cs@.len(),
                forall|k: int| i <= k < e ==> cs@[k] != '\n',
            decreases n - e,
        {
            e = e + 1;
        }
        let line = if e < n && e > i && cs[e - 1] == '\r' {
            slice_vec(&cs, i, e - 1)
        } else {
            slice_vec(&cs, i, e)
        };
        let ghost t = cs@.subrange(i as int, n as int);
        let ghost prev = peer_entries(out@);
        proof {
            lemma_first_nl_is(t, 0, e - i);
            if e < n {
                assert(line@ == strip_cr(t.subrange(0, e - i)));
                assert(t.subrange(e - i + 1, t.len() as int) =~= cs@.subrange(e + 1, n as int));
                assert(lines(t) == seq![line@] + lines(cs@.subrange(e + 1, n as int)));
                lemma_parse_lines_cons(line@, lines(cs@.subrange(e + 1, n as int)));
            } else {
                assert(line@ =~= t);
                assert(lines(t) == seq![line@]);
                assert(seq![line@] =~= seq![line@] + Seq::<Seq<char>>::empty());
                lemma_parse_lines_cons(line@, Seq::empty());
                assert(cs@.subrange(n as int, n as int) =~= Seq::<char>::empty());
            }
        }
        match parse_one_line(&line) {
            Some(p) => {
                out.push(p);
                proof {
                    assert(peer_entries(out@) =~= prev.push(p.entry()));
                }
            },
            None => {},
        }
        proof {
            let next = if e < n {
                cs@.subrange(e + 1, n as int)
            } else {
                cs@.subrange(n as int, n as int)
            };
            let head = match parse_line(line@) {
                Some(pp) => seq![pp],
                None => Seq::<(Seq<u8>, Seq<char>)>::empty(),
            };
            assert(peer_entries(out@) =~= prev + head);
            assert(prev + parse_lines(lines(t)) == prev + (head + parse_lines(lines(next))));
            assert(prev + (head + parse_lines(lines(next))) =~= (prev + head) + parse_lines(lines(next)));
        }
        i = if e < n {
            e + 1
        } else {
            n
        };
    }
    proof {
        assert(cs@.subrange(n as int, n as int) =~= Seq::<char>::empty());
        assert(lines(Seq::<char>::empty()) =~= Seq::<Seq<char>>::empty());
        assert(peer_entries(out@) + Seq::<(Seq<u8>, Seq<char>)>::empty() =~= peer_entries(out@));
    }
    out
}

/// Older name of `parse_authorized_keys`.
pub fn parse_peers_md(content: &str) -> (r: Vec<AuthorizedPeer>)
    ensures
        peer_entries(r@) == parse_authorized(content@),
{
    parse_authorized_keys(content)
}


/// The comment block that opens a rendered file.
pub open spec fn header_text() -> Seq<char> {
    "# agentsync authorized_keys"@ + seq!['\n'] + "#"@ + seq!['\n']
        + "# One ssh-ed25519 public key per line. Lines starting with '#' are"@ + seq!['\n']
        + "# comments. Paste `agentsync key show` output from any device you"@ + seq!['\n']
        + "# want to authorize."@ + seq!['\n', '\n']
}

/// One rendered entry, without its line break: the key, then ` label` if
/// the label is not empty.
pub open spec fn entry_line(e: (Seq<u8>, Seq<char>)) -> Seq<char> {
    ssh_pubkey_text(e.0) + if e.1.len() == 0 {
        Seq::empty()
    } else {
        seq![' '] + e.1
    }
}

/// The rendered entries, one per line.
pub open spec fn render_entries(es: Seq<(Seq<u8>, Seq<char>)>) -> Seq<char>
    decreases es.len(),
{
    if es.len() == 0 {
        Seq::empty()
    } else {
        render_entries(es.drop_last()) + entry_line(es.last()) + seq!['\n']
    }
}

/// What `render_authorized_keys` writes.
pub open spec fn render_text(es: Seq<(Seq<u8>, Seq<char>)>) -> Seq<char> {
    header_text() + render_entries(es)
}

/// A label survives a render/parse round trip: one line, no whitespace at
/// either end.
pub open spec fn label_ok(l: Seq<char>) -> bool {
    &&& forall|k: int| 0 <= k < l.len() ==> #[trigger] l[k] != '\n'
    &&& l.len() > 0 ==> !is_ws(l[0]) && !is_ws(l[l.len() - 1])
}

/// Text that is empty or ends with a line break.
pub open spec fn whole_lines(x: Seq<char>) -> bool {
    x.len() == 0 || x[x.len() - 1] == '\n'
}

/// Splitting after a complete line splits the line list there.
pub(crate) proof fn lemma_lines_concat(x: Seq<char>, y: Seq<char>)
    requires
        whole_lines(x),
    ensures
        lines(x + y) == lines(x) + lines(y),
    decreases x.len(),
{
    if x.len() == 0 {
        assert(x + y =~= y);
        assert(lines(x) =~= Seq::<Seq<char>>::empty());
        assert(lines(x) + lines(y) =~= lines(y));
    } else {
        let e = first_nl(x, 0);
        lemma_first_nl_bound(x, 0);
        lemma_first_nl_concat(x, y, 0);
        let xr = x.subrange(e + 1, x.len() as int);
        assert((x + y).subrange(0, e) =~= x.subrange(0, e));
        assert((x + y).subrange(e + 1, (x + y).len() as int) =~= xr + y);
        lemma_lines_concat(xr, y);
        assert(lines(x + y) == seq![strip_cr(x.subrange(0, e))] + lines(xr + y));
        assert(lines(x) == seq![strip_cr(x.subrange(0, e))] + lines(xr));
        assert(seq![strip_cr(x.subrange(0, e))] + (lines(xr) + lines(y)) =~= (seq![
            strip_cr(x.subrange(0, e)),
        ] + lines(xr)) + lines(y));
    }
}

proof fn lemma_first_nl_bound(s: Seq<char>, i: int)
    requires
        0 <= i <= s.len(),
    ensures
        i <= first_nl(s, i) <= s.len(),
        first_nl(s, i) < s.len() ==> s[first_nl(s, i)] == '\n',
        forall|k: int| i <= k < first_nl(s, i) ==> #[trigger] s[k] != '\n',
    decreases s.len() - i,
{
    if i < s.len() && s[i] != '\n' {
        lemma_first_nl_bound(s, i + 1);
    }
}

proof fn lemma_first_nl_concat(x: Seq<char>, y: Seq<char>, i: int)
    requires
        0 <= i < x.len(),
        whole_lines(x),
    ensures
        first_nl(x + y, i) == first_nl(x, i),
        first_nl(x, i) < x.len(),
    decreases x.len() - i,
{
    assert((x + y)[i] == x[i]);
    if x[i] != '\n' {
        lemma_first_nl_concat(x, y, i + 1);
    }
}

/// A single line with its line break.
proof fn lemma_one_line(l: Seq<char>)
    requires
        forall|k: int| 0 <= k < l.len() ==> #[trigger] l[k] != '\n',
        l.len() == 0 || l[l.len() - 1] != '\r',
    ensures
        lines(l + seq!['\n']) == seq![l],
{
    let s = l + seq!['\n'];
    lemma_first_nl_is(s, 0, l.len() as int);
    assert(s.subrange(0, l.len() as int) =~= l);
    assert(s.subrange(l.len() + 1int, s.len() as int) =~= Seq::<char>::empty());
    assert(lines(Seq::<char>::empty()) =~= Seq::<Seq<char>>::empty());
    assert(seq![l] + Seq::<Seq<char>>::empty() =~= seq![l]);
}

proof fn lemma_parse_lines_concat(a: Seq<Seq<char>>, b: Seq<Seq<char>>)
    ensures
        parse_lines(a + b) == parse_lines(a) + parse_lines(b),
    decreases a.len(),
{
    if a.len() == 0 {
        assert(a + b =~= b);
        assert(parse_lines(a) + parse_lines(b) =~= parse_lines(b));
    } else {
        lemma_parse_lines_concat(a.drop_first(), b);
        assert((a + b)[0] == a[0]);
        assert((a + b).drop_first() =~= a.drop_first() + b);
        let head = match parse_line(a[0]) {
            Some(p) => seq![p],
            None => Seq::<(Seq<u8>, Seq<char>)>::empty(),
        };
        assert(head + (parse_lines(a.drop_first()) + parse_lines(b)) =~= (head + parse_lines(
            a.drop_first(),
        )) + parse_lines(b));
    }
}

/// A comment line parses to nothing.
proof fn lemma_comment_line(l: Seq<char>)
    requires
        l.len() > 0,
        l[0] == '#',
        forall|k: int| 0 <= k < l.len() ==> #[trigger] l[k] != '\n',
        l[l.len() - 1] != '\r',
    ensures
        parse_lines(lines(l + seq!['\n'])) == Seq::<(Seq<u8>, Seq<char>)>::empty(),
{
    lemma_one_line(l);
    assert(skip_ws(l, 0) == 0);
    assert(trim_start(l) =~= l);
    lemma_parse_lines_cons(l, Seq::empty());
    assert(seq![l] + Seq::<Seq<char>>::empty() =~= seq![l]);
}

/// The opening comment block authorizes nothing.
proof fn lemma_header_parses_to_nothing()
    ensures
        whole_lines(header_text()),
        parse_lines(lines(header_text())) == Seq::<(Seq<u8>, Seq<char>)>::empty(),
{
    reveal_strlit("# agentsync authorized_keys");
    reveal_strlit("#");
    reveal_strlit("# One ssh-ed25519 public key per line. Lines starting with '#' are");
    reveal_strlit("# comments. Paste `agentsync key show` output from any device you");
    reveal_strlit("# want to authorize.");
    let l1 = "# agentsync authorized_keys"@;
    let l2 = "#"@;
    let l3 = "# One ssh-ed25519 public key per line. Lines starting with '#' are"@;
    let l4 = "# comments. Paste `agentsync key show` output from any device you"@;
    let l5 = "# want to authorize."@;
    let p1 = l1 + seq!['\n'];
    let p2 = l2 + seq!['\n'];
    let p3 = l3 + seq!['\n'];
    let p4 = l4 + seq!['\n'];
    let p5 = l5 + seq!['\n'];
    let p6 = Seq::<char>::empty() + seq!['\n'];
    assert(header_text() =~= p1 + (p2 + (p3 + (p4 + (p5 + p6)))));
    lemma_comment_line(l1);
    lemma_comment_line(l2);
    lemma_comment_line(l3);
    lemma_comment_line(l4);
    lemma_comment_line(l5);
    lemma_one_line(Seq::<char>::empty());
    assert(trim_start(Seq::<char>::empty()) =~= Seq::<char>::empty());
    lemma_parse_lines_cons(Seq::<char>::empty(), Seq::empty());
    assert(seq![Seq::<char>::empty()] + Seq::<Seq<char>>::empty() =~= seq![Seq::<char>::empty()]);
    lemma_lines_concat(p5, p6);
    lemma_parse_lines_concat(lines(p5), lines(p6));
    lemma_lines_concat(p4, p5 + p6);
    lemma_parse_lines_concat(lines(p4), lines(p5 + p6));
    lemma_lines_concat(p3, p4 + (p5 + p6));
    lemma_parse_lines_concat(lines(p3), lines(p4 + (p5 + p6)));
    lemma_lines_concat(p2, p3 + (p4 + (p5 + p6)));
    lemma_parse_lines_concat(lines(p2), lines(p3 + (p4 + (p5 + p6))));
    lemma_lines_concat(p1, p2 + (p3 + (p4 + (p5 + p6))));
    lemma_parse_lines_concat(lines(p1), lines(p2 + (p3 + (p4 + (p5 + p6)))));
    let z = Seq::<(Seq<u8>, Seq<char>)>::empty();
    assert(z + z =~= z);
}

/// A rendered entry reads back as the entry.
proof fn lemma_entry_line(e: (Seq<u8>, Seq<char>))
    requires
        e.0.len() == 32,
        parse_ssh_pubkey_text(ssh_pubkey_text(e.0)) == Some(e.0),
        label_ok(e.1),
    ensures
        parse_line(entry_line(e)) == Some(e),
        forall|k: int| 0 <= k < entry_line(e).len() ==> #[trigger] entry_line(e)[k] != '\n',
        entry_line(e).len() > 0,
        entry_line(e)[entry_line(e).len() - 1] != '\r',
{
    let l = entry_line(e);
    let key = ssh_pubkey_text(e.0);
    let b = b64_encode(ssh_wire(e.0), true);
    lemma_b64_text(ssh_wire(e.0), true);
    assert(ssh_wire(e.0).len() == 51);
    let kb: int = 12 + b.len() as int;
    assert(key.len() == kb);
    assert forall|k: int| 0 <= k < kb implies #[trigger] l[k] != '\n' && (k != 11 ==> !is_ws(l[k])) by {
        assert(l[k] == key[k]);
        if k >= 12 {
            assert(key[k] == b[k - 12]);
            assert(is_b64_text_char(b[k - 12]));
        }
    }
    assert forall|k: int| kb <= k < l.len() implies #[trigger] l[k] != '\n' by {
        assert(l[k] == (seq![' '] + e.1)[k - kb]);
        if k > kb {
            assert(l[k] == e.1[k - kb - 1]);
        }
    }
    assert(b.len() > 0);
    if e.1.len() == 0 {
        assert(l =~= key);
        assert(l[l.len() - 1] == b[b.len() - 1]);
        assert(is_b64_text_char(b[b.len() - 1]));
    } else {
        assert(l[l.len() - 1] == e.1[e.1.len() - 1]);
    }
    assert(skip_ws(l, 0) == 0);
    assert(trim_start(l) =~= l);
    assert(marker_body(l) == l);
    lemma_token_is(l, 0, 11);
    assert(is_b64_text_char(b[0]));
    if e.1.len() == 0 {
        lemma_token_is(l, 12, l.len() as int);
    } else {
        assert(l[kb] == ' ');
        lemma_token_is(l, 12, kb);
        assert(l.subrange(kb + 1, l.len() as int) =~= e.1);
        lemma_trim_noop(e.1);
    }
    assert(l.subrange(0, 11) + seq![' '] + l.subrange(12, kb) =~= key);
}

/// Rendered entries read back as the entries.
proof fn lemma_entries_roundtrip(es: Seq<(Seq<u8>, Seq<char>)>)
    requires
        forall|i: int|
            0 <= i < es.len() ==> (#[trigger] es[i]).0.len() == 32 && parse_ssh_pubkey_text(
                ssh_pubkey_text(es[i].0),
            ) == Some(es[i].0) && label_ok(es[i].1),
    ensures
        whole_lines(render_entries(es)),
        parse_lines(lines(render_entries(es))) == es,
    decreases es.len(),
{
    if es.len() == 0 {
        assert(lines(Seq::<char>::empty()) =~= Seq::<Seq<char>>::empty());
        assert(parse_lines(Seq::<Seq<char>>::empty()) =~= es);
    } else {
        let init = es.drop_last();
        let last = es.last();
        assert(es[es.len() - 1] == last);
        lemma_entries_roundtrip(init);
        lemma_entry_line(last);
        let l = entry_line(last);
        lemma_one_line(l);
        lemma_lines_concat(render_entries(init), l + seq!['\n']);
        assert(render_entries(es) =~= render_entries(init) + (l + seq!['\n']));
        lemma_parse_lines_concat(lines(render_entries(init)), seq![l]);
        lemma_parse_lines_cons(l, Seq::empty());
        assert(seq![l] + Seq::<Seq<char>>::empty() =~= seq![l]);
        assert(seq![last] + Seq::<(Seq<u8>, Seq<char>)>::empty() =~= seq![last]);
        assert(init + seq![last] =~= es);
    }
}

/// Renders `peers` in SSH `authorized_keys` form. For peers whose labels
/// are single lines without surrounding whitespace, `parse_authorized_keys`
/// reads the result back as exactly these peers.
pub fn render_authorized_keys(peers: &[AuthorizedPeer]) -> (r: String)
    ensures
        r@ == render_text(peer_entries(peers@)),
        (forall|i: int| 0 <= i < peers@.len() ==> label_ok(#[trigger] peers@[i].label@))
            ==> parse_authorized(r@) == peer_entries(peers@),
{
    let mut out: Vec<char> = Vec::new();
    extend_lit(&mut out, "# agentsync authorized_keys");
    out.push('\n');
    extend_lit(&mut out, "#");
    out.push('\n');
    extend_lit(&mut out, "# One ssh-ed25519 public key per line. Lines starting with '#' are");
    out.push('\n');
    extend_lit(&mut out, "# comments. Paste `agentsync key show` output from any device you");
    out.push('\n');
    extend_lit(&mut out, "# want to authorize.");
    out.push('\n');
    out.push('\n');
    assert(out@ =~= header_text());
    let ghost es = peer_entries(peers@);
    let mut i: usize = 0;
    while i < peers.len()
        invariant
            i <= peers@.len(),
            es == peer_entries(peers@),
            out@ == header_text() + render_entries(es.take(i as int)),
            forall|j: int|
                0 <= j < i ==> parse_ssh_pubkey_text(ssh_pubkey_text((#[trigger] es[j]).0))
                    == Some(es[j].0),
        decreases peers@.len() - i,
    {
        let key = peers[i].pubkey.to_ssh_string();
        let key_chars = chars_of(key.as_str());
        extend_chars(&mut out, &key_chars);
        let label = chars_of(peers[i].label.as_str());
        if label.len() > 0 {
            out.push(' ');
            extend_chars(&mut out, &label);
        }
        out.push('\n');
        proof {
            let e = es[i as int];
            assert(es.take(i + 1).drop_last() =~= es.take(i as int));
            assert(es.take(i + 1).last() == e);
            assert(out@ =~= header_text() + render_entries(es.take(i + 1)));
        }
        i = i + 1;
    }
    assert(es.take(peers@.len() as int) =~= es);
    proof {
        if forall|i: int| 0 <= i < peers@.len() ==> label_ok(#[trigger] peers@[i].label@) {
            assert forall|j: int| 0 <= j < es.len() implies (#[trigger] es[j]).0.len() == 32
                && parse_ssh_pubkey_text(ssh_pubkey_text(es[j].0)) == Some(es[j].0) && label_ok(
                es[j].1,
            ) by {
                assert(es[j] == peers@[j].entry());
                assert(label_ok(peers@[j].label@));
            }
            lemma_entries_roundtrip(es);
            lemma_header_parses_to_nothing();
            lemma_lines_concat(header_text(), render_entries(es));
            lemma_parse_lines_concat(lines(header_text()), lines(render_entries(es)));
            assert(Seq::<(Seq<u8>, Seq<char>)>::empty() + es =~= es);
        }
    }
    string_of(out.as_slice())
}

/// Older name of `render_authorized_keys`.
pub fn render_peers_md(peers: &[AuthorizedPeer]) -> (r: String)
    ensures
        r@ == render_text(peer_entries(peers@)),
{
    render_authorized_keys(peers)
}

} // verus!
