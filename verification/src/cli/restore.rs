//! Reading the target time of `restore-at`: epoch milliseconds, or an
//! offset back from now such as `30s`, `5m`, `2h`, `1d` or `1w`.

use crate::error::Error;
use crate::text::{chars_of, extend_chars, extend_lit, lemma_trim_noop, string_of, trim, trim_vec};
use vstd::prelude::*;

verus! {

/// Largest magnitude an `i64` can hold, plus one: the cap at which digit
/// accumulation stops mattering.
pub open spec fn magnitude_cap() -> int {
    0x8000_0000_0000_0001
}

pub open spec fn is_digit(c: char) -> bool {
    '0' <= c && c <= '9'
}

/// The number the decimal digits `s` spell.
pub open spec fn digits_value(s: Seq<char>) -> int
    decreases s.len(),
{
    if s.len() == 0 {
        0
    } else {
        digits_value(s.drop_last()) * 10 + (s.last() as int - '0' as int)
    }
}

pub open spec fn all_digits(s: Seq<char>) -> bool {
    forall|i: int| 0 <= i < s.len() ==> is_digit(#[trigger] s[i])
}

/// `str::parse::<i64>`: an optional `+` or `-`, then one or more decimal
/// digits, whose value fits an `i64`.
pub open spec fn parse_i64_spec(s: Seq<char>) -> Option<i64> {
    let neg = s.len() > 0 && s[0] == '-';
    let signed = s.len() > 0 && (s[0] == '-' || s[0] == '+');
    let body = if signed {
        s.subrange(1, s.len() as int)
    } else {
        s
    };
    if body.len() == 0 || !all_digits(body) {
        None
    } else {
        let v = if neg {
            -digits_value(body)
        } else {
            digits_value(body)
        };
        if i64::MIN <= v && v <= i64::MAX {
            Some(v as i64)
        } else {
            None
        }
    }
}

proof fn lemma_digits_nonneg(s: Seq<char>)
    requires
        all_digits(s),
    ensures
        digits_value(s) >= 0,
    decreases s.len(),
{
    if s.len() > 0 {
        assert(is_digit(s[s.len() - 1]));
        lemma_digits_nonneg(s.drop_last());
    }
}

/// Parses a decimal `i64` as `str::parse` does.
pub fn parse_i64(s: &Vec<char>) -> (r: Option<i64>)
    ensures
        r == parse_i64_spec(s@),
{
    let mut start: usize = 0;
    let mut neg = false;
    if s.len() > 0 && (s[0] == '-' || s[0] == '+') {
        neg = s[0] == '-';
        start = 1;
    }
    let ghost body = s@.subrange(start as int, s@.len() as int);
    proof {
        let signed = s@.len() > 0 && (s@[0] == '-' || s@[0] == '+');
        assert(signed == (start == 1));
        assert(neg == (s@.len() > 0 && s@[0] == '-'));
        if start == 0 {
            assert(body =~= s@);
        }
    }
    if start >= s.len() {
        assert(body.len() == 0);
        return None;
    }
    let mut acc: i128 = 0;
    let mut i: usize = start;
    while i < s.len()
        invariant
            start <= i <= s@.len(),
            start <= 1,
            (start == 1) == (s@.len() > 0 && (s@[0] == '-' || s@[0] == '+')),
            start == 0 ==> body == s@,
            body == s@.subrange(start as int, s@.len() as int),
            all_digits(s@.subrange(start as int, i as int)),
            acc == if digits_value(s@.subrange(start as int, i as int)) < magnitude_cap() {
                digits_value(s@.subrange(start as int, i as int))
            } else {
                magnitude_cap()
            },
            0 <= acc <= magnitude_cap(),
        decreases s@.len() - i,
    {
        let c = s[i];
        let ghost pre = s@.subrange(start as int, i as int);
        let ghost nxt = s@.subrange(start as int, i + 1);
        assert(nxt.drop_last() =~= pre);
        if !('0' <= c && c <= '9') {
            assert(!all_digits(body)) by {
                assert(body[i - start] == c);
            }
            return None;
        }
        let d: i128 = (c as u32 - '0' as u32) as i128;
        proof {
            lemma_digits_nonneg(pre);
            assert forall|k: int| 0 <= k < nxt.len() implies is_digit(#[trigger] nxt[k]) by {
                if k < pre.len() {
                    assert(nxt[k] == pre[k]);
                }
            }
        }
        if acc >= 0x8000_0000_0000_0001i128 {
            acc = 0x8000_0000_0000_0001i128;
        } else {
            let next = acc * 10 + d;
            if next >= 0x8000_0000_0000_0001i128 {
                acc = 0x8000_0000_0000_0001i128;
            } else {
                acc = next;
            }
        }
        i = i + 1;
    }
    assert(s@.subrange(start as int, i as int) =~= body);
    proof {
        lemma_digits_nonneg(body);
    }
    if acc >= 0x8000_0000_0000_0001i128 {
        assert(digits_value(body) >= magnitude_cap());
        return None;
    }
    assert(acc == digits_value(body));
    if neg {
        if acc > 0x8000_0000_0000_0000i128 {
            return None;
        }
        let v: i128 = -acc;
        Some(v as i64)
    } else {
        if acc > 0x7fff_ffff_ffff_ffffi128 {
            return None;
        }
        Some(acc as i64)
    }
}

/// Milliseconds in one `unit`: `s`, `m`, `h`, `d` or `w`.
pub open spec fn unit_ms(u: char) -> Option<i64> {
    if u == 's' {
        Some(1000)
    } else if u == 'm' {
        Some(60_000)
    } else if u == 'h' {
        Some(3_600_000)
    } else if u == 'd' {
        Some(86_400_000)
    } else if u == 'w' {
        Some(604_800_000)
    } else {
        None
    }
}

/// Whether the count of an offset starts with `-`.
pub open spec fn negative_count(count: Seq<char>) -> bool {
    count.len() > 0 && count[0] == '-'
}

/// The offset `<n><unit>` names, in milliseconds, when the product fits.
/// `<n>` is decimal digits, with an optional `+`: an offset always counts
/// back from now, so a `-` is refused.
pub open spec fn parse_relative_spec(s: Seq<char>) -> Option<i64> {
    if s.len() < 2 || negative_count(s.drop_last()) {
        None
    } else {
        match (unit_ms(s.last()), parse_i64_spec(s.drop_last())) {
            (Some(m), Some(n)) => if i64::MIN <= n * m && n * m <= i64::MAX {
                Some((n * m) as i64)
            } else {
                None
            },
            _ => None,
        }
    }
}

/// Milliseconds in one unit of an offset: seconds, minutes, hours, days,
/// weeks.
pub open spec fn unit_length_ms(u: char) -> int {
    if u == 's' {
        1000int
    } else if u == 'm' {
        60int * 1000
    } else if u == 'h' {
        60int * 60 * 1000
    } else if u == 'd' {
        24int * 60 * 60 * 1000
    } else {
        7int * 24 * 60 * 60 * 1000
    }
}

/// An offset written as decimal digits and a unit reads as that many
/// units in milliseconds, whenever the product fits an `i64`, and is
/// refused only when it does not.
pub proof fn lemma_relative_offset_value(digits: Seq<char>, u: char)
    requires
        digits.len() > 0,
        all_digits(digits),
        u == 's' || u == 'm' || u == 'h' || u == 'd' || u == 'w',
    ensures
        parse_relative_spec(digits.push(u)) == if digits_value(digits) * unit_length_ms(u) <= i64::MAX {
            Some((digits_value(digits) * unit_length_ms(u)) as i64)
        } else {
            None::<i64>
        },
{
    let s = digits.push(u);
    assert(s.drop_last() =~= digits);
    assert(s.last() == u);
    lemma_digits_nonneg(digits);
    assert(is_digit(digits[0]));
    let n = digits_value(digits);
    let m = unit_length_ms(u);
    assert(unit_ms(u) == Some(m as i64));
    if n <= i64::MAX {
        assert(parse_i64_spec(digits) == Some(n as i64));
    } else {
        assert(parse_i64_spec(digits) is None);
        assert(n * m > i64::MAX) by (nonlinear_arith)
            requires
                n > i64::MAX,
                m >= 1000,
        ;
    }
    assert(n * m >= 0) by (nonlinear_arith)
        requires
            n >= 0,
            m >= 1000,
    ;
}

/// `restore-at` with an offset of digits and a unit goes back that many
/// units from `now_ms`, whenever the offset fits an `i64`.
pub proof fn lemma_timestamp_offset(digits: Seq<char>, u: char, now_ms: i64)
    requires
        digits.len() > 0,
        all_digits(digits),
        u == 's' || u == 'm' || u == 'h' || u == 'd' || u == 'w',
        digits_value(digits) * unit_length_ms(u) <= i64::MAX,
    ensures
        parse_timestamp_spec(digits.push(u), now_ms) == Some(now_ms - digits_value(digits) * unit_length_ms(u)),
{
    let s = digits.push(u);
    lemma_relative_offset_value(digits, u);
    assert(is_digit(digits[0]));
    assert(s[0] == digits[0]);
    lemma_trim_noop(s);
    assert(!is_digit(s[s.len() - 1]));
    assert(!all_digits(s));
    assert(parse_i64_spec(s) is None) by {
        if s.len() > 0 && (s[0] == '-' || s[0] == '+') {
        } else {
            assert(!all_digits(s));
        }
    }
    lemma_digits_nonneg(digits);
    let n = digits_value(digits);
    let m = unit_length_ms(u);
    assert(n * m >= 0) by (nonlinear_arith)
        requires
            n >= 0,
            m >= 1000,
    ;
    assert(trim(s) == s);
    assert(parse_relative_spec(s) == Some((n * m) as i64));
    assert(((n * m) as i64) as int == n * m);
}

/// Parses a relative time such as `5m` into milliseconds.
pub fn parse_relative_ms(s: &Vec<char>) -> (r: Option<i64>)
    ensures
        r == parse_relative_spec(s@),
{
    if s.len() < 2 {
        return None;
    }
    let u = s[s.len() - 1];
    let m: i64 = if u == 's' {
        1000
    } else if u == 'm' {
        60_000
    } else if u == 'h' {
        3_600_000
    } else if u == 'd' {
        86_400_000
    } else if u == 'w' {
        604_800_000
    } else {
        return None;
    };
    let mut num: Vec<char> = Vec::new();
    let mut k: usize = 0;
    while k < s.len() - 1
        invariant
            k <= s@.len() - 1,
            s@.len() >= 2,
            num@ == s@.subrange(0, k as int),
        decreases s@.len() - 1 - k,
    {
        num.push(s[k]);
        k = k + 1;
        assert(num@ =~= s@.subrange(0, k as int));
    }
    assert(num@ =~= s@.drop_last());
    if num.len() > 0 && num[0] == '-' {
        return None;
    }
    let n = match parse_i64(&num) {
        Some(n) => n,
        None => return None,
    };
    assert(unit_ms(u) == Some(m));
    let p: i128 = (n as i128) * (m as i128);
    assert(p == n * m);
    if p < -0x8000_0000_0000_0000i128 || p > 0x7fff_ffff_ffff_ffffi128 {
        return None;
    }
    Some(p as i64)
}

/// The instant `restore-at` goes back to: epoch milliseconds as given, or
/// `now_ms` less a relative offset; `None` when `s` (trimmed) is neither.
pub open spec fn parse_timestamp_spec(s: Seq<char>, now_ms: i64) -> Option<int> {
    let t = trim(s);
    if t.len() == 0 {
        None
    } else {
        match parse_i64_spec(t) {
            Some(n) => Some(n as int),
            None => match parse_relative_spec(t) {
                Some(off) => Some(now_ms - off),
                None => None,
            },
        }
    }
}

/// A relative offset never lies after now: when the text is not a plain
/// number, the instant it names is at or before `now_ms`.
pub proof fn lemma_relative_is_past(s: Seq<char>, now_ms: i64)
    requires
        parse_i64_spec(trim(s)) is None,
    ensures
        parse_timestamp_spec(s, now_ms) matches Some(v) ==> v <= now_ms,
{
    let t = trim(s);
    if t.len() >= 2 && !negative_count(t.drop_last()) {
        let b = t.drop_last();
        let body = if b.len() > 0 && (b[0] == '-' || b[0] == '+') {
            b.subrange(1, b.len() as int)
        } else {
            b
        };
        if all_digits(body) {
            lemma_digits_nonneg(body);
        }
        match (unit_ms(t.last()), parse_i64_spec(b)) {
            (Some(m), Some(n)) => {
                assert(n >= 0);
                assert(m > 0);
                assert(n * m >= 0) by (nonlinear_arith)
                    requires
                        n >= 0,
                        m > 0,
                ;
            },
            _ => {},
        }
    }
}

/// How `{:?}` writes one character inside a quoted string, for the
/// characters it escapes with a backslash; any other character as itself.
pub open spec fn escaped_char(c: char) -> Seq<char> {
    if c == '"' {
        seq!['\\', '"']
    } else if c == '\\' {
        seq!['\\', '\\']
    } else if c == '\n' {
        seq!['\\', 'n']
    } else if c == '\r' {
        seq!['\\', 'r']
    } else if c == '\t' {
        seq!['\\', 't']
    } else if c == '\0' {
        seq!['\\', '0']
    } else {
        seq![c]
    }
}

/// `s` with each character escaped.
pub open spec fn escaped(s: Seq<char>) -> Seq<char>
    decreases s.len(),
{
    if s.len() == 0 {
        Seq::empty()
    } else {
        escaped(s.drop_last()) + escaped_char(s.last())
    }
}

/// The refusal of a timestamp that is neither: the text, quoted.
pub open spec fn bad_timestamp_message(t: Seq<char>) -> Seq<char> {
    "unrecognised timestamp \""@ + escaped(t)
        + "\": expected epoch ms (e.g. 1700000000000) or a relative offset like 5m / 2h / 1d / 1w"@
}

fn push_escaped(m: &mut Vec<char>, c: char)
    ensures
        final(m)@ == old(m)@ + escaped_char(c),
{
    if c == '"' {
        m.push('\\');
        m.push('"');
    } else if c == '\\' {
        m.push('\\');
        m.push('\\');
    } else if c == '\n' {
        m.push('\\');
        m.push('n');
    } else if c == '\r' {
        m.push('\\');
        m.push('r');
    } else if c == '\t' {
        m.push('\\');
        m.push('t');
    } else if c == '\0' {
        m.push('\\');
        m.push('0');
    } else {
        m.push(c);
    }
    assert(m@ =~= old(m)@ + escaped_char(c));
}

fn bad_timestamp(t: &Vec<char>) -> (r: String)
    ensures
        r@ == bad_timestamp_message(t@),
{
    let mut m: Vec<char> = Vec::new();
    extend_lit(&mut m, "unrecognised timestamp \"");
    let ghost m0 = m@;
    let mut i: usize = 0;
    while i < t.len()
        invariant
            i <= t@.len(),
            m@ == m0 + escaped(t@.subrange(0, i as int)),
        decreases t@.len() - i,
    {
        push_escaped(&mut m, t[i]);
        i = i + 1;
        assert(t@.subrange(0, i as int).drop_last() =~= t@.subrange(0, i - 1));
    }
    assert(t@.subrange(0, t@.len() as int) =~= t@);
    extend_lit(&mut m, "\": expected epoch ms (e.g. 1700000000000) or a relative offset like 5m / 2h / 1d / 1w");
    string_of(m.as_slice())
}

/// Reads the target of `restore-at`: epoch milliseconds, or a relative
/// offset back from `now_ms`.
pub fn parse_timestamp(s: &str, now_ms: i64) -> (r: Result<i64, Error>)
    requires
        parse_timestamp_spec(s@, now_ms) matches Some(v) ==> i64::MIN <= v <= i64::MAX,
    ensures
        r matches Ok(v) ==> parse_timestamp_spec(s@, now_ms) == Some(v as int),
        r is Err ==> parse_timestamp_spec(s@, now_ms) is None,
        r is Err ==> r matches Err(Error::Other(_)),
        trim(s@).len() == 0 ==> (r matches Err(Error::Other(m)) && m@ == "empty timestamp"@),
        trim(s@).len() > 0 && r is Err ==> (r matches Err(Error::Other(m)) && m@ == bad_timestamp_message(
            trim(s@),
        )),
{
    let raw = chars_of(s);
    let t = trim_vec(&raw);
    if t.len() == 0 {
        return Err(Error::Other(String::from_str("empty timestamp")));
    }
    if let Some(n) = parse_i64(&t) {
        return Ok(n);
    }
    if let Some(off) = parse_relative_ms(&t) {
        return Ok(now_ms - off);
    }
    Err(Error::Other(bad_timestamp(&t)))
}

/// `parse_timestamp` for any `now_ms`: a relative offset that would take
/// the instant outside what an `i64` holds is refused rather than read.
pub fn parse_timestamp_checked(s: &str, now_ms: i64) -> (r: Result<i64, Error>)
    ensures
        match parse_timestamp_spec(s@, now_ms) {
            Some(v) => if i64::MIN <= v <= i64::MAX {
                r matches Ok(x) && x == v
            } else {
                r matches Err(Error::Other(_))
            },
            None => r matches Err(Error::Other(_)),
        },
{
    let raw = chars_of(s);
    let t = trim_vec(&raw);
    if t.len() > 0 && parse_i64(&t).is_none() {
        if let Some(off) = parse_relative_ms(&t) {
            let v: i128 = (now_ms as i128) - (off as i128);
            if v < -0x8000_0000_0000_0000i128 || v > 0x7fff_ffff_ffff_ffffi128 {
                return Err(Error::Other(String::from_str("timestamp out of range")));
            }
        }
    }
    parse_timestamp(s, now_ms)
}

} // verus!
