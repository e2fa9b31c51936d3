//! Vault paths: relative, `/`-separated, NFC-normalized.

use crate::error::Error;
use crate::text::{chars_eq, chars_of, starts_with, string_of};
use unicode_normalization::UnicodeNormalization;
use vstd::prelude::*;
use vstd::string::StrSliceExecFns;

verus! {

/// The NFC normalization of `s`.
pub uninterp spec fn unicode_nfc(s: Seq<char>) -> Seq<char>;

/// Whether every character of `s` is 7-bit ASCII.
pub open spec fn is_ascii_text(s: Seq<char>) -> bool {
    forall|i: int| 0 <= i < s.len() ==> (#[trigger] s[i] as u32) < 0x80
}

/// `s.nfc().collect::<String>()` from `unicode-normalization`: the text in
/// Normalization Form C. The form itself is named, not stated; the contract
/// claims the two facts the crate's documentation gives: what comes out is
/// in NFC, so normalizing it again changes nothing, and 7-bit ASCII text
/// comes out unchanged.
#[verifier::external_body]
fn nfc(s: &str) -> (r: String)
    ensures
        r@ == unicode_nfc(s@),
        unicode_nfc(r@) == r@,
        is_ascii_text(s@) ==> r@ == s@,
{
    s.nfc().collect()
}

/// `s` with every `\` turned into `/`.
pub open spec fn unify_separators(s: Seq<char>) -> Seq<char> {
    s.map_values(|c: char| if c == '\\' { '/' } else { c })
}

/// The pieces of `s` between `/` separators, as `str::split('/')` yields
/// them (always at least one, possibly empty).
pub open spec fn split_slash(s: Seq<char>) -> Seq<Seq<char>>
    decreases s.len(),
{
    if s.len() == 0 {
        seq![Seq::empty()]
    } else if s.last() == '/' {
        split_slash(s.drop_last()).push(Seq::empty())
    } else {
        let p = split_slash(s.drop_last());
        p.update(p.len() - 1, p.last().push(s.last()))
    }
}

/// A piece that names something: not empty and not `.`.
pub open spec fn names_entry(seg: Seq<char>) -> bool {
    seg.len() > 0 && seg != seq!['.']
}

/// A piece that `normalize` refuses: `..`, or one holding a NUL.
pub open spec fn is_bad_segment(seg: Seq<char>) -> bool {
    seg == seq!['.', '.'] || seg.contains('\0')
}

/// The pieces that name something, in order.
pub open spec fn kept_segments(segs: Seq<Seq<char>>) -> Seq<Seq<char>>
    decreases segs.len(),
{
    if segs.len() == 0 {
        Seq::empty()
    } else if names_entry(segs.last()) {
        kept_segments(segs.drop_last()).push(segs.last())
    } else {
        kept_segments(segs.drop_last())
    }
}

/// The pieces joined with `/`.
pub open spec fn join_slash(parts: Seq<Seq<char>>) -> Seq<char>
    decreases parts.len(),
{
    if parts.len() == 0 {
        Seq::empty()
    } else if parts.len() == 1 {
        parts[0]
    } else {
        join_slash(parts.drop_last()) + seq!['/'] + parts.last()
    }
}

/// The NFC, `/`-separated form of `input`.
pub open spec fn normalized_text(input: Seq<char>) -> Seq<char> {
    unicode_nfc(unify_separators(input))
}

/// Whether `normalize` accepts `input`: it is not empty, its normal form is
/// relative, no piece is `..` or holds a NUL, and some piece names an entry.
pub open spec fn normalize_ok(input: Seq<char>) -> bool {
    let n = normalized_text(input);
    let kept = kept_segments(split_slash(n));
    &&& input.len() > 0
    &&& !(n.len() > 0 && n[0] == '/')
    &&& forall|i: int| 0 <= i < kept.len() ==> !is_bad_segment(#[trigger] kept[i])
    &&& kept.len() > 0
}

/// What `normalize` returns for an accepted input.
pub open spec fn normalize_spec(input: Seq<char>) -> Seq<char> {
    join_slash(kept_segments(split_slash(normalized_text(input))))
}

/// The contents of each piece.
pub open spec fn seg_views(parts: Seq<Vec<char>>) -> Seq<Seq<char>> {
    parts.map_values(|v: Vec<char>| v@)
}

proof fn lemma_split_len(s: Seq<char>)
    ensures
        split_slash(s).len() >= 1,
    decreases s.len(),
{
    if s.len() > 0 {
        lemma_split_len(s.drop_last());
    }
}

/// Splitting at a separator splits the pieces there.
proof fn lemma_split_concat(a: Seq<char>, b: Seq<char>)
    ensures
        split_slash(a + seq!['/'] + b) == split_slash(a) + split_slash(b),
    decreases b.len(),
{
    let ab = a + seq!['/'] + b;
    if b.len() == 0 {
        assert(ab.drop_last() =~= a);
        assert(split_slash(b) =~= seq![Seq::<char>::empty()]);
        assert(split_slash(ab) =~= split_slash(a) + split_slash(b));
    } else {
        lemma_split_concat(a, b.drop_last());
        lemma_split_len(b.drop_last());
        assert(ab.drop_last() =~= a + seq!['/'] + b.drop_last());
        assert(ab.last() == b.last());
        assert(split_slash(ab) =~= split_slash(a) + split_slash(b));
    }
}

proof fn lemma_kept_concat(x: Seq<Seq<char>>, y: Seq<Seq<char>>)
    ensures
        kept_segments(x + y) == kept_segments(x) + kept_segments(y),
    decreases y.len(),
{
    if y.len() == 0 {
        assert(x + y =~= x);
        assert(kept_segments(x) + kept_segments(y) =~= kept_segments(x));
    } else {
        lemma_kept_concat(x, y.drop_last());
        assert((x + y).drop_last() =~= x + y.drop_last());
        assert((x + y).last() == y.last());
        assert(kept_segments(x + y) =~= kept_segments(x) + kept_segments(y));
    }
}

/// A refused piece ending at a separator (or at the end) makes the whole
/// text refused.
proof fn lemma_bad_segment_refused(n: Seq<char>, i: int)
    requires
        0 <= i <= n.len(),
        i == n.len() || n[i] == '/',
        names_entry(split_slash(n.subrange(0, i)).last()),
        is_bad_segment(split_slash(n.subrange(0, i)).last()),
    ensures
        exists|j: int|
            0 <= j < kept_segments(split_slash(n)).len() && is_bad_segment(
                #[trigger] kept_segments(split_slash(n))[j],
            ),
{
    let pre = n.subrange(0, i);
    let segs = split_slash(pre);
    lemma_split_len(pre);
    assert(segs.drop_last().push(segs.last()) =~= segs);
    let k = kept_segments(segs.drop_last()).len() as int;
    assert(kept_segments(segs)[k] == segs.last());
    if i == n.len() {
        assert(pre =~= n);
    } else {
        let rest = n.subrange(i + 1, n.len() as int);
        assert(n =~= pre + seq!['/'] + rest);
        lemma_split_concat(pre, rest);
        lemma_kept_concat(segs, split_slash(rest));
        assert(kept_segments(split_slash(n))[k] == segs.last());
    }
}

/// Ends the piece `cur`: refuses it if it is `..` or holds a NUL, keeps it
/// if it names an entry, and drops it otherwise.
fn close_segment(parts: &mut Vec<Vec<char>>, cur: Vec<char>) -> (r: Result<(), Error>)
    ensures
        r is Err <==> names_entry(cur@) && is_bad_segment(cur@),
        r is Err ==> r matches Err(Error::InvalidPath(_)),
        r is Ok ==> seg_views(final(parts)@) == if names_entry(cur@) {
            seg_views(old(parts)@).push(cur@)
        } else {
            seg_views(old(parts)@)
        },
        r is Ok ==> final(parts)@.len() == old(parts)@.len() + (if names_entry(cur@) { 1int } else { 0int }),
        r is Ok ==> forall|j: int|
            0 <= j < old(parts)@.len() ==> #[trigger] final(parts)@[j] == old(parts)@[j],
        r is Ok && names_entry(cur@) ==> final(parts)@.last()@ == cur@,
        r is Ok && names_entry(cur@) ==> !is_bad_segment(cur@),
{
    let keep = cur.len() > 0 && !(cur.len() == 1 && cur[0] == '.');
    proof {
        assert(keep == names_entry(cur@)) by {
            if cur@.len() == 1 && cur@[0] == '.' {
                assert(cur@ =~= seq!['.']);
            }
            if cur@ == seq!['.'] {
                assert(cur@.len() == 1);
            }
        }
    }
    if !keep {
        return Ok(());
    }
    let dotdot = cur.len() == 2 && cur[0] == '.' && cur[1] == '.';
    proof {
        assert(dotdot == (cur@ == seq!['.', '.'])) by {
            if cur@ == seq!['.', '.'] {
                assert(cur@.len() == 2);
            }
            if dotdot {
                assert(cur@ =~= seq!['.', '.']);
            }
        }
    }
    if dotdot {
        return Err(Error::InvalidPath(String::from_str("path traversal not allowed")));
    }
    let mut j: usize = 0;
    while j < cur.len()
        invariant
            j <= cur@.len(),
            !cur@.subrange(0, j as int).contains('\0'),
        decreases cur@.len() - j,
    {
        if cur[j] == '\0' {
            proof {
                assert(cur@[j as int] == '\0');
            }
            return Err(Error::InvalidPath(String::from_str("nul byte in path")));
        }
        proof {
            let t = cur@.subrange(0, j + 1);
            if t.contains('\0') {
                let w = choose|w: int| 0 <= w < t.len() && t[w] == '\0';
                assert(cur@.subrange(0, j as int)[w] == '\0');
            }
        }
        j = j + 1;
    }
    assert(cur@.subrange(0, cur@.len() as int) =~= cur@);
    let ghost c = cur@;
    let ghost before = seg_views(parts@);
    parts.push(cur);
    proof {
        assert(seg_views(parts@) =~= before.push(c));
    }
    Ok(())
}

/// Normalizes a path to relative POSIX form in NFC: `\` becomes `/`, empty
/// and `.` pieces are dropped; absolute paths, `..` pieces, NUL bytes and
/// paths that name nothing are refused.
pub fn normalize(input: &str) -> (r: Result<String, Error>)
    ensures
        normalize_ok(input@) ==> (r matches Ok(s) && s@ == normalize_spec(input@)),
        !normalize_ok(input@) ==> (r matches Err(Error::InvalidPath(_))),
        input@.len() > 0 && is_ascii_text(input@) ==> normalized_text(input@) == unify_separators(
            input@,
        ),
{
    let raw = chars_of(input);
    if raw.len() == 0 {
        return Err(Error::InvalidPath(String::from_str("path is empty")));
    }
    let mut unified: Vec<char> = Vec::new();
    let mut k: usize = 0;
    while k < raw.len()
        invariant
            k <= raw@.len(),
            unified@ == unify_separators(raw@.subrange(0, k as int)),
        decreases raw@.len() - k,
    {
        let c = raw[k];
        unified.push(if c == '\\' {
            '/'
        } else {
            c
        });
        k = k + 1;
        assert(unify_separators(raw@.subrange(0, k as int)) =~= unify_separators(
            raw@.subrange(0, k - 1),
        ).push(if c == '\\' {
            '/'
        } else {
            c
        }));
    }
    assert(raw@.subrange(0, raw@.len() as int) =~= raw@);
    proof {
        if is_ascii_text(raw@) {
            assert forall|i: int| 0 <= i < unified@.len() implies (#[trigger] unified@[i] as u32)
                < 0x80 by {
                assert((raw@[i] as u32) < 0x80);
                assert(unified@[i] == raw@[i] || unified@[i] == '/');
            }
        }
    }
    let n = chars_of(nfc(string_of(unified.as_slice()).as_str()).as_str());
    if n.len() > 0 && n[0] == '/' {
        return Err(Error::InvalidPath(String::from_str("path must be relative")));
    }
    let mut parts: Vec<Vec<char>> = Vec::new();
    let mut cur: Vec<char> = Vec::new();
    let mut i: usize = 0;
    assert(n@.subrange(0, 0) =~= Seq::<char>::empty());
    while i < n.len()
        invariant
            i <= n@.len(),
            n@ == normalized_text(input@),
            input@.len() > 0 && is_ascii_text(input@) ==> n@ == unify_separators(input@),
            ({
                let segs = split_slash(n@.subrange(0, i as int));
                &&& segs.len() >= 1
                &&& seg_views(parts@) == kept_segments(segs.drop_last())
                &&& cur@ == segs.last()
            }),
            forall|j: int| 0 <= j < parts@.len() ==> !is_bad_segment(#[trigger] parts@[j]@),
        decreases n@.len() - i,
    {
        let ghost segs = split_slash(n@.subrange(0, i as int));
        let ghost s2 = n@.subrange(0, i + 1);
        proof {
            assert(s2.drop_last() =~= n@.subrange(0, i as int));
            lemma_split_len(s2);
        }
        if n[i] == '/' {
            let ghost before = seg_views(parts@);
            let closed = close_segment(&mut parts, cur);
            if let Err(e) = closed {
                proof {
                    lemma_bad_segment_refused(n@, i as int);
                }
                return Err(e);
            }
            proof {
                assert(segs.drop_last().push(segs.last()) =~= segs);
                assert(split_slash(s2).drop_last() =~= segs);
            }
            cur = Vec::new();
        } else {
            cur.push(n[i]);
            proof {
                assert(split_slash(s2).drop_last() =~= segs.drop_last());
            }
        }
        i = i + 1;
    }
    proof {
        assert(n@.subrange(0, n@.len() as int) =~= n@);
    }
    let ghost segs = split_slash(n@);
    let closed = close_segment(&mut parts, cur);
    if let Err(e) = closed {
        proof {
            lemma_bad_segment_refused(n@, n@.len() as int);
        }
        return Err(e);
    }
    proof {
        assert(segs.drop_last().push(segs.last()) =~= segs);
    }
    if parts.len() == 0 {
        return Err(Error::InvalidPath(String::from_str("path resolves to empty")));
    }
    let ghost kept = seg_views(parts@);
    let mut out: Vec<char> = Vec::new();
    let mut p: usize = 0;
    while p < parts.len()
        invariant
            p <= parts@.len(),
            kept == seg_views(parts@),
            out@ == join_slash(kept.take(p as int)),
        decreases parts@.len() - p,
    {
        if p > 0 {
            out.push('/');
        }
        let mut q: usize = 0;
        let ghost base = out@;
        while q < parts[p].len()
            invariant
                p < parts@.len(),
                q <= parts@[p as int]@.len(),
                out@ == base + parts@[p as int]@.subrange(0, q as int),
            decreases parts@[p as int]@.len() - q,
        {
            out.push(parts[p][q]);
            q = q + 1;
            assert(parts@[p as int]@.subrange(0, q as int) =~= parts@[p as int]@.subrange(
                0,
                q - 1,
            ).push(parts@[p as int]@[q - 1]));
        }
        proof {
            assert(parts@[p as int]@.subrange(0, parts@[p as int]@.len() as int) =~= parts@[p as int]@);
            let t = kept.take(p + 1);
            assert(t.drop_last() =~= kept.take(p as int));
            assert(t.last() == parts@[p as int]@);
            if p == 0 {
                assert(t.len() == 1);
                assert(out@ =~= t[0]);
            }
        }
        p = p + 1;
    }
    assert(kept.take(parts@.len() as int) =~= kept);
    Ok(string_of(out.as_slice()))
}

/// The index of the last `/` in `s`, or -1 when there is none.
pub open spec fn last_slash(s: Seq<char>) -> int
    decreases s.len(),
{
    if s.len() == 0 {
        -1
    } else if s.last() == '/' {
        s.len() - 1
    } else {
        last_slash(s.drop_last())
    }
}

/// Everything before the last `/`, or nothing when there is no `/`.
pub open spec fn parent_spec(s: Seq<char>) -> Seq<char> {
    if last_slash(s) >= 0 {
        s.subrange(0, last_slash(s))
    } else {
        Seq::empty()
    }
}

proof fn lemma_last_slash(s: Seq<char>)
    ensures
        -1 <= last_slash(s) < s.len(),
        last_slash(s) >= 0 ==> s[last_slash(s)] == '/',
        forall|k: int| last_slash(s) < k < s.len() ==> s[k] != '/',
    decreases s.len(),
{
    if s.len() > 0 {
        lemma_last_slash(s.drop_last());
        assert forall|k: int| last_slash(s) < k < s.len() implies s[k] != '/' by {
            if k < s.len() - 1 {
                assert(s.drop_last()[k] == s[k]);
            }
        }
    }
}

/// The parent directory of `path`: everything before its last `/`, or the
/// empty string for a root-level path.
pub fn parent(path: &str) -> (r: &str)
    ensures
        r@ == parent_spec(path@),
{
    let cs = chars_of(path);
    let mut k: usize = cs.len();
    assert(cs@.subrange(0, k as int) =~= cs@);
    while k > 0
        invariant
            k <= cs@.len(),
            cs@ == path@,
            last_slash(cs@) == last_slash(cs@.subrange(0, k as int)),
        decreases k,
    {
        let ghost t = cs@.subrange(0, k as int);
        assert(t.drop_last() =~= cs@.subrange(0, k - 1));
        if cs[k - 1] == '/' {
            proof {
                lemma_last_slash(cs@);
            }
            return path.substring_char(0, k - 1);
        }
        k = k - 1;
    }
    assert(cs@.subrange(0, 0) =~= Seq::<char>::empty());
    path.substring_char(0, 0)
}

/// The directory names that `ancestors` builds: after `k` pieces, the
/// pieces so far joined by `/` (a `/` is added only once something is
/// there).
pub open spec fn ancestor_acc(parts: Seq<Seq<char>>, k: int) -> Seq<char>
    decreases k,
{
    if k <= 0 {
        Seq::empty()
    } else {
        let prev = ancestor_acc(parts, k - 1);
        (if prev.len() > 0 {
            prev.push('/')
        } else {
            prev
        }) + parts[k - 1]
    }
}

/// Every directory above `path`, from the root toward the leaf, the path
/// itself excluded.
pub open spec fn ancestors_spec(path: Seq<char>) -> Seq<Seq<char>> {
    let parts = split_slash(path);
    if parts.len() <= 1 {
        Seq::empty()
    } else {
        Seq::new((parts.len() - 1) as nat, |k: int| ancestor_acc(parts, k + 1))
    }
}

/// The pieces of `s` between `/` separators.
pub(crate) fn split_pieces(s: &Vec<char>) -> (r: Vec<Vec<char>>)
    ensures
        seg_views(r@) == split_slash(s@),
{
    let mut parts: Vec<Vec<char>> = Vec::new();
    let mut cur: Vec<char> = Vec::new();
    let mut i: usize = 0;
    assert(s@.subrange(0, 0) =~= Seq::<char>::empty());
    while i < s.len()
        invariant
            i <= s@.len(),
            ({
                let segs = split_slash(s@.subrange(0, i as int));
                &&& segs.len() >= 1
                &&& seg_views(parts@) == segs.drop_last()
                &&& cur@ == segs.last()
            }),
        decreases s@.len() - i,
    {
        let ghost segs = split_slash(s@.subrange(0, i as int));
        let ghost s2 = s@.subrange(0, i + 1);
        proof {
            assert(s2.drop_last() =~= s@.subrange(0, i as int));
            lemma_split_len(s2);
        }
        if s[i] == '/' {
            let ghost before = seg_views(parts@);
            let ghost c = cur@;
            parts.push(cur);
            cur = Vec::new();
            proof {
                assert(seg_views(parts@) =~= before.push(c));
                assert(segs.drop_last().push(segs.last()) =~= segs);
                assert(split_slash(s2).drop_last() =~= segs);
            }
        } else {
            cur.push(s[i]);
            proof {
                assert(split_slash(s2).drop_last() =~= segs.drop_last());
            }
        }
        i = i + 1;
    }
    assert(s@.subrange(0, s@.len() as int) =~= s@);
    let ghost segs = split_slash(s@);
    let ghost before = seg_views(parts@);
    let ghost c = cur@;
    parts.push(cur);
    proof {
        assert(seg_views(parts@) =~= before.push(c));
        assert(segs.drop_last().push(segs.last()) =~= segs);
    }
    parts
}

/// The pieces that name something, in order.
pub(crate) fn kept_pieces(pieces: &Vec<Vec<char>>) -> (r: Vec<Vec<char>>)
    ensures
        seg_views(r@) == kept_segments(seg_views(pieces@)),
{
    let mut out: Vec<Vec<char>> = Vec::new();
    let mut i: usize = 0;
    while i < pieces.len()
        invariant
            i <= pieces@.len(),
            seg_views(out@) == kept_segments(seg_views(pieces@).take(i as int)),
        decreases pieces@.len() - i,
    {
        let p = &pieces[i];
        let keep = p.len() > 0 && !(p.len() == 1 && p[0] == '.');
        proof {
            assert(keep == names_entry(p@)) by {
                if p@.len() == 1 && p@[0] == '.' {
                    assert(p@ =~= seq!['.']);
                }
                if p@ == seq!['.'] {
                    assert(p@.len() == 1);
                }
            }
            let t = seg_views(pieces@).take(i + 1);
            assert(t.drop_last() =~= seg_views(pieces@).take(i as int));
            assert(t.last() == p@);
        }
        if keep {
            let ghost before = seg_views(out@);
            out.push(p.clone());
            proof {
                assert(seg_views(out@) =~= before.push(p@));
            }
        }
        i = i + 1;
    }
    assert(seg_views(pieces@).take(pieces@.len() as int) =~= seg_views(pieces@));
    out
}

/// All ancestor directories of `path`, from the root toward the leaf,
/// excluding the path itself.
pub fn ancestors(path: &str) -> (r: Vec<String>)
    ensures
        r@.map_values(|x: String| x@) == ancestors_spec(path@),
{
    let cs = chars_of(path);
    let parts = split_pieces(&cs);
    let mut out: Vec<String> = Vec::new();
    if parts.len() <= 1 {
        assert(out@.map_values(|x: String| x@) =~= ancestors_spec(path@));
        return out;
    }
    let ghost pv = seg_views(parts@);
    let mut acc: Vec<char> = Vec::new();
    let mut k: usize = 0;
    while k < parts.len() - 1
        invariant
            pv == seg_views(parts@),
            pv == split_slash(path@),
            pv.len() >= 2,
            k <= pv.len() - 1,
            acc@ == ancestor_acc(pv, k as int),
            out@.map_values(|x: String| x@) == Seq::new(k as nat, |j: int| ancestor_acc(pv, j + 1)),
        decreases pv.len() - 1 - k,
    {
        if acc.len() > 0 {
            acc.push('/');
        }
        let mut q: usize = 0;
        let ghost base = acc@;
        while q < parts[k].len()
            invariant
                k < parts@.len(),
                q <= parts@[k as int]@.len(),
                acc@ == base + parts@[k as int]@.subrange(0, q as int),
            decreases parts@[k as int]@.len() - q,
        {
            acc.push(parts[k][q]);
            q = q + 1;
            assert(parts@[k as int]@.subrange(0, q as int) =~= parts@[k as int]@.subrange(
                0,
                q - 1,
            ).push(parts@[k as int]@[q - 1]));
        }
        assert(parts@[k as int]@.subrange(0, parts@[k as int]@.len() as int) =~= parts@[k as int]@);
        assert(pv[k as int] == parts@[k as int]@);
        assert(acc@ == ancestor_acc(pv, k + 1));
        let ghost prev = out@.map_values(|x: String| x@);
        let item = string_of(acc.as_slice());
        out.push(item);
        assert(out@.map_values(|x: String| x@) =~= prev.push(acc@));
        k = k + 1;
        assert(prev.push(acc@) =~= Seq::new(k as nat, |j: int| ancestor_acc(pv, j + 1)));
    }
    assert(k == pv.len() - 1);
    assert(ancestors_spec(path@) =~= Seq::new(k as nat, |j: int| ancestor_acc(pv, j + 1)));
    out
}

/// Whether `child` is `prefix` or lies below it; every path lies below the
/// empty prefix.
pub open spec fn under_spec(prefix: Seq<char>, child: Seq<char>) -> bool {
    ||| prefix.len() == 0
    ||| child == prefix
    ||| (prefix.len() < child.len() && child.subrange(0, prefix.len() as int) == prefix
        && child[prefix.len() as int] == '/')
}

/// Returns true if `child` is `prefix` or a descendant of `prefix`.
pub fn under(prefix: &str, child: &str) -> (r: bool)
    ensures
        r == under_spec(prefix@, child@),
{
    let p = chars_of(prefix);
    let c = chars_of(child);
    if p.len() == 0 {
        return true;
    }
    if chars_eq(&c, &p) {
        return true;
    }
    starts_with(&c, &p) && p.len() < c.len() && c[p.len()] == '/'
}

/// Every path lies under itself.
pub proof fn lemma_under_reflexive(p: Seq<char>)
    ensures
        under_spec(p, p),
{
}

/// Lying under is transitive: below something that lies below `a` is
/// below `a`.
pub proof fn lemma_under_transitive(a: Seq<char>, b: Seq<char>, c: Seq<char>)
    requires
        under_spec(a, b),
        under_spec(b, c),
    ensures
        under_spec(a, c),
{
    if a.len() == 0 || b == a || c == b {
    } else if b.len() == 0 {
    } else {
        assert(c.subrange(0, b.len() as int).subrange(0, a.len() as int) =~= c.subrange(
            0,
            a.len() as int,
        ));
        assert(c[a.len() as int] == c.subrange(0, b.len() as int)[a.len() as int]);
    }
}

proof fn lemma_split_contains(s: Seq<char>)
    ensures
        s.contains('/') <==> split_slash(s).len() >= 2,
    decreases s.len(),
{
    lemma_split_len(s);
    if s.len() > 0 {
        let t = s.drop_last();
        lemma_split_contains(t);
        lemma_split_len(t);
        if s.last() == '/' {
            assert(s[s.len() - 1] == '/');
        } else {
            if t.contains('/') {
                let w = choose|w: int| 0 <= w < t.len() && t[w] == '/';
                assert(s[w] == '/');
            }
            if s.contains('/') {
                let w = choose|w: int| 0 <= w < s.len() && s[w] == '/';
                assert(t[w] == '/');
            }
        }
    }
}

proof fn lemma_split_first(s: Seq<char>)
    requires
        s.len() > 0,
        s[0] != '/',
    ensures
        split_slash(s)[0].len() > 0,
    decreases s.len(),
{
    let t = s.drop_last();
    lemma_split_len(t);
    if t.len() > 0 {
        lemma_split_first(t);
    }
}

proof fn lemma_join_split(s: Seq<char>)
    ensures
        join_slash(split_slash(s)) == s,
    decreases s.len(),
{
    if s.len() > 0 {
        let t = s.drop_last();
        lemma_join_split(t);
        lemma_split_len(t);
        let q = split_slash(t);
        if s.last() == '/' {
            assert(split_slash(s).drop_last() =~= q);
            assert(s =~= t + seq!['/'] + Seq::<char>::empty());
        } else {
            let u = split_slash(s);
            if q.len() == 1 {
                assert(u[0] == q[0].push(s.last()));
                assert(s =~= t.push(s.last()));
            } else {
                assert(u.drop_last() =~= q.drop_last());
                assert(join_slash(q) == join_slash(q.drop_last()) + seq!['/'] + q.last());
                assert(s =~= t.push(s.last()));
                assert(join_slash(u) =~= join_slash(q).push(s.last()));
            }
        }
    }
}

proof fn lemma_split_slash_free(s: Seq<char>)
    ensures
        forall|i: int| 0 <= i < split_slash(s).len() ==> !(#[trigger] split_slash(s)[i]).contains('/'),
    decreases s.len(),
{
    lemma_split_len(s);
    if s.len() > 0 {
        let t = s.drop_last();
        lemma_split_slash_free(t);
        lemma_split_len(t);
        let q = split_slash(t);
        if s.last() != '/' {
            let last = q.last().push(s.last());
            assert forall|i: int| 0 <= i < split_slash(s).len() implies !(
            #[trigger] split_slash(s)[i]).contains('/') by {
                if i == q.len() - 1 {
                    assert(split_slash(s)[i] == last);
                    if last.contains('/') {
                        let w = choose|w: int| 0 <= w < last.len() && last[w] == '/';
                        assert(q.last()[w] == '/');
                        assert(q[q.len() - 1].contains('/'));
                    }
                } else {
                    assert(split_slash(s)[i] == q[i]);
                }
            }
        } else {
            assert forall|i: int| 0 <= i < split_slash(s).len() implies !(
            #[trigger] split_slash(s)[i]).contains('/') by {
                if i < q.len() {
                    assert(split_slash(s)[i] == q[i]);
                } else {
                    assert(split_slash(s)[i] =~= Seq::<char>::empty());
                }
            }
        }
    }
}

proof fn lemma_kept_slash_free(segs: Seq<Seq<char>>)
    requires
        forall|i: int| 0 <= i < segs.len() ==> !(#[trigger] segs[i]).contains('/'),
    ensures
        forall|i: int|
            0 <= i < kept_segments(segs).len() ==> !(#[trigger] kept_segments(segs)[i]).contains('/')
                && names_entry(kept_segments(segs)[i]),
    decreases segs.len(),
{
    if segs.len() > 0 {
        let d = segs.drop_last();
        assert forall|i: int| 0 <= i < d.len() implies !(#[trigger] d[i]).contains('/') by {
            assert(d[i] == segs[i]);
        }
        lemma_kept_slash_free(d);
        assert(segs.last() == segs[segs.len() - 1]);
        let kd = kept_segments(d);
        let ks = kept_segments(segs);
        assert forall|i: int| 0 <= i < ks.len() implies !(#[trigger] ks[i]).contains('/')
            && names_entry(ks[i]) by {
            if i < kd.len() {
                assert(ks[i] == kd[i]);
            } else {
                assert(ks[i] == segs.last());
            }
        }
    }
}

proof fn lemma_kept_all(segs: Seq<Seq<char>>)
    requires
        forall|i: int| 0 <= i < segs.len() ==> names_entry(#[trigger] segs[i]),
    ensures
        kept_segments(segs) == segs,
    decreases segs.len(),
{
    if segs.len() > 0 {
        let d = segs.drop_last();
        assert forall|i: int| 0 <= i < d.len() implies names_entry(#[trigger] d[i]) by {
            assert(d[i] == segs[i]);
        }
        lemma_kept_all(d);
        assert(names_entry(segs[segs.len() - 1]));
        assert(d.push(segs.last()) =~= segs);
    }
}

/// Splitting pieces joined with `/` gives them back, when none holds a `/`.
proof fn lemma_split_join(parts: Seq<Seq<char>>)
    requires
        parts.len() >= 1,
        forall|i: int| 0 <= i < parts.len() ==> !(#[trigger] parts[i]).contains('/'),
    ensures
        split_slash(join_slash(parts)) == parts,
    decreases parts.len(),
{
    if parts.len() == 1 {
        let p = parts[0];
        lemma_split_contains(p);
        lemma_split_len(p);
        lemma_join_split(p);
        assert(split_slash(p) =~= parts);
    } else {
        let d = parts.drop_last();
        assert forall|i: int| 0 <= i < d.len() implies !(#[trigger] d[i]).contains('/') by {
            assert(d[i] == parts[i]);
        }
        lemma_split_join(d);
        let l = parts.last();
        assert(!parts[parts.len() - 1].contains('/'));
        lemma_split_contains(l);
        lemma_split_len(l);
        lemma_join_split(l);
        assert(split_slash(l) =~= seq![l]);
        lemma_split_concat(join_slash(d), l);
        assert(d + seq![l] =~= parts);
    }
}

proof fn lemma_join_starts(parts: Seq<Seq<char>>)
    requires
        parts.len() >= 1,
    ensures
        join_slash(parts).len() >= parts[0].len(),
        forall|j: int| 0 <= j < parts[0].len() ==> join_slash(parts)[j] == parts[0][j],
    decreases parts.len(),
{
    if parts.len() > 1 {
        let d = parts.drop_last();
        lemma_join_starts(d);
        assert(d[0] == parts[0]);
    }
}

/// Normalizing a normalized path gives it back, whenever that path is its
/// own NFC form and holds no `\`.
pub proof fn lemma_normalize_twice(input: Seq<char>)
    requires
        normalize_ok(input),
        unicode_nfc(normalize_spec(input)) == normalize_spec(input),
        !normalize_spec(input).contains('\\'),
    ensures
        normalize_ok(normalize_spec(input)),
        normalize_spec(normalize_spec(input)) == normalize_spec(input),
{
    let y = normalize_spec(input);
    let n = normalized_text(input);
    let k = kept_segments(split_slash(n));
    assert(unify_separators(y) =~= y) by {
        assert forall|i: int| 0 <= i < y.len() implies unify_separators(y)[i] == y[i] by {
            if y[i] == '\\' {
                assert(y.contains('\\'));
            }
        }
    }
    lemma_split_slash_free(n);
    lemma_kept_slash_free(split_slash(n));
    lemma_split_join(k);
    lemma_kept_all(k);
    lemma_join_starts(k);
    assert(names_entry(k[0]));
    assert(!k[0].contains('/'));
    assert(y[0] == k[0][0]);
    if y[0] == '/' {
        assert(k[0][0] == '/');
        assert(k[0].contains('/'));
    }
}

proof fn lemma_acc_prefix(x: Seq<Seq<char>>, y: Seq<Seq<char>>, k: int)
    requires
        0 <= k <= x.len(),
        k <= y.len(),
        x.take(k) == y.take(k),
    ensures
        ancestor_acc(x, k) == ancestor_acc(y, k),
    decreases k,
{
    if k > 0 {
        assert(x.take(k - 1) =~= y.take(k - 1)) by {
            assert forall|j: int| 0 <= j < k - 1 implies x[j] == y[j] by {
                assert(x.take(k)[j] == y.take(k)[j]);
            }
        }
        lemma_acc_prefix(x, y, k - 1);
        assert(x[k - 1] == x.take(k)[k - 1]);
        assert(y[k - 1] == y.take(k)[k - 1]);
    }
}

proof fn lemma_acc_join(parts: Seq<Seq<char>>, m: int)
    requires
        1 <= m <= parts.len(),
        parts[0].len() > 0,
    ensures
        ancestor_acc(parts, m) == join_slash(parts.take(m)),
        ancestor_acc(parts, m).len() > 0,
    decreases m,
{
    if m == 1 {
        assert(ancestor_acc(parts, 0) == Seq::<char>::empty());
        assert(ancestor_acc(parts, 1) =~= parts[0]);
    } else {
        lemma_acc_join(parts, m - 1);
        assert(parts.take(m).drop_last() =~= parts.take(m - 1));
    }
}

/// The parent of a path that holds a `/` has the path's pieces but the
/// last one.
proof fn lemma_parent_pieces(p: Seq<char>)
    requires
        p.contains('/'),
    ensures
        split_slash(parent_spec(p)) == split_slash(p).drop_last(),
        split_slash(p).len() >= 2,
{
    lemma_split_contains(p);
    lemma_last_slash(p);
    let ls = last_slash(p);
    if ls < 0 {
        let w = choose|w: int| 0 <= w < p.len() && p[w] == '/';
        assert(p[w] != '/');
    }
    let pre = p.subrange(0, ls);
    let rest = p.subrange(ls + 1, p.len() as int);
    assert(p =~= pre + seq!['/'] + rest);
    lemma_split_concat(pre, rest);
    if rest.contains('/') {
        let w = choose|w: int| 0 <= w < rest.len() && rest[w] == '/';
        assert(p[ls + 1 + w] == '/');
    }
    lemma_split_contains(rest);
    lemma_split_len(rest);
    assert(split_slash(p).drop_last() =~= split_slash(pre));
}

/// The ancestors of a path's parent are the path's ancestors but the last.
pub proof fn lemma_ancestors_of_parent(p: Seq<char>)
    requires
        p.contains('/'),
    ensures
        ancestors_spec(parent_spec(p)) == ancestors_spec(p).drop_last(),
{
    lemma_parent_pieces(p);
    let parts = split_slash(p);
    let pp = parts.drop_last();
    assert forall|j: int| 0 <= j < ancestors_spec(p).len() - 1 implies ancestors_spec(
        parent_spec(p),
    )[j] == ancestors_spec(p).drop_last()[j] by {
        assert(pp.take(j + 1) =~= parts.take(j + 1));
        lemma_acc_prefix(pp, parts, j + 1);
    }
    assert(ancestors_spec(parent_spec(p)) =~= ancestors_spec(p).drop_last());
}

/// For a relative path that holds a `/`, the last ancestor is its parent.
pub proof fn lemma_last_ancestor_is_parent(p: Seq<char>)
    requires
        p.contains('/'),
        p[0] != '/',
    ensures
        ancestors_spec(p).len() > 0,
        ancestors_spec(p).last() == parent_spec(p),
{
    lemma_parent_pieces(p);
    let parts = split_slash(p);
    lemma_split_first(p);
    let n = parts.len() as int;
    lemma_acc_join(parts, n - 1);
    lemma_join_split(parent_spec(p));
    assert(parts.take(n - 1) =~= parts.drop_last());
}

/// No piece is refused.
pub open spec fn none_bad(segs: Seq<Seq<char>>) -> bool {
    forall|j: int| 0 <= j < segs.len() ==> !is_bad_segment(#[trigger] segs[j])
}

/// Some piece names an entry.
pub open spec fn some_named(segs: Seq<Seq<char>>) -> bool {
    exists|j: int| 0 <= j < segs.len() && names_entry(#[trigger] segs[j])
}

proof fn lemma_kept_summary(segs: Seq<Seq<char>>)
    ensures
        none_bad(kept_segments(segs)) <==> none_bad(segs),
        kept_segments(segs).len() > 0 <==> some_named(segs),
    decreases segs.len(),
{
    if segs.len() > 0 {
        let d = segs.drop_last();
        let l = segs.last();
        lemma_kept_summary(d);
        let kd = kept_segments(d);
        let k = kept_segments(segs);
        assert(none_bad(segs) <==> none_bad(d) && !is_bad_segment(l)) by {
            if none_bad(d) && !is_bad_segment(l) {
                assert forall|j: int| 0 <= j < segs.len() implies !is_bad_segment(#[trigger] segs[j]) by {
                    if j < d.len() {
                        assert(segs[j] == d[j]);
                    }
                }
            }
            if none_bad(segs) {
                assert forall|j: int| 0 <= j < d.len() implies !is_bad_segment(#[trigger] d[j]) by {
                    assert(segs[j] == d[j]);
                }
                assert(!is_bad_segment(segs[segs.len() - 1]));
            }
        }
        assert(some_named(segs) <==> some_named(d) || names_entry(l)) by {
            if some_named(d) {
                let j = choose|j: int| 0 <= j < d.len() && names_entry(#[trigger] d[j]);
                assert(segs[j] == d[j]);
            }
            if names_entry(l) {
                assert(names_entry(segs[segs.len() - 1]));
            }
            if some_named(segs) && !names_entry(l) {
                let j = choose|j: int| 0 <= j < segs.len() && names_entry(#[trigger] segs[j]);
                assert(j < d.len());
                assert(d[j] == segs[j]);
            }
        }
        if names_entry(l) {
            assert(k == kd.push(l));
            assert(none_bad(k) <==> none_bad(kd) && !is_bad_segment(l)) by {
                if none_bad(kd) && !is_bad_segment(l) {
                    assert forall|j: int| 0 <= j < k.len() implies !is_bad_segment(#[trigger] k[j]) by {
                        if j < kd.len() {
                            assert(k[j] == kd[j]);
                        }
                    }
                }
                if none_bad(k) {
                    assert forall|j: int| 0 <= j < kd.len() implies !is_bad_segment(#[trigger] kd[j]) by {
                        assert(k[j] == kd[j]);
                    }
                    assert(!is_bad_segment(k[k.len() - 1]));
                }
            }
        } else {
            assert(k == kd);
            assert(!is_bad_segment(l));
        }
    }
}

/// `normalize` refuses exactly: an empty input; a normal form that starts
/// with `/`; one with a piece `..` or a piece holding a NUL; one whose
/// pieces are all empty or `.`.
pub proof fn lemma_normalize_refusals(input: Seq<char>)
    ensures
        normalize_ok(input) <==> ({
            let segs = split_slash(normalized_text(input));
            &&& input.len() > 0
            &&& !(normalized_text(input).len() > 0 && normalized_text(input)[0] == '/')
            &&& none_bad(segs)
            &&& some_named(segs)
        }),
{
    lemma_kept_summary(split_slash(normalized_text(input)));
}

/// The parent of a relative path is its last ancestor, or empty when it
/// has none.
pub proof fn lemma_parent_is_last_ancestor(p: Seq<char>)
    requires
        !(p.len() > 0 && p[0] == '/'),
    ensures
        parent_spec(p) == if ancestors_spec(p).len() > 0 {
            ancestors_spec(p).last()
        } else {
            Seq::<char>::empty()
        },
{
    if p.contains('/') {
        lemma_last_ancestor_is_parent(p);
    } else {
        lemma_split_contains(p);
        lemma_last_slash(p);
        if last_slash(p) >= 0 {
            assert(p[last_slash(p)] == '/');
            assert(p.contains('/'));
        }
    }
}

} // verus!
