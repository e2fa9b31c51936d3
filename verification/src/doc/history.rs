//! History: named labels over the document's heads, the heads in force at
//! a given time, and bringing the vault back to an earlier state.

use crate::codec::{b64_encode, b64_nopad_decode, base64_nopad_decode, base64_nopad_encode};
use crate::doc::files::{first_id, lemma_first_id};
use crate::doc::{DirectoryMeta, DocTree, FileEntry, FileKind, FileMeta};
use crate::error::Error;
use crate::text::{chars_of, lex_greater, lex_le, lemma_lex_total, lemma_lex_trans};
use vstd::prelude::*;

verus! {

/// A change hash of the replicated document.
pub type ChangeHash = [u8; 32];

/// A named recovery point.
#[derive(Clone, Debug)]
pub struct Label {
    pub name: String,
    pub heads: Vec<ChangeHash>,
    pub created_at: i64,
}

/// One change of the document's history: its hash, when it was made, and
/// the changes it depends on.
#[derive(Clone, Debug)]
pub struct Change {
    pub hash: ChangeHash,
    pub timestamp: i64,
    pub deps: Vec<ChangeHash>,
}

/// Whether two hashes are equal, byte by byte.
pub fn hash_eq(a: &ChangeHash, b: &ChangeHash) -> (r: bool)
    ensures
        r == (*a == *b),
{
    let mut k: usize = 0;
    while k < 32
        invariant
            k <= 32,
            forall|j: int| 0 <= j < k ==> a[j] == b[j],
        decreases 32 - k,
    {
        if a[k] != b[k] {
            return false;
        }
        k = k + 1;
    }
    proof {
        broadcast use vstd::array::group_array_axioms;
        assert(*a =~= *b);
    }
    true
}

/// The bytes of the hashes, one after another.
pub open spec fn heads_bytes(h: Seq<ChangeHash>) -> Seq<u8>
    decreases h.len(),
{
    if h.len() == 0 {
        Seq::empty()
    } else {
        heads_bytes(h.drop_last()) + h.last()@
    }
}

/// The hashes as byte sequences.
pub open spec fn heads_views(h: Seq<ChangeHash>) -> Seq<Seq<u8>> {
    h.map_values(|a: ChangeHash| a@)
}

/// The 32-byte pieces of `b`.
pub open spec fn chunks32(b: Seq<u8>) -> Seq<Seq<u8>> {
    Seq::new(b.len() / 32, |i: int| b.subrange(32 * i, 32 * i + 32))
}

proof fn lemma_heads_bytes(h: Seq<ChangeHash>)
    ensures
        heads_bytes(h).len() == 32 * h.len(),
        chunks32(heads_bytes(h)) == heads_views(h),
    decreases h.len(),
{
    if h.len() > 0 {
        let t = h.drop_last();
        lemma_heads_bytes(t);
        let b = heads_bytes(h);
        let bt = heads_bytes(t);
        assert(b.len() == 32 * h.len());
        assert(b.len() / 32 == h.len()) by (nonlinear_arith)
            requires
                b.len() == 32 * h.len(),
        ;
        assert(bt.len() / 32 == t.len()) by (nonlinear_arith)
            requires
                bt.len() == 32 * t.len(),
        ;
        assert forall|i: int| 0 <= i < h.len() implies #[trigger] chunks32(b)[i] == heads_views(h)[i] by {
            assert(0 <= 32 * i) by (nonlinear_arith)
                requires
                    0 <= i,
            ;
            if i < t.len() {
                assert(32 * i + 32 <= bt.len()) by (nonlinear_arith)
                    requires
                        i < t.len(),
                        bt.len() == 32 * t.len(),
                ;
                assert(b.subrange(32 * i, 32 * i + 32) =~= bt.subrange(32 * i, 32 * i + 32));
                assert(chunks32(bt)[i] == heads_views(t)[i]);
            } else {
                assert(32 * i == bt.len()) by (nonlinear_arith)
                    requires
                        i == t.len(),
                        bt.len() == 32 * t.len(),
                ;
                assert(b.subrange(32 * i, 32 * i + 32) =~= h.last()@);
            }
        }
        assert(chunks32(b) =~= heads_views(h));
    } else {
        assert(chunks32(heads_bytes(h)) =~= heads_views(h));
    }
}

/// The hashes' bytes, one after another.
pub fn encode_heads(heads: &[ChangeHash]) -> (r: Vec<u8>)
    ensures
        r@ == heads_bytes(heads@),
{
    let mut out: Vec<u8> = Vec::new();
    let mut i: usize = 0;
    while i < heads.len()
        invariant
            i <= heads@.len(),
            out@ == heads_bytes(heads@.take(i as int)),
        decreases heads@.len() - i,
    {
        let h = heads[i];
        let mut k: usize = 0;
        let ghost base = out@;
        while k < 32
            invariant
                k <= 32,
                out@ == base + h@.subrange(0, k as int),
            decreases 32 - k,
        {
            out.push(h[k]);
            k = k + 1;
            assert(out@ =~= base + h@.subrange(0, k as int));
        }
        proof {
            assert(h@.subrange(0, 32) =~= h@);
            assert(heads@.take(i + 1).drop_last() =~= heads@.take(i as int));
        }
        i = i + 1;
    }
    assert(heads@.take(heads@.len() as int) =~= heads@);
    out
}

/// Splits encoded heads back into hashes; a length that is not a
/// multiple of 32 is refused.
pub fn decode_heads(bytes: &[u8]) -> (r: Result<Vec<ChangeHash>, Error>)
    ensures
        bytes@.len() % 32 != 0 ==> r matches Err(Error::Other(_)),
        bytes@.len() % 32 == 0 ==> (r matches Ok(h) && heads_views(h@) == chunks32(bytes@)),
{
    if bytes.len() % 32 != 0 {
        return Err(Error::Other(String::from_str("encoded heads length not a multiple of 32")));
    }
    let blen = bytes.len();
    let n = blen / 32;
    let mut out: Vec<ChangeHash> = Vec::new();
    let mut i: usize = 0;
    while i < n
        invariant
            i <= n,
            blen == bytes@.len(),
            n == bytes@.len() / 32,
            bytes@.len() % 32 == 0,
            heads_views(out@) == chunks32(bytes@).take(i as int),
        decreases n - i,
    {
        let mut buf = [0u8; 32];
        assert(i * 32 + 32 <= blen) by (nonlinear_arith)
            requires
                i < n,
                n == blen / 32,
                blen % 32 == 0,
        ;
        let base: usize = i * 32;
        let mut k: usize = 0;
        while k < 32
            invariant
                k <= 32,
                base + 32 <= blen,
                blen == bytes@.len(),
                forall|j: int| 0 <= j < k ==> buf@[j] == bytes@[base + j],
            decreases 32 - k,
        {
            buf[k] = bytes[base + k];
            k = k + 1;
        }
        let ghost before = heads_views(out@);
        out.push(buf);
        proof {
            assert(buf@ =~= bytes@.subrange(32 * i, 32 * i + 32));
            assert(heads_views(out@) =~= before.push(buf@));
            assert(chunks32(bytes@).take(i + 1) =~= chunks32(bytes@).take(i as int).push(
                chunks32(bytes@)[i as int],
            ));
        }
        i = i + 1;
    }
    assert(chunks32(bytes@).take(n as int) =~= chunks32(bytes@));
    Ok(out)
}

/// Decoding what `encode_heads` wrote gives the same hashes back.
pub proof fn lemma_heads_round_trip(h: Seq<ChangeHash>)
    ensures
        heads_bytes(h).len() % 32 == 0,
        chunks32(heads_bytes(h)) == heads_views(h),
{
    lemma_heads_bytes(h);
    assert(heads_bytes(h).len() % 32 == 0) by (nonlinear_arith)
        requires
            heads_bytes(h).len() == 32 * h.len(),
    ;
}

/// The encoded heads as unpadded base64, as the snapshot index stores them.
pub fn b64_heads(heads: &[ChangeHash]) -> (r: String)
    ensures
        r@ == b64_encode(heads_bytes(heads@), false),
        b64_nopad_decode(r@) == Some(heads_bytes(heads@)),
{
    let bytes = encode_heads(heads);
    base64_nopad_encode(bytes.as_slice())
}

/// Reads heads stored as unpadded base64.
pub fn decode_b64_heads(s: &str) -> (r: Result<Vec<ChangeHash>, Error>)
    ensures
        match b64_nopad_decode(s@) {
            None => r matches Err(Error::Other(_)),
            Some(b) => if b.len() % 32 != 0 {
                r matches Err(Error::Other(_))
            } else {
                r matches Ok(h) && heads_views(h@) == chunks32(b)
            },
        },
{
    let bytes = match base64_nopad_decode(s) {
        Some(b) => b,
        None => return Err(Error::Other(String::from_str("heads are not valid base64"))),
    };
    decode_heads(bytes.as_slice())
}

/// Heads written by `b64_heads` read back as the same hashes.
pub proof fn lemma_b64_heads_round_trip(h: Seq<ChangeHash>, text: Seq<char>)
    requires
        b64_nopad_decode(text) == Some(heads_bytes(h)),
    ensures
        match b64_nopad_decode(text) {
            Some(b) => b.len() % 32 == 0 && chunks32(b) == heads_views(h),
            None => false,
        },
{
    lemma_heads_round_trip(h);
}

/// The heads of the label named `name`.
pub fn get_label_heads(labels: &[Label], name: &str) -> (r: Result<Vec<ChangeHash>, Error>)
    ensures
        match r {
            Ok(h) => exists|i: int|
                0 <= i < labels@.len() && (#[trigger] labels@[i]).name@ == name@ && h@ == labels@[i].heads@
                    && forall|k: int| 0 <= k < i ==> labels@[k].name@ != name@,
            Err(e) => e is NotFound && forall|i: int| 0 <= i < labels@.len() ==> (#[trigger] labels@[i]).name@ != name@,
        },
{
    let mut i: usize = 0;
    while i < labels.len()
        invariant
            i <= labels@.len(),
            forall|k: int| 0 <= k < i ==> (#[trigger] labels@[k]).name@ != name@,
        decreases labels@.len() - i,
    {
        if labels[i].name == String::from_str(name) {
            let h = copy_hashes(&labels[i].heads);
            return Ok(h);
        }
        i = i + 1;
    }
    Err(Error::NotFound(String::from_str(name)))
}

/// The time stored under a label, as the document holds it.
#[derive(Clone, Debug)]
pub enum LabelTime {
    Missing,
    At(i64),
    /// A value that is not an integer.
    WrongType,
}

/// What the document holds under a label's name: the current form (a map
/// with the encoded heads, when they are bytes, and the creation time), the
/// older form (the encoded heads alone), or anything else.
#[derive(Clone, Debug)]
pub enum LabelValue {
    Record { heads: Option<Vec<u8>>, created_at: LabelTime },
    Legacy(Vec<u8>),
    Other,
}

/// The encoded heads and the time a stored value makes a label from, if it
/// makes one.
pub open spec fn label_source(v: LabelValue) -> Option<(Seq<u8>, LabelTime)> {
    match v {
        LabelValue::Record { heads: Some(b), created_at } => Some((b@, created_at)),
        LabelValue::Legacy(b) => Some((b@, LabelTime::At(0))),
        _ => None,
    }
}

/// Whether a stored label reads without error: a time that is not an
/// integer, or heads whose length is not a multiple of 32, are refused.
pub open spec fn label_readable(v: LabelValue) -> bool {
    match label_source(v) {
        Some((b, t)) => !(t is WrongType) && b.len() % 32 == 0,
        None => true,
    }
}

pub open spec fn time_or_zero(t: LabelTime) -> i64 {
    match t {
        LabelTime::At(x) => x,
        _ => 0,
    }
}

/// A label as plain values: name, hashes, creation time.
pub open spec fn label_view(l: Label) -> (Seq<char>, Seq<Seq<u8>>, i64) {
    (l.name@, heads_views(l.heads@), l.created_at)
}

pub open spec fn label_views_of(s: Seq<Label>) -> Seq<(Seq<char>, Seq<Seq<u8>>, i64)> {
    s.map_values(|l: Label| label_view(l))
}

/// The labels the stored entries make, in the entries' order.
pub open spec fn labels_of(es: Seq<(String, LabelValue)>) -> Seq<(Seq<char>, Seq<Seq<u8>>, i64)>
    decreases es.len(),
{
    if es.len() == 0 {
        Seq::empty()
    } else {
        let prev = labels_of(es.drop_last());
        match label_source(es.last().1) {
            Some((b, t)) => prev.push((es.last().0@, chunks32(b), time_or_zero(t))),
            None => prev,
        }
    }
}

pub open spec fn labels_sorted(s: Seq<Label>) -> bool {
    forall|i: int, j: int| 0 <= i < j < s.len() ==> lex_le(s[i].name@, s[j].name@)
}

/// Reads the labels from the stored entries (name and value), sorted by
/// name. Entries that make no label are skipped; an entry whose time is
/// not an integer or whose heads do not split into hashes fails the read.
pub fn list_labels(entries: &[(String, LabelValue)]) -> (r: Result<Vec<Label>, Error>)
    ensures
        r is Err <==> exists|i: int| 0 <= i < entries@.len() && !label_readable(#[trigger] entries@[i].1),
        r matches Err(e) ==> e is Other,
        r matches Ok(v) ==> labels_sorted(v@) && label_views_of(v@).to_multiset()
            == labels_of(entries@).to_multiset(),
{
    let mut sorted: Vec<Label> = Vec::new();
    let mut i: usize = 0;
    proof {
        broadcast use vstd::multiset::group_multiset_axioms;
        assert(label_views_of(sorted@) =~= Seq::empty());
        assert(entries@.take(0) =~= Seq::empty());
    }
    while i < entries.len()
        invariant
            i <= entries@.len(),
            labels_sorted(sorted@),
            label_views_of(sorted@).to_multiset() == labels_of(entries@.take(i as int)).to_multiset(),
            forall|k: int| 0 <= k < i ==> label_readable(#[trigger] entries@[k].1),
        decreases entries@.len() - i,
    {
        let ghost s0 = sorted@;
        assert(entries@.take(i + 1).drop_last() =~= entries@.take(i as int));
        assert(entries@.take(i + 1).last() == entries@[i as int]);
        let name = &entries[i].0;
        let found: Option<(&Vec<u8>, i64)> = match &entries[i].1 {
            LabelValue::Record { heads: Some(b), created_at } => match created_at {
                LabelTime::Missing => Some((b, 0)),
                LabelTime::At(t) => Some((b, *t)),
                LabelTime::WrongType => {
                    return Err(Error::Other(String::from_str("expected int at created_at")));
                },
            },
            LabelValue::Legacy(b) => Some((b, 0)),
            _ => None,
        };
        match found {
            Some((bytes, created_at)) => {
                let heads = match decode_heads(bytes.as_slice()) {
                    Ok(h) => h,
                    Err(e) => {
                        return Err(e);
                    },
                };
                let label = Label { name: name.clone(), heads, created_at };
                let key = chars_of(name.as_str());
                let mut pos: usize = sorted.len();
                while pos > 0 && lex_greater(&chars_of(sorted[pos - 1].name.as_str()), &key)
                    invariant
                        pos <= sorted@.len(),
                        sorted@ == s0,
                        key@ == label.name@,
                        forall|k: int| pos <= k < s0.len() ==> !lex_le(#[trigger] s0[k].name@, key@),
                    decreases pos,
                {
                    pos = pos - 1;
                }
                sorted.insert(pos, label);
                proof {
                    broadcast use vstd::multiset::group_multiset_axioms;
                    assert(sorted@ =~= s0.insert(pos as int, label));
                    assert(label_views_of(sorted@) =~= label_views_of(s0).insert(
                        pos as int,
                        label_view(label),
                    ));
                    vstd::seq_lib::to_multiset_insert(label_views_of(s0), pos as int, label_view(label));
                    vstd::seq_lib::to_multiset_build(labels_of(entries@.take(i as int)), label_view(label));
                    let s1 = sorted@;
                    assert forall|a: int, b: int| 0 <= a < b < s1.len() implies lex_le(
                        s1[a].name@,
                        s1[b].name@,
                    ) by {
                        if a < pos && b == pos {
                            if pos > 0 {
                                lemma_lex_total(s0[pos - 1].name@, key@);
                                if a < pos - 1 {
                                    lemma_lex_trans(s0[a].name@, s0[pos - 1].name@, key@);
                                }
                            }
                        } else if a == pos && b > pos {
                            lemma_lex_total(s0[b - 1].name@, key@);
                        } else if a < pos && b > pos {
                            assert(s1[a] == s0[a] && s1[b] == s0[b - 1]);
                        } else if a > pos {
                            assert(s1[a] == s0[a - 1] && s1[b] == s0[b - 1]);
                        }
                    }
                }
            },
            None => {},
        }
        i = i + 1;
    }
    proof {
        assert(entries@.take(entries@.len() as int) =~= entries@);
    }
    Ok(sorted)
}

/// Whether some change made by `target` has hash `h`.
pub open spec fn included(changes: Seq<Change>, target: i64, h: ChangeHash) -> bool {
    exists|i: int| 0 <= i < changes.len() && (#[trigger] changes[i]).timestamp <= target && changes[i].hash == h
}

/// Whether a change made by `target` depends on `h`.
pub open spec fn depended_on(changes: Seq<Change>, target: i64, h: ChangeHash) -> bool {
    exists|i: int|
        0 <= i < changes.len() && (#[trigger] changes[i]).timestamp <= target && changes[i].deps@.contains(h)
}

/// The heads at `target`: the changes made by then that no change made by
/// then depends on.
pub open spec fn is_head_at(changes: Seq<Change>, target: i64, h: ChangeHash) -> bool {
    included(changes, target, h) && !depended_on(changes, target, h)
}

/// A copy of a list of hashes.
pub fn copy_hashes(v: &Vec<ChangeHash>) -> (r: Vec<ChangeHash>)
    ensures
        r@ == v@,
{
    let mut out: Vec<ChangeHash> = Vec::new();
    let mut i: usize = 0;
    while i < v.len()
        invariant
            i <= v@.len(),
            out@ == v@.take(i as int),
        decreases v@.len() - i,
    {
        out.push(v[i]);
        i = i + 1;
        assert(out@ =~= v@.take(i as int));
    }
    assert(v@.take(v@.len() as int) =~= v@);
    out
}

/// Whether `h` is among `v`.
pub fn contains_hash(v: &Vec<ChangeHash>, h: &ChangeHash) -> (r: bool)
    ensures
        r == v@.contains(*h),
{
    let mut i: usize = 0;
    while i < v.len()
        invariant
            i <= v@.len(),
            forall|k: int| 0 <= k < i ==> v@[k] != *h,
        decreases v@.len() - i,
    {
        if hash_eq(&v[i], h) {
            assert(v@[i as int] == *h);
            return true;
        }
        i = i + 1;
    }
    false
}

/// The heads of the history as it stood at `target_ms`, each once, in the
/// order the history lists them.
pub fn heads_at_time(changes: &[Change], target_ms: i64) -> (r: Vec<ChangeHash>)
    ensures
        forall|h: ChangeHash| r@.contains(h) <==> is_head_at(changes@, target_ms, h),
        r@.no_duplicates(),
{
    let mut out: Vec<ChangeHash> = Vec::new();
    let mut i: usize = 0;
    while i < changes.len()
        invariant
            i <= changes@.len(),
            out@.no_duplicates(),
            forall|h: ChangeHash|
                out@.contains(h) <==> (exists|k: int|
                    0 <= k < i && (#[trigger] changes@[k]).timestamp <= target_ms && changes@[k].hash == h)
                    && !depended_on(changes@, target_ms, h),
        decreases changes@.len() - i,
    {
        let h = changes[i].hash;
        let ghost out0 = out@;
        if changes[i].timestamp <= target_ms {
            let mut dep = false;
            let mut a: usize = 0;
            while a < changes.len()
                invariant
                    a <= changes@.len(),
                    dep == exists|x: int|
                        0 <= x < a && (#[trigger] changes@[x]).timestamp <= target_ms && changes@[x].deps@.contains(h),
                decreases changes@.len() - a,
            {
                if changes[a].timestamp <= target_ms && contains_hash(&changes[a].deps, &h) {
                    dep = true;
                }
                a = a + 1;
            }
            let seen = contains_hash(&out, &h);
            if !dep && !seen {
                let ghost before = out@;
                out.push(h);
                proof {
                    assert forall|x: int, y: int| 0 <= x < y < out@.len() implies out@[x] != out@[y] by {
                        if y == out@.len() - 1 {
                            assert(before[x] == out@[x]);
                        } else {
                            assert(before[x] == out@[x] && before[y] == out@[y]);
                        }
                    }
                    assert forall|g: ChangeHash| out@.contains(g) <==> before.contains(g) || g == h by {
                        if out@.contains(g) {
                            let w = choose|w: int| 0 <= w < out@.len() && out@[w] == g;
                            if w < before.len() {
                                assert(before[w] == g);
                            }
                        }
                        if before.contains(g) {
                            let w = choose|w: int| 0 <= w < before.len() && before[w] == g;
                            assert(out@[w] == g);
                        }
                        if g == h {
                            assert(out@[out@.len() - 1] == g);
                        }
                    }
                }
            }
            proof {
                assert(changes@[i as int].timestamp <= target_ms && changes@[i as int].hash == h);
                assert(dep == depended_on(changes@, target_ms, h));
                assert forall|g: ChangeHash|
                    out@.contains(g) <==> (exists|k: int|
                        0 <= k < i + 1 && (#[trigger] changes@[k]).timestamp <= target_ms && changes@[k].hash == g)
                        && !depended_on(changes@, target_ms, g) by {
                    if g == h {
                        if !dep {
                            if !seen {
                                assert(out@[out@.len() - 1] == h);
                            }
                            assert(out@.contains(h));
                        } else {
                            assert(depended_on(changes@, target_ms, g));
                            assert(!out@.contains(g));
                        }
                        assert(exists|k: int|
                            0 <= k < i + 1 && (#[trigger] changes@[k]).timestamp <= target_ms && changes@[k].hash == g);
                    }
                    if g != h {
                        assert(out@.contains(g) <==> out0.contains(g));
                        assert(out0.contains(g) <==> (exists|k: int|
                            0 <= k < i && (#[trigger] changes@[k]).timestamp <= target_ms && changes@[k].hash == g)
                            && !depended_on(changes@, target_ms, g));
                        if exists|k: int|
                            0 <= k < i + 1 && (#[trigger] changes@[k]).timestamp <= target_ms && changes@[k].hash == g {
                            let k = choose|k: int|
                                0 <= k < i + 1 && (#[trigger] changes@[k]).timestamp <= target_ms && changes@[k].hash == g;
                            assert(k < i);
                        }
                    }
                }
            }
        }
        i = i + 1;
    }
    proof {
        assert forall|h: ChangeHash| out@.contains(h) <==> is_head_at(changes@, target_ms, h) by {
            if included(changes@, target_ms, h) {
                let k = choose|k: int|
                    0 <= k < changes@.len() && (#[trigger] changes@[k]).timestamp <= target_ms && changes@[k].hash == h;
            }
        }
    }
    out
}

/// The text a restored text file gets: the past text, or nothing.
pub open spec fn text_or_empty(c: Option<String>) -> Seq<char> {
    match c {
        Some(t) => t@,
        None => Seq::empty(),
    }
}

/// `e` is the past file `pf` brought back at `now`.
pub open spec fn restored_file(pf: FileEntry, e: FileEntry, now: i64) -> bool {
    &&& e.meta.id@ == pf.meta.id@
    &&& e.meta.path@ == pf.meta.path@
    &&& e.meta.kind == pf.meta.kind
    &&& e.meta.size == pf.meta.size
    &&& e.meta.created_at == pf.meta.created_at
    &&& e.meta.updated_at == now
    &&& e.meta.deleted_at is None
    &&& pf.meta.kind == FileKind::Text ==> (e.content matches Some(t) && t@ == text_or_empty(pf.content))
    &&& (pf.meta.kind == FileKind::Attachment && pf.meta.binary_hash is Some) ==> e.meta.binary_hash
        == pf.meta.binary_hash
}

/// `d` is the past directory `pd` brought back.
pub open spec fn restored_dir(pd: DirectoryMeta, d: DirectoryMeta) -> bool {
    d.id@ == pd.id@ && d.path@ == pd.path@ && d.created_at == pd.created_at && d.deleted_at is None
}

/// No two live files share an id.
pub open spec fn live_file_ids_unique(files: Seq<FileEntry>) -> bool {
    forall|i: int, j: int|
        0 <= i < j < files.len() && files[i].meta.deleted_at is None && files[j].meta.deleted_at is None
            ==> files[i].meta.id@ != files[j].meta.id@
}

/// No two live directories share an id.
pub open spec fn live_dir_ids_unique(dirs: Seq<DirectoryMeta>) -> bool {
    forall|i: int, j: int|
        0 <= i < j < dirs.len() && dirs[i].deleted_at is None && dirs[j].deleted_at is None ==> dirs[i].id@
            != dirs[j].id@
}

/// Whether a live file with id `fid` is in `files`.
pub open spec fn has_live_id(files: Seq<FileEntry>, fid: Seq<char>) -> bool {
    exists|j: int| 0 <= j < files.len() && (#[trigger] files[j]).meta.deleted_at is None && files[j].meta.id@ == fid
}

/// No two files share an id, deleted or not: ids are the keys of the
/// document's file map.
#[verifier::opaque]
pub open spec fn file_ids_unique(files: Seq<FileEntry>) -> bool {
    forall|i: int, j: int|
        #![trigger files[i], files[j]]
        0 <= i < j < files.len() ==> files[i].meta.id@ != files[j].meta.id@
}

/// No two directories share an id, deleted or not.
#[verifier::opaque]
pub open spec fn dir_ids_unique(dirs: Seq<DirectoryMeta>) -> bool {
    forall|i: int, j: int| #![trigger dirs[i], dirs[j]] 0 <= i < j < dirs.len() ==> dirs[i].id@ != dirs[j].id@
}

proof fn lemma_first_id_absent(files: Seq<FileEntry>, fid: Seq<char>)
    requires
        forall|i: int| 0 <= i < files.len() ==> (#[trigger] files[i]).meta.id@ != fid,
    ensures
        first_id(files, fid) == -1,
    decreases files.len(),
{
    if files.len() > 0 {
        let d = files.drop_last();
        assert forall|i: int| 0 <= i < d.len() implies (#[trigger] d[i]).meta.id@ != fid by {
            assert(d[i] == files[i]);
        }
        lemma_first_id_absent(d, fid);
        assert(files[files.len() - 1].meta.id@ != fid);
    }
}

proof fn lemma_first_dir_id_absent(dirs: Seq<DirectoryMeta>, did: Seq<char>)
    requires
        forall|i: int| 0 <= i < dirs.len() ==> (#[trigger] dirs[i]).id@ != did,
    ensures
        first_dir_id(dirs, did) == -1,
    decreases dirs.len(),
{
    if dirs.len() > 0 {
        let d = dirs.drop_last();
        assert forall|i: int| 0 <= i < d.len() implies (#[trigger] d[i]).id@ != did by {
            assert(d[i] == dirs[i]);
        }
        lemma_first_dir_id_absent(d, did);
        assert(dirs[dirs.len() - 1].id@ != did);
    }
}

/// Whether entries `a` and `b` of `files` may share an id: never, or
/// only when one of them is deleted and `live_only` holds.
pub open spec fn file_pair_ok(files: Seq<FileEntry>, a: int, b: int, live_only: bool) -> bool {
    (live_only && (files[a].meta.deleted_at is Some || files[b].meta.deleted_at is Some))
        || files[a].meta.id@ != files[b].meta.id@
}

/// Whether entries `a` and `b` of `dirs` may share an id.
pub open spec fn dir_pair_ok(dirs: Seq<DirectoryMeta>, a: int, b: int, live_only: bool) -> bool {
    (live_only && (dirs[a].deleted_at is Some || dirs[b].deleted_at is Some)) || dirs[a].id@ != dirs[b].id@
}

fn files_distinct(files: &Vec<FileEntry>, live_only: bool) -> (r: bool)
    ensures
        r == forall|a: int, b: int|
            #![trigger files@[a], files@[b]]
            0 <= a < b < files@.len() ==> file_pair_ok(files@, a, b, live_only),
{
    let mut i: usize = 0;
    while i < files.len()
        invariant
            i <= files@.len(),
            forall|a: int, b: int|
                #![trigger files@[a], files@[b]]
                0 <= a < i && a < b < files@.len() ==> file_pair_ok(files@, a, b, live_only),
        decreases files@.len() - i,
    {
        let mut j: usize = i + 1;
        while j < files.len()
            invariant
                i < j <= files@.len(),
                i < files@.len(),
                forall|a: int, b: int|
                    #![trigger files@[a], files@[b]]
                    0 <= a < i && a < b < files@.len() ==> file_pair_ok(files@, a, b, live_only),
                forall|b: int| #![trigger files@[b]] i < b < j ==> file_pair_ok(files@, i as int, b, live_only),
            decreases files@.len() - j,
        {
            let skip = live_only && (files[i].meta.deleted_at.is_some() || files[j].meta.deleted_at.is_some());
            if !skip && files[i].meta.id == files[j].meta.id {
                assert(!file_pair_ok(files@, i as int, j as int, live_only));
                return false;
            }
            j = j + 1;
        }
        i = i + 1;
    }
    true
}

fn dirs_distinct(dirs: &Vec<DirectoryMeta>, live_only: bool) -> (r: bool)
    ensures
        r == forall|a: int, b: int|
            #![trigger dirs@[a], dirs@[b]]
            0 <= a < b < dirs@.len() ==> dir_pair_ok(dirs@, a, b, live_only),
{
    let mut i: usize = 0;
    while i < dirs.len()
        invariant
            i <= dirs@.len(),
            forall|a: int, b: int|
                #![trigger dirs@[a], dirs@[b]]
                0 <= a < i && a < b < dirs@.len() ==> dir_pair_ok(dirs@, a, b, live_only),
        decreases dirs@.len() - i,
    {
        let mut j: usize = i + 1;
        while j < dirs.len()
            invariant
                i < j <= dirs@.len(),
                i < dirs@.len(),
                forall|a: int, b: int|
                    #![trigger dirs@[a], dirs@[b]]
                    0 <= a < i && a < b < dirs@.len() ==> dir_pair_ok(dirs@, a, b, live_only),
                forall|b: int| #![trigger dirs@[b]] i < b < j ==> dir_pair_ok(dirs@, i as int, b, live_only),
            decreases dirs@.len() - j,
        {
            let skip = live_only && (dirs[i].deleted_at.is_some() || dirs[j].deleted_at.is_some());
            if !skip && dirs[i].id == dirs[j].id {
                assert(!dir_pair_ok(dirs@, i as int, j as int, live_only));
                return false;
            }
            j = j + 1;
        }
        i = i + 1;
    }
    true
}

impl DocTree {
    /// Whether [`DocTree::restore_to`] can bring this tree back to `past`:
    /// no two of this tree's entries share an id, and no two live entries
    /// of `past` do (as trees read from the document always are).
    pub fn can_restore_to(&self, past: &DocTree) -> (r: bool)
        ensures
            r == (file_ids_unique(self.files@) && dir_ids_unique(self.dirs@) && live_file_ids_unique(
                past.files@,
            ) && live_dir_ids_unique(past.dirs@)),
    {
        proof {
            reveal(file_ids_unique);
            reveal(dir_ids_unique);
        }
        let a = files_distinct(&self.files, false);
        let b = dirs_distinct(&self.dirs, false);
        let c = files_distinct(&past.files, true);
        let d = dirs_distinct(&past.dirs, true);
        proof {
            assert(a == file_ids_unique(self.files@)) by {
                if a {
                    assert forall|i: int, j: int| #![trigger self.files@[i], self.files@[j]] 0 <= i < j < self.files@.len()
                        implies self.files@[i].meta.id@ != self.files@[j].meta.id@ by {
                        assert(file_pair_ok(self.files@, i, j, false));
                    }
                }
            }
            assert(b == dir_ids_unique(self.dirs@)) by {
                if b {
                    assert forall|i: int, j: int| #![trigger self.dirs@[i], self.dirs@[j]] 0 <= i < j < self.dirs@.len()
                        implies self.dirs@[i].id@ != self.dirs@[j].id@ by {
                        assert(dir_pair_ok(self.dirs@, i, j, false));
                    }
                }
            }
            assert(c == live_file_ids_unique(past.files@)) by {
                if c {
                    assert forall|i: int, j: int|
                        0 <= i < j < past.files@.len() && past.files@[i].meta.deleted_at is None
                            && past.files@[j].meta.deleted_at is None implies past.files@[i].meta.id@
                        != past.files@[j].meta.id@ by {
                        assert(file_pair_ok(past.files@, i, j, true));
                    }
                }
            }
            assert(d == live_dir_ids_unique(past.dirs@)) by {
                if d {
                    assert forall|i: int, j: int|
                        0 <= i < j < past.dirs@.len() && past.dirs@[i].deleted_at is None
                            && past.dirs@[j].deleted_at is None implies past.dirs@[i].id@ != past.dirs@[j].id@ by {
                        assert(dir_pair_ok(past.dirs@, i, j, true));
                    }
                }
            }
        }
        a && b && c && d
    }
}

/// In files with distinct ids, the first entry with an entry's id is that
/// entry.
proof fn lemma_unique_first_id(files: Seq<FileEntry>, k: int)
    requires
        file_ids_unique(files),
        0 <= k < files.len(),
    ensures
        first_id(files, files[k].meta.id@) == k,
    decreases files.len(),
{
    reveal(file_ids_unique);
    let id = files[k].meta.id@;
    let d = files.drop_last();
    if k < files.len() - 1 {
        assert(file_ids_unique(d)) by {
            assert forall|i: int, j: int| #![trigger d[i], d[j]] 0 <= i < j < d.len() implies d[i].meta.id@
                != d[j].meta.id@ by {
                assert(d[i] == files[i] && d[j] == files[j]);
            }
        }
        lemma_unique_first_id(d, k);
        assert(d[k] == files[k]);
    } else {
        assert forall|i: int| 0 <= i < d.len() implies (#[trigger] d[i]).meta.id@ != id by {
            assert(d[i] == files[i]);
            assert(files[i].meta.id@ != files[k].meta.id@);
        }
        lemma_first_id_absent(d, id);
    }
}

proof fn lemma_unique_first_dir_id(dirs: Seq<DirectoryMeta>, k: int)
    requires
        dir_ids_unique(dirs),
        0 <= k < dirs.len(),
    ensures
        first_dir_id(dirs, dirs[k].id@) == k,
    decreases dirs.len(),
{
    reveal(dir_ids_unique);
    let id = dirs[k].id@;
    let d = dirs.drop_last();
    if k < dirs.len() - 1 {
        assert(dir_ids_unique(d)) by {
            assert forall|i: int, j: int| #![trigger d[i], d[j]] 0 <= i < j < d.len() implies d[i].id@ != d[j].id@ by {
                assert(d[i] == dirs[i] && d[j] == dirs[j]);
            }
        }
        lemma_unique_first_dir_id(d, k);
        assert(d[k] == dirs[k]);
    } else {
        assert forall|i: int| 0 <= i < d.len() implies (#[trigger] d[i]).id@ != id by {
            assert(d[i] == dirs[i]);
            assert(dirs[i].id@ != dirs[k].id@);
        }
        lemma_first_dir_id_absent(d, id);
    }
}

/// Distinct ids stay distinct when entries keep their ids and at most
/// one entry with a new id is added at the end.
proof fn lemma_unique_kept(before: Seq<FileEntry>, after: Seq<FileEntry>)
    requires
        file_ids_unique(before),
        before.len() <= after.len() <= before.len() + 1,
        forall|k: int| 0 <= k < before.len() ==> (#[trigger] after[k]).meta.id@ == before[k].meta.id@,
        after.len() > before.len() ==> forall|k: int|
            0 <= k < before.len() ==> (#[trigger] before[k]).meta.id@ != after[before.len() as int].meta.id@,
    ensures
        file_ids_unique(after),
{
    reveal(file_ids_unique);
    assert forall|i: int, j: int| #![trigger after[i], after[j]] 0 <= i < j < after.len() implies after[i].meta.id@
        != after[j].meta.id@ by {
        assert(after[i].meta.id@ == before[i].meta.id@);
        if j < before.len() {
            assert(after[j].meta.id@ == before[j].meta.id@);
            assert(before[i].meta.id@ != before[j].meta.id@);
        } else {
            assert(before[i].meta.id@ != after[before.len() as int].meta.id@);
        }
    }
}

proof fn lemma_unique_dirs_kept(before: Seq<DirectoryMeta>, after: Seq<DirectoryMeta>)
    requires
        dir_ids_unique(before),
        before.len() <= after.len() <= before.len() + 1,
        forall|k: int| 0 <= k < before.len() ==> (#[trigger] after[k]).id@ == before[k].id@,
        after.len() > before.len() ==> forall|k: int|
            0 <= k < before.len() ==> (#[trigger] before[k]).id@ != after[before.len() as int].id@,
    ensures
        dir_ids_unique(after),
{
    reveal(dir_ids_unique);
    assert forall|i: int, j: int| #![trigger after[i], after[j]] 0 <= i < j < after.len() implies after[i].id@
        != after[j].id@ by {
        assert(after[i].id@ == before[i].id@);
        if j < before.len() {
            assert(after[j].id@ == before[j].id@);
            assert(before[i].id@ != before[j].id@);
        } else {
            assert(before[i].id@ != after[before.len() as int].id@);
        }
    }
}

/// Whether a live directory with id `did` is in `dirs`.
pub open spec fn has_live_dir_id(dirs: Seq<DirectoryMeta>, did: Seq<char>) -> bool {
    exists|j: int| 0 <= j < dirs.len() && (#[trigger] dirs[j]).deleted_at is None && dirs[j].id@ == did
}

/// Index of the first directory with id `did`, deleted or not, or -1.
pub open spec fn first_dir_id(dirs: Seq<DirectoryMeta>, did: Seq<char>) -> int
    decreases dirs.len(),
{
    if dirs.len() == 0 {
        -1
    } else if first_dir_id(dirs.drop_last(), did) >= 0 {
        first_dir_id(dirs.drop_last(), did)
    } else if dirs.last().id@ == did {
        dirs.len() - 1
    } else {
        -1
    }
}

proof fn lemma_first_dir_id(dirs: Seq<DirectoryMeta>, did: Seq<char>)
    ensures
        -1 <= first_dir_id(dirs, did) < dirs.len(),
        first_dir_id(dirs, did) >= 0 ==> dirs[first_dir_id(dirs, did)].id@ == did,
        forall|k: int|
            0 <= k < dirs.len() && (first_dir_id(dirs, did) < 0 || k < first_dir_id(dirs, did))
                ==> (#[trigger] dirs[k]).id@ != did,
        forall|i: int|
            0 <= i < dirs.len() && dirs[i].id@ == did && (forall|k: int| 0 <= k < i ==> (#[trigger] dirs[k]).id@ != did)
                ==> first_dir_id(dirs, did) == i,
    decreases dirs.len(),
{
    if dirs.len() > 0 {
        lemma_first_dir_id(dirs.drop_last(), did);
        assert forall|k: int|
            0 <= k < dirs.len() && (first_dir_id(dirs, did) < 0 || k < first_dir_id(dirs, did))
                implies (#[trigger] dirs[k]).id@ != did by {
            if k < dirs.len() - 1 {
                assert(dirs.drop_last()[k] == dirs[k]);
            }
        }
        assert forall|i: int|
            0 <= i < dirs.len() && dirs[i].id@ == did && (forall|k: int| 0 <= k < i ==> (#[trigger] dirs[k]).id@ != did)
                implies first_dir_id(dirs, did) == i by {
            if i < dirs.len() - 1 {
                assert(dirs.drop_last()[i] == dirs[i]);
                assert forall|k: int| 0 <= k < i implies (#[trigger] dirs.drop_last()[k]).id@ != did by {
                    assert(dirs.drop_last()[k] == dirs[k]);
                }
            } else {
                if first_dir_id(dirs.drop_last(), did) >= 0 {
                    let w = first_dir_id(dirs.drop_last(), did);
                    assert(dirs.drop_last()[w] == dirs[w]);
                }
            }
        }
    }
}

/// Changing an entry of another id, or adding one at the end, leaves the
/// first index of an id where it was.
proof fn lemma_first_id_frame(files: Seq<FileEntry>, files2: Seq<FileEntry>, fid: Seq<char>)
    requires
        files2.len() >= files.len(),
        first_id(files, fid) >= 0,
        forall|k: int| 0 <= k <= first_id(files, fid) ==> #[trigger] files2[k].meta.id@ == files[k].meta.id@,
    ensures
        first_id(files2, fid) == first_id(files, fid),
{
    lemma_first_id(files, fid);
    lemma_first_id(files2, fid);
    let i = first_id(files, fid);
    assert(files2[i].meta.id@ == fid);
    assert forall|k: int| 0 <= k < i implies (#[trigger] files2[k]).meta.id@ != fid by {
        assert(files2[k].meta.id@ == files[k].meta.id@);
    }
}

proof fn lemma_first_dir_id_frame(dirs: Seq<DirectoryMeta>, dirs2: Seq<DirectoryMeta>, did: Seq<char>)
    requires
        dirs2.len() >= dirs.len(),
        first_dir_id(dirs, did) >= 0,
        forall|k: int| 0 <= k <= first_dir_id(dirs, did) ==> #[trigger] dirs2[k].id@ == dirs[k].id@,
    ensures
        first_dir_id(dirs2, did) == first_dir_id(dirs, did),
    decreases dirs2.len(),
{
    lemma_first_dir_id(dirs, did);
    lemma_first_dir_id(dirs2, did);
    let i = first_dir_id(dirs, did);
    assert(dirs2[i].id@ == did);
    if first_dir_id(dirs2, did) != i {
        if first_dir_id(dirs2, did) < 0 {
            assert(dirs2[i].id@ != did);
        } else {
            let j = first_dir_id(dirs2, did);
            if j < i {
                assert(dirs2[j].id@ == dirs[j].id@);
            }
        }
    }
}

fn dir_index_of_id(dirs: &Vec<DirectoryMeta>, did: &String) -> (r: Option<usize>)
    ensures
        match r {
            Some(i) => i == first_dir_id(dirs@, did@) && i < dirs@.len(),
            None => first_dir_id(dirs@, did@) == -1,
        },
{
    proof {
        lemma_first_dir_id(dirs@, did@);
    }
    let mut i: usize = 0;
    while i < dirs.len()
        invariant
            i <= dirs@.len(),
            forall|k: int| 0 <= k < i ==> (#[trigger] dirs@[k]).id@ != did@,
        decreases dirs@.len() - i,
    {
        if dirs[i].id == *did {
            proof {
                lemma_first_dir_id(dirs@, did@);
            }
            return Some(i);
        }
        i = i + 1;
    }
    None
}

impl DocTree {
    /// Puts the past file `p` back: the first entry with its id takes its
    /// metadata and content, or a new entry is added.
    fn restore_one_file(&mut self, p: &FileEntry, now: i64)
        ensures
            ({
                let k = first_id(final(self).files@, p.meta.id@);
                k >= 0 && restored_file(*p, final(self).files@[k], now)
            }),
            final(self).files@.len() >= old(self).files@.len(),
            final(self).dirs@ == old(self).dirs@,
            file_ids_unique(old(self).files@) ==> file_ids_unique(final(self).files@),
            forall|k2: int|
                0 <= k2 < old(self).files@.len() ==> (#[trigger] final(self).files@[k2]).meta.id@
                    == old(self).files@[k2].meta.id@,
            forall|k2: int|
                0 <= k2 < old(self).files@.len() && old(self).files@[k2].meta.id@ != p.meta.id@
                    ==> #[trigger] final(self).files@[k2] == old(self).files@[k2],
            forall|k2: int|
                old(self).files@.len() <= k2 < final(self).files@.len() ==> (#[trigger] final(self).files@[k2]).meta.id@
                    == p.meta.id@,
    {
        let ghost before = self.files@;
        let ghost fid = p.meta.id@;
        let target = match &p.content {
            Some(c) => c.clone(),
            None => String::new(),
        };
        proof {
            lemma_first_id(before, fid);
        }
        match self.index_of_id(p.meta.id.as_str()) {
            Some(k) => {
                self.files[k].meta.path = p.meta.path.clone();
                self.files[k].meta.kind = p.meta.kind;
                self.files[k].meta.size = p.meta.size;
                self.files[k].meta.created_at = p.meta.created_at;
                self.files[k].meta.updated_at = now;
                self.files[k].meta.deleted_at = None;
                match p.meta.kind {
                    FileKind::Text => {
                        self.files[k].content = Some(target);
                    },
                    FileKind::Attachment => {
                        if let Some(h) = &p.meta.binary_hash {
                            self.files[k].meta.binary_hash = Some(h.clone());
                        }
                    },
                }
                proof {
                    assert forall|k2: int| 0 <= k2 <= first_id(before, fid) implies #[trigger] self.files@[k2].meta.id@
                        == before[k2].meta.id@ by {}
                    lemma_first_id_frame(before, self.files@, fid);
                    if file_ids_unique(before) {
                        assert forall|k2: int| 0 <= k2 < before.len() implies #[trigger] self.files@[k2].meta.id@
                            == before[k2].meta.id@ by {}
                        lemma_unique_kept(before, self.files@);
                    }
                }
            },
            None => {
                let e = FileEntry {
                    meta: FileMeta {
                        id: p.meta.id.clone(),
                        path: p.meta.path.clone(),
                        kind: p.meta.kind,
                        size: p.meta.size,
                        created_at: p.meta.created_at,
                        updated_at: now,
                        deleted_at: None,
                        binary_hash: match p.meta.kind {
                            FileKind::Attachment => match &p.meta.binary_hash {
                                Some(h) => Some(h.clone()),
                                None => None,
                            },
                            FileKind::Text => None,
                        },
                    },
                    content: match p.meta.kind {
                        FileKind::Text => Some(target),
                        FileKind::Attachment => None,
                    },
                };
                self.files.push(e);
                proof {
                    lemma_first_id(self.files@, fid);
                    assert(self.files@[before.len() as int].meta.id@ == fid);
                    assert forall|k2: int| 0 <= k2 < before.len() implies (#[trigger] self.files@[k2]).meta.id@ != fid by {
                        assert(self.files@[k2] == before[k2]);
                    }
                    if file_ids_unique(before) {
                        assert forall|k2: int| 0 <= k2 < before.len() implies #[trigger] self.files@[k2].meta.id@
                            == before[k2].meta.id@ by {
                            assert(self.files@[k2] == before[k2]);
                        }
                        lemma_unique_kept(before, self.files@);
                    }
                }
            },
        }
    }

    /// Puts the past directory `p` back: the first entry with its id takes
    /// its path and creation time, or a copy is added.
    fn restore_one_dir(&mut self, p: &DirectoryMeta)
        requires
            p.deleted_at is None,
        ensures
            ({
                let k = first_dir_id(final(self).dirs@, p.id@);
                k >= 0 && restored_dir(*p, final(self).dirs@[k])
            }),
            final(self).dirs@.len() >= old(self).dirs@.len(),
            final(self).files@ == old(self).files@,
            dir_ids_unique(old(self).dirs@) ==> dir_ids_unique(final(self).dirs@),
            forall|k2: int|
                0 <= k2 < old(self).dirs@.len() ==> (#[trigger] final(self).dirs@[k2]).id@ == old(self).dirs@[k2].id@,
            forall|k2: int|
                0 <= k2 < old(self).dirs@.len() && old(self).dirs@[k2].id@ != p.id@
                    ==> #[trigger] final(self).dirs@[k2] == old(self).dirs@[k2],
            forall|k2: int|
                old(self).dirs@.len() <= k2 < final(self).dirs@.len() ==> (#[trigger] final(self).dirs@[k2]).id@ == p.id@,
    {
        let ghost before = self.dirs@;
        let ghost did = p.id@;
        proof {
            lemma_first_dir_id(before, did);
        }
        match dir_index_of_id(&self.dirs, &p.id) {
            Some(k) => {
                self.dirs[k].path = p.path.clone();
                self.dirs[k].created_at = p.created_at;
                self.dirs[k].deleted_at = None;
                proof {
                    assert forall|k2: int| 0 <= k2 <= first_dir_id(before, did) implies #[trigger] self.dirs@[k2].id@
                        == before[k2].id@ by {}
                    lemma_first_dir_id_frame(before, self.dirs@, did);
                    if dir_ids_unique(before) {
                        assert forall|k2: int| 0 <= k2 < before.len() implies #[trigger] self.dirs@[k2].id@
                            == before[k2].id@ by {}
                        lemma_unique_dirs_kept(before, self.dirs@);
                    }
                }
            },
            None => {
                self.dirs.push(p.duplicate());
                proof {
                    lemma_first_dir_id(self.dirs@, did);
                    assert(self.dirs@[before.len() as int].id@ == did);
                    assert forall|k2: int| 0 <= k2 < before.len() implies (#[trigger] self.dirs@[k2]).id@ != did by {
                        assert(self.dirs@[k2] == before[k2]);
                    }
                    assert(first_dir_id(self.dirs@, did) == before.len());
                    if dir_ids_unique(before) {
                        assert forall|k2: int| 0 <= k2 < before.len() implies #[trigger] self.dirs@[k2].id@
                            == before[k2].id@ by {
                            assert(self.dirs@[k2] == before[k2]);
                        }
                        lemma_unique_dirs_kept(before, self.dirs@);
                    }
                }
            },
        }
    }

    /// Brings the vault back to `past`, its state at an earlier point:
    /// files and directories live now but not then are deleted, and those
    /// live then are put back as they were (a file stamped updated at
    /// `now`), with new forward changes; what happened elsewhere in the
    /// meantime is kept.
    pub fn restore_to(&mut self, past: &DocTree, now: i64)
        requires
            live_file_ids_unique(past.files@),
            live_dir_ids_unique(past.dirs@),
            file_ids_unique(old(self).files@),
            dir_ids_unique(old(self).dirs@),
        ensures
            file_ids_unique(final(self).files@),
            dir_ids_unique(final(self).dirs@),
            forall|k: int|
                0 <= k < final(self).files@.len() && (#[trigger] final(self).files@[k]).meta.deleted_at is None
                    ==> exists|j: int|
                    0 <= j < past.files@.len() && (#[trigger] past.files@[j]).meta.deleted_at is None
                        && restored_file(past.files@[j], final(self).files@[k], now),
            forall|k: int|
                0 <= k < final(self).dirs@.len() && (#[trigger] final(self).dirs@[k]).deleted_at is None
                    ==> exists|j: int|
                    0 <= j < past.dirs@.len() && (#[trigger] past.dirs@[j]).deleted_at is None && restored_dir(
                        past.dirs@[j],
                        final(self).dirs@[k],
                    ),
            forall|j: int|
                0 <= j < past.files@.len() && (#[trigger] past.files@[j]).meta.deleted_at is None ==> {
                    let k = first_id(final(self).files@, past.files@[j].meta.id@);
                    k >= 0 && restored_file(past.files@[j], final(self).files@[k], now)
                },
            forall|k: int|
                0 <= k < final(self).files@.len() && (#[trigger] final(self).files@[k]).meta.deleted_at is None
                    ==> has_live_id(past.files@, final(self).files@[k].meta.id@),
            forall|j: int|
                0 <= j < past.dirs@.len() && (#[trigger] past.dirs@[j]).deleted_at is None ==> {
                    let k = first_dir_id(final(self).dirs@, past.dirs@[j].id@);
                    k >= 0 && restored_dir(past.dirs@[j], final(self).dirs@[k])
                },
            forall|k: int|
                0 <= k < final(self).dirs@.len() && (#[trigger] final(self).dirs@[k]).deleted_at is None
                    ==> has_live_dir_id(past.dirs@, final(self).dirs@[k].id@),
    {
        let pf = &past.files;
        let pd = &past.dirs;
        // Files live now but not in the past are deleted.
        let mut k: usize = 0;
        while k < self.files.len()
            invariant
                k <= self.files@.len(),
                pf@ == past.files@,
                file_ids_unique(self.files@),
                dir_ids_unique(self.dirs@),
                forall|j: int|
                    0 <= j < k && (#[trigger] self.files@[j]).meta.deleted_at is None ==> has_live_id(
                        pf@,
                        self.files@[j].meta.id@,
                    ),
            decreases self.files@.len() - k,
        {
            if self.files[k].meta.deleted_at.is_none() {
                let mut alive_past = false;
                let mut q: usize = 0;
                while q < pf.len()
                    invariant
                        q <= pf@.len(),
                        k < self.files@.len(),
                        alive_past == exists|j: int|
                            0 <= j < q && (#[trigger] pf@[j]).meta.deleted_at is None && pf@[j].meta.id@
                                == self.files@[k as int].meta.id@,
                    decreases pf@.len() - q,
                {
                    if pf[q].meta.deleted_at.is_none() && pf[q].meta.id == self.files[k].meta.id {
                        alive_past = true;
                    }
                    q = q + 1;
                }
                if !alive_past {
                    let ghost before = self.files@;
                    self.files[k].meta.deleted_at = Some(now);
                    proof {
                        assert forall|k2: int| 0 <= k2 < before.len() implies #[trigger] self.files@[k2].meta.id@
                            == before[k2].meta.id@ by {}
                        lemma_unique_kept(before, self.files@);
                    }
                }
            }
            k = k + 1;
        }
        // Files live in the past are put back.
        let mut q: usize = 0;
        while q < pf.len()
            invariant
                q <= pf@.len(),
                pf@ == past.files@,
                live_file_ids_unique(pf@),
                file_ids_unique(self.files@),
                dir_ids_unique(self.dirs@),
                forall|j: int|
                    0 <= j < q && (#[trigger] pf@[j]).meta.deleted_at is None ==> {
                        let k = first_id(self.files@, pf@[j].meta.id@);
                        k >= 0 && restored_file(pf@[j], self.files@[k], now)
                    },
                forall|k: int|
                    0 <= k < self.files@.len() && (#[trigger] self.files@[k]).meta.deleted_at is None
                        ==> has_live_id(pf@, self.files@[k].meta.id@),
            decreases pf@.len() - q,
        {
            let ghost before = self.files@;
            if pf[q].meta.deleted_at.is_none() {
                self.restore_one_file(&pf[q], now);
                proof {
                    let fid = pf@[q as int].meta.id@;
                    assert forall|j: int|
                        0 <= j < q + 1 && (#[trigger] pf@[j]).meta.deleted_at is None implies {
                            let k = first_id(self.files@, pf@[j].meta.id@);
                            k >= 0 && restored_file(pf@[j], self.files@[k], now)
                        } by {
                        if j < q {
                            assert(pf@[j].meta.id@ != fid);
                            let g = pf@[j].meta.id@;
                            lemma_first_id(before, g);
                            let kb = first_id(before, g);
                            assert(kb >= 0);
                            assert forall|k2: int| 0 <= k2 <= kb implies #[trigger] self.files@[k2].meta.id@
                                == before[k2].meta.id@ by {}
                            lemma_first_id_frame(before, self.files@, g);
                            assert(before[kb].meta.id@ == g);
                            assert(self.files@[kb] == before[kb]);
                        }
                    }
                    assert forall|k2: int|
                        0 <= k2 < self.files@.len() && (#[trigger] self.files@[k2]).meta.deleted_at is None
                            implies has_live_id(pf@, self.files@[k2].meta.id@) by {
                        if self.files@[k2].meta.id@ == fid {
                            assert(pf@[q as int].meta.deleted_at is None);
                        } else {
                            assert(k2 < before.len());
                            assert(before[k2].meta.id@ != fid);
                            assert(self.files@[k2] == before[k2]);
                        }
                    }
                }
            }
            q = q + 1;
        }
        proof {
            assert forall|k: int|
                0 <= k < self.files@.len() && (#[trigger] self.files@[k]).meta.deleted_at is None implies exists|j: int|
                0 <= j < past.files@.len() && (#[trigger] past.files@[j]).meta.deleted_at is None && restored_file(
                    past.files@[j],
                    self.files@[k],
                    now,
                ) by {
                let id = self.files@[k].meta.id@;
                assert(has_live_id(pf@, id));
                let j = choose|j: int| 0 <= j < pf@.len() && (#[trigger] pf@[j]).meta.deleted_at is None && pf@[j].meta.id@ == id;
                lemma_unique_first_id(self.files@, k);
                assert(restored_file(pf@[j], self.files@[first_id(self.files@, pf@[j].meta.id@)], now));
            }
        }
        // Directories, the same way.
        let ghost files_done = self.files@;
        let mut k: usize = 0;
        while k < self.dirs.len()
            invariant
                k <= self.dirs@.len(),
                pd@ == past.dirs@,
                self.files@ == files_done,
                dir_ids_unique(self.dirs@),
                forall|j: int|
                    0 <= j < k && (#[trigger] self.dirs@[j]).deleted_at is None ==> has_live_dir_id(
                        pd@,
                        self.dirs@[j].id@,
                    ),
            decreases self.dirs@.len() - k,
        {
            if self.dirs[k].deleted_at.is_none() {
                let mut alive_past = false;
                let mut q: usize = 0;
                while q < pd.len()
                    invariant
                        q <= pd@.len(),
                        k < self.dirs@.len(),
                        alive_past == exists|j: int|
                            0 <= j < q && (#[trigger] pd@[j]).deleted_at is None && pd@[j].id@ == self.dirs@[k as int].id@,
                    decreases pd@.len() - q,
                {
                    if pd[q].deleted_at.is_none() && pd[q].id == self.dirs[k].id {
                        alive_past = true;
                    }
                    q = q + 1;
                }
                if !alive_past {
                    let ghost before = self.dirs@;
                    self.dirs[k].deleted_at = Some(now);
                    proof {
                        assert forall|k2: int| 0 <= k2 < before.len() implies #[trigger] self.dirs@[k2].id@
                            == before[k2].id@ by {}
                        lemma_unique_dirs_kept(before, self.dirs@);
                    }
                }
            }
            k = k + 1;
        }
        let mut q: usize = 0;
        while q < pd.len()
            invariant
                q <= pd@.len(),
                pd@ == past.dirs@,
                self.files@ == files_done,
                live_dir_ids_unique(pd@),
                dir_ids_unique(self.dirs@),
                forall|j: int|
                    0 <= j < q && (#[trigger] pd@[j]).deleted_at is None ==> {
                        let k = first_dir_id(self.dirs@, pd@[j].id@);
                        k >= 0 && restored_dir(pd@[j], self.dirs@[k])
                    },
                forall|k: int|
                    0 <= k < self.dirs@.len() && (#[trigger] self.dirs@[k]).deleted_at is None
                        ==> has_live_dir_id(pd@, self.dirs@[k].id@),
            decreases pd@.len() - q,
        {
            let ghost before = self.dirs@;
            if pd[q].deleted_at.is_none() {
                self.restore_one_dir(&pd[q]);
                proof {
                    let did = pd@[q as int].id@;
                    assert forall|j: int|
                        0 <= j < q + 1 && (#[trigger] pd@[j]).deleted_at is None implies {
                            let k = first_dir_id(self.dirs@, pd@[j].id@);
                            k >= 0 && restored_dir(pd@[j], self.dirs@[k])
                        } by {
                        if j < q {
                            assert(pd@[j].id@ != did);
                            let g = pd@[j].id@;
                            lemma_first_dir_id(before, g);
                            let kb = first_dir_id(before, g);
                            assert(kb >= 0);
                            assert forall|k2: int| 0 <= k2 <= kb implies #[trigger] self.dirs@[k2].id@
                                == before[k2].id@ by {}
                            lemma_first_dir_id_frame(before, self.dirs@, g);
                            assert(before[kb].id@ == g);
                            assert(self.dirs@[kb] == before[kb]);
                        }
                    }
                    assert forall|k2: int|
                        0 <= k2 < self.dirs@.len() && (#[trigger] self.dirs@[k2]).deleted_at is None
                            implies has_live_dir_id(pd@, self.dirs@[k2].id@) by {
                        if self.dirs@[k2].id@ == did {
                            assert(pd@[q as int].deleted_at is None);
                        } else {
                            assert(k2 < before.len());
                            assert(before[k2].id@ != did);
                            assert(self.dirs@[k2] == before[k2]);
                        }
                    }
                }
            }
            q = q + 1;
        }
        proof {
            assert forall|k: int|
                0 <= k < self.dirs@.len() && (#[trigger] self.dirs@[k]).deleted_at is None implies exists|j: int|
                0 <= j < past.dirs@.len() && (#[trigger] past.dirs@[j]).deleted_at is None && restored_dir(
                    past.dirs@[j],
                    self.dirs@[k],
                ) by {
                let id = self.dirs@[k].id@;
                assert(has_live_dir_id(pd@, id));
                let j = choose|j: int| 0 <= j < pd@.len() && (#[trigger] pd@[j]).deleted_at is None && pd@[j].id@ == id;
                lemma_unique_first_dir_id(self.dirs@, k);
                assert(restored_dir(pd@[j], self.dirs@[first_dir_id(self.dirs@, pd@[j].id@)]));
            }
        }
    }
}

} // verus!
