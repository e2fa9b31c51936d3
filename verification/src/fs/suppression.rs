//! Echo suppression: the `(path, content hash)` pairs this peer just wrote
//! to disk, so that the watcher event that write causes is not taken for a
//! local edit. Each entry lives five seconds and suppresses one event.

use crate::clock::{instant_now, millis_since};
use crate::text::{chars_eq, chars_of};
use vstd::prelude::*;

verus! {

/// How long an entry suppresses events, in milliseconds.
pub const TTL_MS: i64 = 5000;

/// One write: the vault path, the content hash, and when it was recorded.
pub type Mark = (Seq<char>, Seq<char>, i64);

/// Whether a mark made at `at` is still live at `now`.
pub open spec fn is_live(at: i64, now: i64) -> bool {
    now - at < TTL_MS
}

/// The marks still live at `now`, in order.
pub open spec fn live_marks(s: Seq<Mark>, now: i64) -> Seq<Mark>
    decreases s.len(),
{
    if s.len() == 0 {
        s
    } else if is_live(s.last().2, now) {
        live_marks(s.drop_last(), now).push(s.last())
    } else {
        live_marks(s.drop_last(), now)
    }
}

/// Index of the first mark for `path` with `hash`, or -1.
pub open spec fn first_match(s: Seq<Mark>, path: Seq<char>, hash: Seq<char>) -> int
    decreases s.len(),
{
    if s.len() == 0 {
        -1
    } else if first_match(s.drop_last(), path, hash) >= 0 {
        first_match(s.drop_last(), path, hash)
    } else if s.last().0 == path && s.last().1 == hash {
        s.len() - 1
    } else {
        -1
    }
}

/// The marks after recording `(path, hash)` at `now`.
pub open spec fn mark_spec(s: Seq<Mark>, path: Seq<char>, hash: Seq<char>, now: i64) -> Seq<Mark> {
    live_marks(s, now).push((path, hash, now))
}

/// Whether an event for `(path, hash)` at `now` is suppressed.
pub open spec fn consume_hit(s: Seq<Mark>, path: Seq<char>, hash: Seq<char>, now: i64) -> bool {
    first_match(live_marks(s, now), path, hash) >= 0
}

/// The marks after checking an event for `(path, hash)` at `now`: the live
/// ones, less the first that matched.
pub open spec fn consume_spec(s: Seq<Mark>, path: Seq<char>, hash: Seq<char>, now: i64) -> Seq<Mark> {
    let l = live_marks(s, now);
    let i = first_match(l, path, hash);
    if i >= 0 {
        l.remove(i)
    } else {
        l
    }
}

/// The marks were made at times that never go backwards.
pub open spec fn marks_ordered(s: Seq<Mark>) -> bool {
    forall|i: int, j: int| #![trigger s[i], s[j]] 0 <= i < j < s.len() ==> s[i].2 <= s[j].2
}

/// No mark was made after `t`.
pub open spec fn marks_not_after(s: Seq<Mark>, t: i64) -> bool {
    forall|i: int| 0 <= i < s.len() ==> (#[trigger] s[i]).2 <= t
}

proof fn lemma_live_keeps_order(s: Seq<Mark>, now: i64, t: i64)
    ensures
        marks_ordered(s) ==> marks_ordered(live_marks(s, now)),
        marks_not_after(s, t) ==> marks_not_after(live_marks(s, now), t),
    decreases s.len(),
{
    if s.len() > 0 {
        let d = s.drop_last();
        let last = s.last();
        lemma_live_keeps_order(d, now, t);
        lemma_live_keeps_order(d, now, last.2);
        let ld = live_marks(d, now);
        if marks_ordered(s) {
            assert(marks_ordered(d)) by {
                assert forall|i: int, j: int| #![trigger d[i], d[j]] 0 <= i < j < d.len() implies d[i].2 <= d[j].2 by {
                    assert(d[i] == s[i] && d[j] == s[j]);
                }
            }
            assert(marks_not_after(d, last.2)) by {
                assert forall|i: int| 0 <= i < d.len() implies (#[trigger] d[i]).2 <= last.2 by {
                    assert(d[i] == s[i]);
                    assert(s[i].2 <= s[s.len() - 1].2);
                }
            }
            if is_live(last.2, now) {
                let l = ld.push(last);
                assert forall|i: int, j: int| #![trigger l[i], l[j]] 0 <= i < j < l.len() implies l[i].2 <= l[j].2 by {
                    if j == l.len() - 1 {
                        assert(l[i] == ld[i]);
                    } else {
                        assert(l[i] == ld[i] && l[j] == ld[j]);
                    }
                }
            }
        }
        if marks_not_after(s, t) {
            assert(marks_not_after(d, t)) by {
                assert forall|i: int| 0 <= i < d.len() implies (#[trigger] d[i]).2 <= t by {
                    assert(d[i] == s[i]);
                }
            }
            assert(s[s.len() - 1].2 <= t);
            if is_live(last.2, now) {
                let l = ld.push(last);
                assert forall|i: int| 0 <= i < l.len() implies (#[trigger] l[i]).2 <= t by {
                    if i < ld.len() {
                        assert(l[i] == ld[i]);
                    }
                }
            }
        }
    }
}

/// A check that finds an echo uses up the earliest-made matching mark,
/// provided the marks were made at times that never go backwards (as
/// [`DirtySet::mark`] makes them).
pub proof fn lemma_consume_takes_earliest(s: Seq<Mark>, path: Seq<char>, hash: Seq<char>, now: i64)
    requires
        marks_ordered(s),
        consume_hit(s, path, hash, now),
    ensures
        ({
            let l = live_marks(s, now);
            let i = first_match(l, path, hash);
            &&& 0 <= i < l.len()
            &&& l[i].0 == path && l[i].1 == hash
            &&& consume_spec(s, path, hash, now) == l.remove(i)
            &&& forall|k: int|
                0 <= k < l.len() && (#[trigger] l[k]).0 == path && l[k].1 == hash ==> l[i].2 <= l[k].2
        }),
{
    let l = live_marks(s, now);
    lemma_live_keeps_order(s, now, 0);
    lemma_first_match(l, path, hash);
    let i = first_match(l, path, hash);
    assert forall|k: int| 0 <= k < l.len() && (#[trigger] l[k]).0 == path && l[k].1 == hash implies l[i].2
        <= l[k].2 by {
        if k > i {
            assert(l[i].2 <= l[k].2);
        }
    }
}

/// The writes this peer made recently. Times are milliseconds on a
/// monotonic clock that starts when the set is made.
pub struct DirtySet {
    entries: Vec<(String, String, i64)>,
    started: std::time::Instant,
}

impl View for DirtySet {
    type V = Seq<Mark>;

    closed spec fn view(&self) -> Seq<Mark> {
        self.entries@.map_values(|e: (String, String, i64)| (e.0@, e.1@, e.2))
    }
}

proof fn lemma_first_match(s: Seq<Mark>, path: Seq<char>, hash: Seq<char>)
    ensures
        -1 <= first_match(s, path, hash) < s.len(),
        first_match(s, path, hash) >= 0 ==> s[first_match(s, path, hash)].0 == path && s[first_match(
            s,
            path,
            hash,
        )].1 == hash,
        forall|k: int|
            0 <= k < s.len() && (first_match(s, path, hash) < 0 || k < first_match(s, path, hash))
                ==> !((#[trigger] s[k]).0 == path && s[k].1 == hash),
    decreases s.len(),
{
    if s.len() > 0 {
        lemma_first_match(s.drop_last(), path, hash);
        assert forall|k: int|
            0 <= k < s.len() && (first_match(s, path, hash) < 0 || k < first_match(s, path, hash))
                implies !((#[trigger] s[k]).0 == path && s[k].1 == hash) by {
            if k < s.len() - 1 {
                assert(s.drop_last()[k] == s[k]);
            }
        }
    }
}

impl DirtySet {
    pub fn new() -> (r: DirtySet)
        ensures
            r@ == Seq::<Mark>::empty(),
    {
        let r = DirtySet { entries: Vec::new(), started: instant_now() };
        assert(r@ =~= Seq::<Mark>::empty());
        r
    }

    /// Drops the marks that are no longer live at `now`.
    pub fn gc_at(&mut self, now: i64)
        ensures
            final(self)@ == live_marks(old(self)@, now),
            marks_ordered(old(self)@) ==> marks_ordered(final(self)@),
    {
        proof {
            lemma_live_keeps_order(self@, now, 0);
        }
        let ghost s0 = self@;
        let mut kept: Vec<(String, String, i64)> = Vec::new();
        let mut i: usize = 0;
        while i < self.entries.len()
            invariant
                i <= self.entries@.len(),
                s0 == self@,
                kept@.map_values(|e: (String, String, i64)| (e.0@, e.1@, e.2)) == live_marks(
                    s0.take(i as int),
                    now,
                ),
            decreases self.entries@.len() - i,
        {
            let at = self.entries[i].2;
            let ghost before = kept@.map_values(|e: (String, String, i64)| (e.0@, e.1@, e.2));
            proof {
                let t = s0.take(i + 1);
                assert(t.drop_last() =~= s0.take(i as int));
                assert(t.last() == s0[i as int]);
            }
            if (now as i128) - (at as i128) < (TTL_MS as i128) {
                let e = (self.entries[i].0.clone(), self.entries[i].1.clone(), at);
                kept.push(e);
                proof {
                    assert(kept@.map_values(|e: (String, String, i64)| (e.0@, e.1@, e.2)) =~= before.push(
                        s0[i as int],
                    ));
                }
            }
            i = i + 1;
        }
        assert(s0.take(s0.len() as int) =~= s0);
        self.entries = kept;
    }

    /// Records that this peer wrote `content_hash` to `path` at `now`.
    pub fn mark_at(&mut self, path: &str, content_hash: &str, now: i64)
        ensures
            final(self)@ == mark_spec(old(self)@, path@, content_hash@, now),
            marks_ordered(old(self)@) && marks_not_after(old(self)@, now) ==> marks_ordered(final(self)@),
    {
        proof {
            lemma_live_keeps_order(self@, now, now);
        }
        self.gc_at(now);
        let ghost s1 = self@;
        self.entries.push((String::from_str(path), String::from_str(content_hash), now));
        assert(self@ =~= s1.push((path@, content_hash@, now)));
        proof {
            if marks_ordered(s1) && marks_not_after(s1, now) {
                let l = self@;
                assert forall|i: int, j: int| #![trigger l[i], l[j]] 0 <= i < j < l.len() implies l[i].2 <= l[j].2 by {
                    assert(l[i] == s1[i]);
                    if j < s1.len() {
                        assert(l[j] == s1[j]);
                    }
                }
            }
        }
    }

    /// Whether a watcher event for `path` with `content_hash` at `now` is an
    /// echo of our own write; the matching mark is used up.
    pub fn check_and_consume_at(&mut self, path: &str, content_hash: &str, now: i64) -> (r: bool)
        ensures
            r == consume_hit(old(self)@, path@, content_hash@, now),
            final(self)@ == consume_spec(old(self)@, path@, content_hash@, now),
            marks_ordered(old(self)@) ==> marks_ordered(final(self)@),
    {
        self.gc_at(now);
        let ghost l = self@;
        proof {
            lemma_first_match(l, path@, content_hash@);
        }
        let p = chars_of(path);
        let h = chars_of(content_hash);
        let mut i: usize = 0;
        while i < self.entries.len()
            invariant
                i <= self.entries@.len(),
                l == self@,
                p@ == path@,
                h@ == content_hash@,
                l == live_marks(old(self)@, now),
                marks_ordered(old(self)@) ==> marks_ordered(l),
                first_match(l, path@, content_hash@) < 0 || i <= first_match(l, path@, content_hash@),
                -1 <= first_match(l, path@, content_hash@) < l.len(),
                first_match(l, path@, content_hash@) >= 0 ==> l[first_match(l, path@, content_hash@)].0
                    == path@ && l[first_match(l, path@, content_hash@)].1 == content_hash@,
                forall|k: int|
                    0 <= k < l.len() && (first_match(l, path@, content_hash@) < 0 || k < first_match(
                        l,
                        path@,
                        content_hash@,
                    )) ==> !((#[trigger] l[k]).0 == path@ && l[k].1 == content_hash@),
            decreases self.entries@.len() - i,
        {
            let ep = chars_of(self.entries[i].0.as_str());
            let eh = chars_of(self.entries[i].1.as_str());
            assert(l[i as int] == (self.entries@[i as int].0@, self.entries@[i as int].1@, self.entries@[i as int].2));
            if chars_eq(&ep, &p) && chars_eq(&eh, &h) {
                assert(first_match(l, path@, content_hash@) == i);
                self.entries.remove(i);
                assert(self@ =~= l.remove(i as int));
                proof {
                    if marks_ordered(l) {
                        let m = self@;
                        assert forall|a: int, b: int| #![trigger m[a], m[b]] 0 <= a < b < m.len() implies m[a].2
                            <= m[b].2 by {
                            let a1 = if a < i { a } else { a + 1 };
                            let b1 = if b < i { b } else { b + 1 };
                            assert(m[a] == l[a1] && m[b] == l[b1]);
                        }
                    }
                }
                return true;
            }
            i = i + 1;
        }
        false
    }

    /// The set's clock: milliseconds since it was made, on a monotonic
    /// clock. The `_at` methods take times on this clock.
    pub fn elapsed_ms(&self) -> (r: i64)
        ensures
            r >= 0,
    {
        millis_since(&self.started)
    }

    /// Records that this peer just wrote `content_hash` to `path`, at the
    /// clock's reading, or at the latest earlier mark's time should the
    /// reading be before it (a monotonic clock never is): marks are made
    /// at times that never go backwards.
    pub fn mark(&mut self, path: &str, content_hash: &str)
        ensures
            exists|now: i64|
                final(self)@ == mark_spec(old(self)@, path@, content_hash@, now) && marks_not_after(
                    old(self)@,
                    now,
                ),
            marks_ordered(old(self)@) ==> marks_ordered(final(self)@),
    {
        let mut now = millis_since(&self.started);
        let mut i: usize = 0;
        while i < self.entries.len()
            invariant
                i <= self.entries@.len(),
                forall|k: int| 0 <= k < i ==> (#[trigger] self@[k]).2 <= now,
            decreases self.entries@.len() - i,
        {
            assert(self@[i as int].2 == self.entries@[i as int].2);
            if self.entries[i].2 > now {
                now = self.entries[i].2;
            }
            i = i + 1;
        }
        let ghost s0 = self@;
        self.mark_at(path, content_hash, now);
        assert(marks_not_after(s0, now));
    }

    /// Whether a watcher event for `path` with `content_hash` is an echo of
    /// our own recent write; the matching mark is used up.
    pub fn check_and_consume(&mut self, path: &str, content_hash: &str) -> (r: bool)
        ensures
            exists|now: i64|
                r == consume_hit(old(self)@, path@, content_hash@, now) && final(self)@
                    == consume_spec(old(self)@, path@, content_hash@, now),
            marks_ordered(old(self)@) ==> marks_ordered(final(self)@),
    {
        let now = millis_since(&self.started);
        self.check_and_consume_at(path, content_hash, now)
    }

    /// Drops the marks that are no longer live.
    pub fn gc(&mut self)
        ensures
            exists|now: i64| final(self)@ == live_marks(old(self)@, now),
            marks_ordered(old(self)@) ==> marks_ordered(final(self)@),
    {
        let now = millis_since(&self.started);
        self.gc_at(now);
    }
}

proof fn lemma_live_keeps_fresh(s: Seq<Mark>, now: i64)
    ensures
        live_marks(s, now).len() <= s.len(),
        forall|k: int| 0 <= k < s.len() && is_live(s[k].2, now) ==> live_marks(s, now).contains(#[trigger] s[k]),
    decreases s.len(),
{
    if s.len() > 0 {
        lemma_live_keeps_fresh(s.drop_last(), now);
        assert forall|k: int| 0 <= k < s.len() && is_live(s[k].2, now) implies live_marks(s, now).contains(
            #[trigger] s[k],
        ) by {
            if k < s.len() - 1 {
                assert(s.drop_last()[k] == s[k]);
                let w = choose|w: int| 0 <= w < live_marks(s.drop_last(), now).len() && live_marks(s.drop_last(), now)[w] == s[k];
                if is_live(s.last().2, now) {
                    assert(live_marks(s, now)[w] == s[k]);
                }
            } else {
                assert(live_marks(s, now).last() == s[k]);
            }
        }
    }
}

/// A write just marked suppresses the event it causes at the same moment.
pub proof fn lemma_mark_then_consume(s: Seq<Mark>, path: Seq<char>, hash: Seq<char>, now: i64)
    ensures
        consume_hit(mark_spec(s, path, hash, now), path, hash, now),
{
    let m = mark_spec(s, path, hash, now);
    lemma_live_keeps_fresh(m, now);
    let last = m.len() - 1;
    assert(m[last] == (path, hash, now));
    assert(live_marks(m, now).contains(m[last]));
    let l = live_marks(m, now);
    lemma_first_match(l, path, hash);
    let w = choose|w: int| 0 <= w < l.len() && l[w] == m[last];
    assert(l[w].0 == path && l[w].1 == hash);
}

} // verus!
