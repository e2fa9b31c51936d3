//! Coalescing watcher events: the last event for a path wins, and it is
//! handled once the path has been quiet for 150 ms.

use crate::fs::adapter::FsEvent;
use vstd::prelude::*;

verus! {

/// How long a path must stay quiet, in milliseconds.
pub const DEBOUNCE_MS: i64 = 150;

/// The path an event is filed under: the path touched or removed, or the
/// new path of a rename.
pub open spec fn event_key(e: FsEvent) -> Seq<char> {
    match e {
        FsEvent::Touched(p) => p@,
        FsEvent::Removed(p) => p@,
        FsEvent::Renamed { from: _, to } => to@,
    }
}

/// A pending event and when it falls due.
pub type Pending = (FsEvent, i64);

/// `s` without the events filed under `k`.
pub open spec fn without_key(s: Seq<Pending>, k: Seq<char>) -> Seq<Pending>
    decreases s.len(),
{
    if s.len() == 0 {
        s
    } else if event_key(s.last().0) == k {
        without_key(s.drop_last(), k)
    } else {
        without_key(s.drop_last(), k).push(s.last())
    }
}

/// Whether a pending event is handled at `now`.
pub open spec fn is_due(p: Pending, now: i64, force_all: bool) -> bool {
    force_all || p.1 <= now
}

/// The pending events due at `now`, in order.
pub open spec fn due(s: Seq<Pending>, now: i64, force_all: bool) -> Seq<Pending>
    decreases s.len(),
{
    if s.len() == 0 {
        s
    } else if is_due(s.last(), now, force_all) {
        due(s.drop_last(), now, force_all).push(s.last())
    } else {
        due(s.drop_last(), now, force_all)
    }
}

/// The pending events not yet due at `now`, in order.
pub open spec fn not_due(s: Seq<Pending>, now: i64, force_all: bool) -> Seq<Pending>
    decreases s.len(),
{
    if s.len() == 0 {
        s
    } else if !is_due(s.last(), now, force_all) {
        not_due(s.drop_last(), now, force_all).push(s.last())
    } else {
        not_due(s.drop_last(), now, force_all)
    }
}

/// Events waiting for their path to go quiet.
pub struct Debouncer {
    pending: Vec<(FsEvent, i64)>,
}

fn key_of(e: &FsEvent) -> (r: &String)
    ensures
        r@ == event_key(*e),
{
    match e {
        FsEvent::Touched(p) => p,
        FsEvent::Removed(p) => p,
        FsEvent::Renamed { from: _, to } => to,
    }
}

impl View for Debouncer {
    type V = Seq<Pending>;

    closed spec fn view(&self) -> Seq<Pending> {
        self.pending@
    }
}

impl Debouncer {
    pub fn new() -> (r: Debouncer)
        ensures
            r@ == Seq::<Pending>::empty(),
    {
        Debouncer { pending: Vec::new() }
    }

    /// Files `ev` under its path, due `DEBOUNCE_MS` after `now`, replacing
    /// any event already waiting there.
    pub fn insert(&mut self, ev: FsEvent, now: i64)
        requires
            now <= i64::MAX - DEBOUNCE_MS,
        ensures
            final(self)@ == without_key(old(self)@, event_key(ev)).push((ev, (now + DEBOUNCE_MS) as i64)),
    {
        let k = key_of(&ev).clone();
        let mut kept: Vec<(FsEvent, i64)> = Vec::new();
        let ghost s0 = self.pending@;
        let mut rest: Vec<(FsEvent, i64)> = Vec::new();
        std::mem::swap(&mut rest, &mut self.pending);
        assert(rest@ == s0);
        let ghost all = rest@;
        while rest.len() > 0
            invariant
                kept@ == without_key(all.take(all.len() - rest@.len()), k@),
                rest@ == all.skip(all.len() - rest@.len()),
                rest@.len() <= all.len(),
                k@ == event_key(ev),
            decreases rest@.len(),
        {
            let ghost n = all.len() - rest@.len();
            let item = rest.remove(0);
            proof {
                assert(all.take(n + 1).drop_last() =~= all.take(n));
                assert(all.take(n + 1).last() == item);
                assert(rest@ =~= all.skip(n + 1));
            }
            let same = *key_of(&item.0) == k;
            if !same {
                kept.push(item);
            }
        }
        assert(all.take(all.len() as int) =~= all);
        kept.push((ev, now + DEBOUNCE_MS));
        self.pending = kept;
    }

    /// Takes out the events due at `now` (all of them when `force_all`),
    /// in the order they were filed.
    pub fn take_expired(&mut self, now: i64, force_all: bool) -> (r: Vec<FsEvent>)
        ensures
            r@ == due(old(self)@, now, force_all).map_values(|p: Pending| p.0),
            final(self)@ == not_due(old(self)@, now, force_all),
    {
        let mut out: Vec<FsEvent> = Vec::new();
        let mut kept: Vec<(FsEvent, i64)> = Vec::new();
        let mut rest: Vec<(FsEvent, i64)> = Vec::new();
        std::mem::swap(&mut rest, &mut self.pending);
        let ghost all = rest@;
        while rest.len() > 0
            invariant
                out@ == due(all.take(all.len() - rest@.len()), now, force_all).map_values(|p: Pending| p.0),
                kept@ == not_due(all.take(all.len() - rest@.len()), now, force_all),
                rest@ == all.skip(all.len() - rest@.len()),
                rest@.len() <= all.len(),
            decreases rest@.len(),
        {
            let ghost n = all.len() - rest@.len();
            let item = rest.remove(0);
            proof {
                assert(all.take(n + 1).drop_last() =~= all.take(n));
                assert(all.take(n + 1).last() == item);
                assert(rest@ =~= all.skip(n + 1));
            }
            let ghost before = out@;
            if force_all || item.1 <= now {
                out.push(item.0);
                proof {
                    assert(out@ =~= due(all.take(n + 1), now, force_all).map_values(|p: Pending| p.0));
                }
            } else {
                kept.push(item);
            }
        }
        assert(all.take(all.len() as int) =~= all);
        self.pending = kept;
        out
    }

    /// Milliseconds until the next event falls due (0 if one already is),
    /// or an hour when nothing waits.
    pub fn next_wait(&self, now: i64) -> (r: u64)
        ensures
            self@.len() == 0 ==> r == 3_600_000,
            forall|i: int| 0 <= i < self@.len() ==> r <= (if self@[i].1 <= now { 0 } else { self@[i].1 - now }),
            self@.len() > 0 ==> exists|i: int|
                0 <= i < self@.len() && r == (if self@[i].1 <= now { 0 } else { self@[i].1 - now }),
    {
        if self.pending.len() == 0 {
            return 3_600_000;
        }
        let mut best: u64 = u64::MAX;
        let mut i: usize = 0;
        while i < self.pending.len()
            invariant
                i <= self.pending@.len(),
                self.pending@.len() > 0,
                forall|j: int| 0 <= j < i ==> best <= (if self.pending@[j].1 <= now { 0 } else { self.pending@[j].1 - now }),
                i > 0 ==> exists|j: int|
                    0 <= j < i && best == (if self.pending@[j].1 <= now { 0 } else { self.pending@[j].1 - now }),
            decreases self.pending@.len() - i,
        {
            let t = self.pending[i].1;
            let w: u64 = if t <= now {
                0
            } else {
                ((t as i128) - (now as i128)) as u64
            };
            if i == 0 || w < best {
                best = w;
            }
            i = i + 1;
        }
        best
    }
}

/// An event filed at `now` is handed out once its quiet period is over,
/// unless a later event for the same path replaced it.
pub proof fn lemma_insert_then_due(s: Seq<Pending>, ev: FsEvent, now: i64)
    requires
        now <= i64::MAX - DEBOUNCE_MS,
    ensures
        ({
            let s2 = without_key(s, event_key(ev)).push((ev, (now + DEBOUNCE_MS) as i64));
            due(s2, (now + DEBOUNCE_MS) as i64, false).last() == (ev, (now + DEBOUNCE_MS) as i64)
        }),
{
}

} // verus!
