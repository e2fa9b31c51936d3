//! Retrying the rendezvous connection with exponential backoff.

use vstd::prelude::*;

verus! {

/// How a lost rendezvous connection is retried. Durations are in
/// milliseconds.
#[derive(Clone, Copy, Debug)]
pub struct ReconnectOptions {
    pub max_attempts: u32,
    pub initial_backoff: u64,
    pub max_backoff: u64,
}

impl Default for ReconnectOptions {
    /// Ten attempts, starting at half a second and capped at thirty.
    fn default() -> (r: ReconnectOptions)
        ensures
            r.max_attempts == 10,
            r.initial_backoff == 500,
            r.max_backoff == 30_000,
    {
        ReconnectOptions { max_attempts: 10, initial_backoff: 500, max_backoff: 30_000 }
    }
}

/// `2^e`.
pub open spec fn pow2(e: nat) -> nat
    decreases e,
{
    if e == 0 {
        1
    } else {
        2 * pow2((e - 1) as nat)
    }
}

/// The wait before the attempt after attempt number `attempt` (from 1):
/// `initial` doubled once per earlier attempt (at most twenty times),
/// saturating at `u64::MAX`, then capped at `cap`.
pub open spec fn backoff_spec(initial: u64, cap: u64, attempt: u32) -> int {
    let e: nat = if attempt == 0 {
        0
    } else if attempt - 1 > 20 {
        20
    } else {
        (attempt - 1) as nat
    };
    let m = if initial * pow2(e) > u64::MAX {
        u64::MAX as int
    } else {
        initial * pow2(e)
    };
    if m < cap {
        m
    } else {
        cap as int
    }
}

/// The wait before retrying after attempt number `attempt` failed.
pub fn backoff_delay(initial: u64, cap: u64, attempt: u32) -> (r: u64)
    ensures
        r == backoff_spec(initial, cap, attempt),
{
    let e: u32 = if attempt == 0 {
        0
    } else if attempt - 1 > 20 {
        20
    } else {
        attempt - 1
    };
    let mut factor: u64 = 1;
    let mut k: u32 = 0;
    while k < e
        invariant
            k <= e <= 20,
            factor == pow2(k as nat),
            factor <= 0x100000,
        decreases e - k,
    {
        assert(pow2((k + 1) as nat) == 2 * pow2(k as nat));
        assert(factor * 2 <= 0x100000) by {
            lemma_pow2_bound(k as nat);
        }
        factor = factor * 2;
        k = k + 1;
    }
    let ghost es: nat = if attempt == 0 {
        0
    } else if attempt - 1 > 20 {
        20
    } else {
        (attempt - 1) as nat
    };
    assert(es == e as nat);
    assert(factor == pow2(es));
    let millis = match initial.checked_mul(factor) {
        Some(m) => m,
        None => u64::MAX,
    };
    assert(millis == if initial * pow2(es) > u64::MAX { u64::MAX as int } else { initial * pow2(es) });
    if millis < cap {
        millis
    } else {
        cap
    }
}

proof fn lemma_pow2_bound(k: nat)
    requires
        k < 20,
    ensures
        pow2(k) <= 0x80000,
{
    lemma_pow2_mono(k, 19);
    reveal_with_fuel(pow2, 20);
    assert(pow2(19) == 0x80000);
}

/// What to do after a failed connection attempt.
#[derive(Clone, Copy, Debug, PartialEq, Eq, Structural)]
pub enum RetryStep {
    /// Wait this many milliseconds, then try again.
    RetryAfter(u64),
    /// The attempts are used up.
    GiveUp,
}

/// The step after attempt number `attempt` failed: give up once
/// `max_attempts` attempts have been made, else wait the backoff.
pub fn after_failed_attempt(opts: &ReconnectOptions, attempt: u32) -> (r: RetryStep)
    ensures
        attempt >= opts.max_attempts ==> r == RetryStep::GiveUp,
        attempt < opts.max_attempts ==> r == RetryStep::RetryAfter(
            backoff_spec(opts.initial_backoff, opts.max_backoff, attempt) as u64,
        ),
{
    if attempt >= opts.max_attempts {
        RetryStep::GiveUp
    } else {
        RetryStep::RetryAfter(backoff_delay(opts.initial_backoff, opts.max_backoff, attempt))
    }
}

/// The wait never exceeds the cap and never shrinks from one attempt to
/// the next.
pub proof fn lemma_backoff_monotone(initial: u64, cap: u64, attempt: u32)
    requires
        attempt < u32::MAX,
    ensures
        backoff_spec(initial, cap, attempt) <= cap,
        backoff_spec(initial, cap, attempt) <= backoff_spec(initial, cap, (attempt + 1) as u32),
{
    let a = attempt;
    let e1: nat = if a == 0 { 0 } else if a - 1 > 20 { 20 } else { (a - 1) as nat };
    let b = (attempt + 1) as u32;
    let e2: nat = if b - 1 > 20 { 20 } else { (b - 1) as nat };
    assert(e1 <= e2);
    lemma_pow2_mono(e1, e2);
    assert(initial * pow2(e1) <= initial * pow2(e2)) by (nonlinear_arith)
        requires
            pow2(e1) <= pow2(e2),
    ;
}

proof fn lemma_pow2_mono(a: nat, b: nat)
    requires
        a <= b,
    ensures
        pow2(a) <= pow2(b),
    decreases b,
{
    if a < b {
        lemma_pow2_mono(a, (b - 1) as nat);
    }
}

} // verus!
