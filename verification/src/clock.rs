//! A monotonic clock: milliseconds elapsed since a starting instant.

use vstd::prelude::*;

verus! {

#[verifier::external_type_specification]
#[verifier::external_body]
pub struct ExInstant(std::time::Instant);

/// `std::time::Instant::now()`. Nothing is promised of the value.
#[verifier::external_body]
pub(crate) fn instant_now() -> (r: std::time::Instant) {
    std::time::Instant::now()
}

/// `start.elapsed()` in whole milliseconds (`i64::MAX` past what an `i64`
/// holds). What the clock reads is the machine's; the documentation of
/// `Duration` promises only that it is not negative.
#[verifier::external_body]
pub(crate) fn millis_since(start: &std::time::Instant) -> (r: i64)
    ensures
        r >= 0,
{
    i64::try_from(start.elapsed().as_millis()).unwrap_or(i64::MAX)
}

} // verus!
