//! Wall-clock measurement around solver invocations. Readings come from the
//! process's monotonic clock, so nothing can be promised about their values;
//! every contract downstream treats durations as opaque measurements.

use vstd::prelude::*;

verus! {

#[verifier::external_type_specification]
#[verifier::external_body]
pub struct ExInstant(std::time::Instant);

/// Relies on std::time::Instant::now: an opaque reading of the monotonic
/// clock. The value depends on the time of the call, so nothing is promised
/// of it.
#[verifier::external_body]
pub(crate) fn now() -> std::time::Instant {
    std::time::Instant::now()
}

/// Relies on std::time::Instant::elapsed: the time since `start`, converted
/// to whole microseconds. The value depends on the clock, so nothing is
/// promised of it.
#[verifier::external_body]
pub(crate) fn elapsed_micros(start: &std::time::Instant) -> u128 {
    start.elapsed().as_micros()
}

} // verus!
