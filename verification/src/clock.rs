//! The filter's clock: milliseconds since the filter was built.

use std::time::{Duration, Instant};

use vstd::prelude::*;

use crate::ledger::saturated;

verus! {

/// `std::time::Instant`, a reading of the monotonic clock.
#[verifier::external_type_specification]
#[verifier::external_body]
pub struct ExInstant(std::time::Instant);

/// `std::time::Instant::now` reads the clock. The reading depends on when it is
/// taken, so nothing is claimed of it.
pub assume_specification[ std::time::Instant::now ]() -> std::time::Instant;

/// `std::time::Instant::elapsed` is the time since a reading. It depends on when
/// it is asked for, so nothing is claimed of it.
pub assume_specification[ std::time::Instant::elapsed ](
    reading: &std::time::Instant,
) -> std::time::Duration;

/// The whole milliseconds that a duration contains.
pub uninterp spec fn whole_millis(duration: std::time::Duration) -> u128;

/// `std::time::Duration::as_millis` counts the whole milliseconds that the
/// duration contains.
pub assume_specification[ std::time::Duration::as_millis ](duration: &std::time::Duration) -> (ms:
    u128)
    ensures
        ms == whole_millis(*duration),
;

/// What `clock` reads, as one of the readings that it may give.
pub(crate) fn read_clock<F: Fn() -> Instant>(clock: F) -> (reading: Instant)
    requires
        call_requires(clock, ()),
    ensures
        call_ensures(clock, (), reading),
{
    clock()
}

/// What `measure` makes of `reading`, as one of the durations that it may give
/// for that reading.
pub(crate) fn time_since<F: Fn(&Instant) -> Duration>(measure: F, reading: &Instant) -> (elapsed:
    Duration)
    requires
        call_requires(measure, (reading,)),
    ensures
        call_ensures(measure, (reading,), elapsed),
{
    measure(reading)
}

/// `elapsed_ms` as a ledger timestamp: the largest one if it does not fit.
pub fn saturate_millis(elapsed_ms: u128) -> (now_ms: u64)
    ensures
        now_ms == saturated(elapsed_ms as int),
{
    if elapsed_ms <= u64::MAX as u128 {
        elapsed_ms as u64
    } else {
        u64::MAX
    }
}

} // verus!
