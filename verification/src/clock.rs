//! The supervisor's monotonic clock: nanoseconds since the clock was created.
use std::time::{Duration, Instant};

use vstd::prelude::*;

verus! {

/// `std::time::Instant`, carried opaquely.
#[verifier::external_type_specification]
#[verifier::external_body]
pub struct ExInstant(Instant);

/// `std::time::Instant::now`: the current instant. Nothing is stated of it.
#[verifier::external_body]
fn instant_now() -> Instant {
    Instant::now()
}

/// `std::time::Instant::elapsed`: the time since `started`. Nothing is stated of it.
#[verifier::external_body]
fn instant_elapsed(started: &Instant) -> Duration {
    started.elapsed()
}

/// The total number of whole milliseconds in a duration, as `Duration::as_millis` gives it.
pub uninterp spec fn whole_millis(d: Duration) -> u128;

/// `std::time::Duration::as_millis`: the whole milliseconds of `d`, named by `whole_millis`.
#[verifier::external_body]
fn duration_as_millis(d: &Duration) -> (res: u128)
    ensures
        res == whole_millis(*d),
{
    d.as_millis()
}

/// `std::time::Duration::as_nanos`: the whole nanoseconds of `d`. Nothing is stated of it.
#[verifier::external_body]
fn duration_as_nanos(d: &Duration) -> u128 {
    d.as_nanos()
}

/// `std::time::Duration::as_micros`: the whole microseconds of `d`. Nothing is stated of it.
#[verifier::external_body]
fn duration_as_micros(d: &Duration) -> u128 {
    d.as_micros()
}

/// `value` as a `u64`, or `u64::MAX` when it does not fit.
pub fn saturating_u64(value: u128) -> (res: u64)
    ensures
        res == (if value > u64::MAX {
            u64::MAX as int
        } else {
            value as int
        }),
{
    if value > u64::MAX as u128 {
        u64::MAX
    } else {
        value as u64
    }
}

/// The whole milliseconds of a duration, saturating at `u64::MAX`.
pub fn duration_millis(duration: &Duration) -> (res: u64)
    ensures
        res == (if whole_millis(*duration) > u64::MAX {
            u64::MAX as int
        } else {
            whole_millis(*duration) as int
        }),
{
    saturating_u64(duration_as_millis(duration))
}

/// The whole microseconds since `started`, saturating at `u64::MAX`.
pub fn elapsed_micros(started: &Instant) -> u64 {
    let elapsed = instant_elapsed(started);
    saturating_u64(duration_as_micros(&elapsed))
}

/// The supervisor's clock: monotonic nanoseconds since it was created.
#[derive(Debug)]
pub struct SystemCoordinatorClock {
    started: Instant,
}

impl SystemCoordinatorClock {
    /// A clock that starts now.
    pub fn new() -> Self {
        SystemCoordinatorClock { started: instant_now() }
    }

    /// Nanoseconds since the clock started.
    pub fn monotonic_now(&self) -> u128 {
        let elapsed = instant_elapsed(&self.started);
        duration_as_nanos(&elapsed)
    }
}

} // verus!
