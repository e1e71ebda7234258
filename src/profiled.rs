//! A unit's output paired with the time the accelerator measured for it.

use std::time::Duration;
use vstd::prelude::*;

verus! {

/// Relies on `Duration`'s `Clone`: `Duration` is `Copy`, so a clone is the
/// same span.
pub assume_specification[ <std::time::Duration as Clone>::clone ](d: &Duration) -> (r: Duration)
    ensures
        r == *d,
;

/// The value computed by one accelerator command, with the device-measured
/// duration of that command.
#[derive(Clone, Debug)]
pub struct ProfiledResult<T> where T: Send + Sync + Clone {
    duration: Duration,
    value: T,
}

impl<T> ProfiledResult<T> where T: Send + Sync + Clone {
    /// The measured duration.
    pub closed spec fn spec_duration(&self) -> Duration {
        self.duration
    }

    /// The value.
    pub closed spec fn spec_value(&self) -> T {
        self.value
    }

    /// Pairs `value` with the `duration` measured for it.
    pub fn new(duration: Duration, value: T) -> (r: Self)
        ensures
            r.spec_duration() == duration,
            r.spec_value() == value,
    {
        ProfiledResult { duration, value }
    }

    /// Returns the measured duration.
    pub fn duration(&self) -> (r: &Duration)
        ensures
            *r == self.spec_duration(),
    {
        &self.duration
    }

    /// Returns the value.
    pub fn value(&self) -> (r: &T)
        ensures
            *r == self.spec_value(),
    {
        &self.value
    }
}

/// The device time between two markers, in nanoseconds: from the end of the
/// start marker to the start of the stop marker. `None` when the stop marker
/// reports a time before the start marker's.
pub fn marker_interval(start_end_ns: u64, stop_start_ns: u64) -> (r: Option<u64>)
    ensures
        r is Some <==> start_end_ns <= stop_start_ns,
        r matches Some(d) ==> d == stop_start_ns - start_end_ns,
{
    if stop_start_ns < start_end_ns {
        None
    } else {
        Some(stop_start_ns - start_end_ns)
    }
}

} // verus!
