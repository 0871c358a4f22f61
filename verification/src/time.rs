//! Points in time and durations.
use vstd::prelude::*;

verus! {

/// A point in time, in milliseconds.
#[derive(Clone, Copy, Debug, PartialEq, Eq, Structural)]
pub struct LocalTime {
    pub millis: u128,
}

/// A length of time, in milliseconds.
#[derive(Clone, Copy, Debug, PartialEq, Eq, Structural)]
pub struct LocalDuration {
    pub millis: u128,
}

impl LocalDuration {
    /// A number of seconds.
    pub fn from_secs(secs: u64) -> (duration: LocalDuration)
        ensures
            duration.millis == secs * 1000,
    {
        LocalDuration { millis: secs as u128 * 1000 }
    }

    /// A number of minutes.
    pub fn from_mins(mins: u64) -> (duration: LocalDuration)
        ensures
            duration.millis == mins * 60 * 1000,
    {
        LocalDuration { millis: mins as u128 * 60 * 1000 }
    }
}

} // verus!
