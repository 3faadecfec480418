//! Lengths of time in whole nanoseconds.
use vstd::prelude::*;

verus! {

/// A length of time.
#[derive(Debug, Clone, Copy, PartialEq, Eq, PartialOrd, Ord, Hash, Structural)]
pub struct Duration {
    pub nanos: u128,
}

impl Duration {
    pub fn from_nanos(nanos: u64) -> (duration: Self)
        ensures
            duration.nanos == nanos,
    {
        Duration { nanos: nanos as u128 }
    }

    pub fn from_micros(micros: u64) -> (duration: Self)
        ensures
            duration.nanos == micros * 1000,
    {
        Duration { nanos: micros as u128 * 1000 }
    }

    pub fn from_millis(millis: u64) -> (duration: Self)
        ensures
            duration.nanos == millis * 1000000,
    {
        Duration { nanos: millis as u128 * 1000000 }
    }

    pub fn from_secs(seconds: u64) -> (duration: Self)
        ensures
            duration.nanos == seconds * 1000000000,
    {
        Duration { nanos: seconds as u128 * 1000000000 }
    }

    pub fn is_zero(&self) -> (zero: bool)
        ensures
            zero == (self.nanos == 0),
    {
        self.nanos == 0
    }
}

} // verus!
