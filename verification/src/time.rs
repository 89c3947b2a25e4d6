//! Time as plain numbers of nanoseconds.

use std::time::{Instant, SystemTime, UNIX_EPOCH};

use vstd::prelude::*;

verus! {

pub const NANOS_PER_SECOND: u128 = 1_000_000_000;

pub const NANOS_PER_MILLI: u128 = 1_000_000;

/// A span of time.
#[derive(Clone, Copy, Debug, PartialEq, Eq, Structural)]
pub struct Duration {
    pub nanos: u128,
}

impl Duration {
    /// A span of whole seconds.
    pub fn from_secs(seconds: u64) -> (r: Duration)
        ensures
            r.nanos == seconds * NANOS_PER_SECOND,
    {
        Duration { nanos: seconds as u128 * NANOS_PER_SECOND }
    }

    /// A span of whole milliseconds.
    pub fn from_millis(millis: u64) -> (r: Duration)
        ensures
            r.nanos == millis * NANOS_PER_MILLI,
    {
        Duration { nanos: millis as u128 * NANOS_PER_MILLI }
    }

    /// A span of nanoseconds.
    pub fn from_nanos(nanos: u128) -> (r: Duration)
        ensures
            r.nanos == nanos,
    {
        Duration { nanos }
    }

    /// The whole milliseconds of the span.
    pub fn as_millis(&self) -> (r: u128)
        ensures
            r == self.nanos / NANOS_PER_MILLI,
    {
        self.nanos / NANOS_PER_MILLI
    }

    /// Whether the span is empty.
    pub fn is_zero(&self) -> (r: bool)
        ensures
            r == (self.nanos == 0),
    {
        self.nanos == 0
    }
}

/// `std::time::Instant`, carried as an opaque value.
#[verifier::external_type_specification]
#[verifier::external_body]
pub struct ExInstant(std::time::Instant);

/// `Instant::now`: the reading is not constrained.
#[verifier::external_body]
fn read_instant() -> Instant {
    Instant::now()
}

/// `Instant::elapsed` in nanoseconds: the reading is not constrained.
#[verifier::external_body]
fn nanos_since(origin: &Instant) -> u128 {
    origin.elapsed().as_nanos()
}

/// `SystemTime::now` as milliseconds since the Unix epoch, `None` where the clock stands before
/// the epoch; the reading is not constrained.
#[verifier::external_body]
fn epoch_millis() -> Option<u128> {
    match SystemTime::now().duration_since(UNIX_EPOCH) {
        Ok(elapsed) => Some(elapsed.as_millis()),
        Err(_) => None,
    }
}

/// The milliseconds that are recorded of a clock reading: none where the clock could not be read,
/// and the largest number where they do not fit.
pub open spec fn recorded(reading: Option<u128>) -> u64 {
    match reading {
        None => 0,
        Some(millis) => if millis > u64::MAX {
            u64::MAX
        } else {
            millis as u64
        },
    }
}

/// The time that is recorded for a reading of the wall clock: zero before the epoch, and held
/// to the range of `u64`.
pub fn recorded_millis(reading: Option<u128>) -> (r: u64)
    ensures
        r == recorded(reading),
{
    match reading {
        None => 0,
        Some(millis) => {
            if millis > 0xffff_ffff_ffff_ffff {
                0xffff_ffff_ffff_ffff
            } else {
                millis as u64
            }
        },
    }
}

/// The wall-clock time in milliseconds since the Unix epoch, as [`recorded_millis`] holds it.
/// The reading is whatever the machine tells.
pub fn unix_time_ms() -> u64 {
    recorded_millis(epoch_millis())
}

/// A monotonic clock that tells nanoseconds since it was started.
#[derive(Clone, Copy)]
pub struct Clock {
    origin: Instant,
}

impl Clock {
    /// Starts a clock.
    pub fn start() -> Clock {
        Clock { origin: read_instant() }
    }

    /// Reads the clock. The reading is whatever the machine tells.
    pub fn now(&self) -> u128 {
        nanos_since(&self.origin)
    }
}

/// What is left of a span that ends at `deadline`.
pub open spec fn remaining(deadline: u128, now: u128) -> nat {
    if now >= deadline {
        0
    } else {
        (deadline - now) as nat
    }
}

/// Computes [`remaining`].
pub fn remaining_until(deadline: u128, now: u128) -> (r: Duration)
    ensures
        r.nanos == remaining(deadline, now),
{
    if now >= deadline {
        Duration { nanos: 0 }
    } else {
        Duration { nanos: deadline - now }
    }
}

} // verus!
