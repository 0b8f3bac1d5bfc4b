//! Points in time and spans of time, counted in nanoseconds.
use vstd::prelude::*;

verus! {

/// A span of time, in nanoseconds.
#[derive(Debug, Clone, Copy, PartialEq, Eq, Structural)]
pub struct Duration {
    pub nanos: u128,
}

/// A point in time, in nanoseconds since the Unix epoch.
#[derive(Debug, Clone, Copy, PartialEq, Eq, Structural)]
pub struct Instant {
    pub nanos: u128,
}

pub open spec fn nanos_per_sec() -> u128 {
    1_000_000_000
}

pub open spec fn nanos_per_milli() -> u128 {
    1_000_000
}

impl Duration {
    pub fn zero() -> (d: Duration)
        ensures
            d.nanos == 0,
    {
        Duration { nanos: 0 }
    }

    pub fn from_secs(secs: u64) -> (d: Duration)
        ensures
            d.nanos == secs * nanos_per_sec(),
    {
        assert(secs * 1_000_000_000u128 <= u128::MAX) by (nonlinear_arith)
            requires
                secs <= u64::MAX,
        ;
        Duration { nanos: (secs as u128) * 1_000_000_000 }
    }

    pub fn from_millis(millis: u64) -> (d: Duration)
        ensures
            d.nanos == millis * nanos_per_milli(),
    {
        assert(millis * 1_000_000u128 <= u128::MAX) by (nonlinear_arith)
            requires
                millis <= u64::MAX,
        ;
        Duration { nanos: (millis as u128) * 1_000_000 }
    }

    pub fn from_nanos(nanos: u128) -> (d: Duration)
        ensures
            d.nanos == nanos,
    {
        Duration { nanos }
    }

    pub fn is_zero(&self) -> (b: bool)
        ensures
            b == (self.nanos == 0),
    {
        self.nanos == 0
    }

    pub fn as_nanos(&self) -> (n: u128)
        ensures
            n == self.nanos,
    {
        self.nanos
    }
}

/// Reads the wall clock as nanoseconds since the Unix epoch, through
/// `std::time::SystemTime::elapsed` on `UNIX_EPOCH`; a clock set before the
/// epoch reads as zero. Nothing is promised of the value.
#[verifier::external_body]
fn clock_nanos() -> u128 {
    match std::time::UNIX_EPOCH.elapsed() {
        Ok(d) => d.as_nanos(),
        Err(_) => 0,
    }
}

/// The instant `d` after `i`, or the largest representable instant when that
/// lies beyond it.
pub open spec fn instant_after(i: Instant, d: Duration) -> Instant {
    Instant {
        nanos: if i.nanos + d.nanos <= u128::MAX {
            (i.nanos + d.nanos) as u128
        } else {
            u128::MAX
        },
    }
}

/// The time elapsed from `earlier` to `later`, or zero when `earlier` is later.
pub open spec fn elapsed_between(earlier: Instant, later: Instant) -> Duration {
    Duration {
        nanos: if later.nanos >= earlier.nanos {
            (later.nanos - earlier.nanos) as u128
        } else {
            0
        },
    }
}

impl Instant {
    /// The current time. Nothing is known of the value it returns.
    pub fn now() -> Instant {
        Instant { nanos: clock_nanos() }
    }

    pub fn from_nanos(nanos: u128) -> (i: Instant)
        ensures
            i.nanos == nanos,
    {
        Instant { nanos }
    }

    /// The instant `d` after `self`, saturating at the largest representable instant.
    pub fn add_duration(&self, d: Duration) -> (i: Instant)
        ensures
            i == instant_after(*self, d),
    {
        Instant { nanos: self.nanos.saturating_add(d.nanos) }
    }

    /// The time elapsed from `earlier` to `self`, or zero when `earlier` is later.
    pub fn duration_since(&self, earlier: Instant) -> (d: Duration)
        ensures
            d == elapsed_between(earlier, *self),
    {
        if self.nanos >= earlier.nanos {
            Duration { nanos: self.nanos - earlier.nanos }
        } else {
            Duration { nanos: 0 }
        }
    }
}

} // verus!
