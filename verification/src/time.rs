//! Spans of time and points on the system clock, as whole nanoseconds.

use vstd::prelude::*;

verus! {

pub const NANOS_PER_SEC: u128 = 1_000_000_000;

pub const NANOS_PER_MILLI: u128 = 1_000_000;

pub const NANOS_PER_MICRO: u128 = 1_000;

/// One past the longest span, in nanoseconds: spans hold up to `u64::MAX`
/// seconds and a fraction.
pub const SPAN_LIMIT: u128 = 18_446_744_073_709_551_616_000_000_000;

/// A non-negative span of time.
#[derive(Clone, Copy, Debug, PartialEq, Eq, Structural, PartialOrd, Ord, Hash)]
pub struct Duration {
    nanos: u128,
}

impl View for Duration {
    type V = nat;

    /// The length in nanoseconds.
    closed spec fn view(&self) -> nat {
        self.nanos as nat
    }
}

impl Duration {
    #[verifier::type_invariant]
    spec fn in_range(self) -> bool {
        self.nanos < SPAN_LIMIT
    }

    /// The span of so many nanoseconds.
    pub closed spec fn spanning(nanos: nat) -> Duration {
        Duration { nanos: nanos as u128 }
    }

    pub proof fn lemma_spanning(nanos: nat)
        requires
            nanos < SPAN_LIMIT,
        ensures
            Duration::spanning(nanos)@ == nanos,
    {
    }

    pub fn from_secs(secs: u64) -> (r: Duration)
        ensures
            r@ == secs * NANOS_PER_SEC,
    {
        Duration { nanos: secs as u128 * NANOS_PER_SEC }
    }

    pub fn from_millis(millis: u64) -> (r: Duration)
        ensures
            r@ == millis * NANOS_PER_MILLI,
            r == Duration::spanning((millis * NANOS_PER_MILLI) as nat),
    {
        Duration { nanos: millis as u128 * NANOS_PER_MILLI }
    }

    /// The span of `nanos` nanoseconds, or `None` when it is too long to
    /// be held.
    pub fn from_nanos(nanos: u128) -> (r: Option<Duration>)
        ensures
            r is Some <==> nanos < SPAN_LIMIT,
            r matches Some(d) ==> d@ == nanos,
    {
        if nanos < SPAN_LIMIT {
            Some(Duration { nanos })
        } else {
            None
        }
    }

    pub fn as_nanos(&self) -> (r: u128)
        ensures
            r == self@,
            r < SPAN_LIMIT,
    {
        proof {
            use_type_invariant(self);
        }
        self.nanos
    }

    /// Whole microseconds, the fraction cut off.
    pub fn as_micros(&self) -> (r: u128)
        ensures
            r == self@ / (NANOS_PER_MICRO as nat),
            r < 18_446_744_073_709_551_616_000_000,
    {
        proof {
            use_type_invariant(self);
        }
        self.nanos / NANOS_PER_MICRO
    }

    /// Whole milliseconds, the fraction cut off.
    pub fn as_millis(&self) -> (r: u128)
        ensures
            r == self@ / (NANOS_PER_MILLI as nat),
    {
        self.nanos / NANOS_PER_MILLI
    }

    /// Whole seconds, the fraction cut off.
    pub fn as_secs(&self) -> (r: u64)
        ensures
            r == self@ / (NANOS_PER_SEC as nat),
    {
        proof {
            use_type_invariant(self);
        }
        (self.nanos / NANOS_PER_SEC) as u64
    }
}

/// A point on the system clock: nanoseconds since the Unix epoch, negative
/// before it.
#[derive(Clone, Copy, Debug, PartialEq, Eq, Structural, PartialOrd, Ord, Hash)]
pub struct SystemTime {
    pub unix_nanos: i128,
}

impl SystemTime {
    /// The point `secs` whole seconds after the Unix epoch.
    pub fn from_unix_secs(secs: u64) -> (r: SystemTime)
        ensures
            r.unix_nanos == secs * NANOS_PER_SEC,
    {
        SystemTime { unix_nanos: secs as i128 * 1_000_000_000 }
    }
}

} // verus!
