//! Time spans and instants as plain nanosecond counts, so that retry and
//! circuit-breaker policy can be stated and proved over integers. A
//! [`Duration`] covers exactly the range of the standard library's duration
//! (up to `u64::MAX` seconds and 999,999,999 nanoseconds); an [`Instant`]
//! counts nanoseconds from an origin chosen by whoever supplies the clock.

use vstd::prelude::*;

verus! {

/// The largest duration, in nanoseconds.
pub const NANOS_MAX: u128 = 18_446_744_073_709_551_615_999_999_999;

/// A span of time with nanosecond precision.
#[derive(Clone, Copy, Debug, PartialEq, Eq, Structural, PartialOrd, Ord, Hash)]
pub struct Duration {
    nanos: u128,
}

impl Duration {
    /// The span in nanoseconds.
    pub closed spec fn ns(self) -> nat {
        self.nanos as nat
    }

    /// Every span lies within the standard library's duration range.
    #[verifier::type_invariant]
    spec fn within_range(self) -> bool {
        self.nanos <= NANOS_MAX
    }

    /// The empty span.
    pub fn zero() -> (r: Duration)
        ensures
            r.ns() == 0,
    {
        Duration { nanos: 0 }
    }

    /// `secs` whole seconds.
    pub fn from_secs(secs: u64) -> (r: Duration)
        ensures
            r.ns() == secs * 1_000_000_000,
    {
        Duration { nanos: secs as u128 * 1_000_000_000 }
    }

    /// `millis` milliseconds.
    pub fn from_millis(millis: u64) -> (r: Duration)
        ensures
            r.ns() == millis * 1_000_000,
    {
        Duration { nanos: millis as u128 * 1_000_000 }
    }

    /// `nanos` nanoseconds.
    pub fn from_nanos(nanos: u64) -> (r: Duration)
        ensures
            r.ns() == nanos,
    {
        Duration { nanos: nanos as u128 }
    }

    /// The span in whole nanoseconds.
    pub fn as_nanos(&self) -> (r: u128)
        ensures
            r == self.ns(),
            r <= NANOS_MAX,
    {
        proof {
            use_type_invariant(self);
        }
        self.nanos
    }

    /// The span in whole milliseconds, rounded down.
    pub fn as_millis(&self) -> (r: u128)
        ensures
            r == self.ns() / 1_000_000,
    {
        self.nanos / 1_000_000
    }

    /// The difference, or zero where `other` is the longer.
    pub fn saturating_sub(self, other: Duration) -> (r: Duration)
        ensures
            r.ns() == if self.ns() > other.ns() {
                (self.ns() - other.ns()) as nat
            } else {
                0
            },
    {
        proof {
            use_type_invariant(&self);
        }
        if self.nanos > other.nanos {
            Duration { nanos: self.nanos - other.nanos }
        } else {
            Duration { nanos: 0 }
        }
    }

    /// The sum, or the largest duration where the sum would exceed it.
    pub fn saturating_add(self, other: Duration) -> (r: Duration)
        ensures
            r.ns() == sat_nanos(self.ns() + other.ns()),
    {
        proof {
            use_type_invariant(self);
            use_type_invariant(other);
        }
        let sum = self.nanos + other.nanos;
        if sum > NANOS_MAX {
            Duration { nanos: NANOS_MAX }
        } else {
            Duration { nanos: sum }
        }
    }

    /// The span multiplied by `k`, or `None` where the product would exceed
    /// the largest duration.
    pub fn checked_mul(self, k: u32) -> (r: Option<Duration>)
        ensures
            match r {
                Some(d) => self.ns() * k <= NANOS_MAX && d.ns() == self.ns() * k,
                None => self.ns() * k > NANOS_MAX,
            },
    {
        proof {
            use_type_invariant(self);
        }
        if k == 0 {
            return Some(Duration { nanos: 0 });
        }
        if self.nanos > NANOS_MAX / (k as u128) {
            proof {
                assert(self.nanos * k > NANOS_MAX) by (nonlinear_arith)
                    requires
                        self.nanos > NANOS_MAX / (k as u128),
                        k > 0,
                ;
            }
            None
        } else {
            proof {
                assert(self.nanos * k <= NANOS_MAX) by (nonlinear_arith)
                    requires
                        self.nanos <= NANOS_MAX / (k as u128),
                        k > 0,
                ;
            }
            Some(Duration { nanos: self.nanos * k as u128 })
        }
    }
}

/// A nanosecond count saturated at the largest duration.
pub open spec fn sat_nanos(n: nat) -> nat {
    if n > NANOS_MAX {
        NANOS_MAX as nat
    } else {
        n
    }
}

/// A point in time, in nanoseconds from the clock's origin.
#[derive(Clone, Copy, Debug, PartialEq, Eq, Structural, PartialOrd, Ord, Hash)]
pub struct Instant {
    nanos: u128,
}

impl Instant {
    /// Nanoseconds from the origin.
    pub closed spec fn ns(self) -> nat {
        self.nanos as nat
    }

    /// The instant `nanos` nanoseconds after the origin.
    pub fn from_nanos(nanos: u128) -> (r: Instant)
        ensures
            r.ns() == nanos,
    {
        Instant { nanos }
    }

    /// Nanoseconds from the origin.
    pub fn as_nanos(&self) -> (r: u128)
        ensures
            r == self.ns(),
    {
        self.nanos
    }

    /// Strictly earlier than `other`.
    pub fn is_before(&self, other: &Instant) -> (r: bool)
        ensures
            r == (self.ns() < other.ns()),
    {
        self.nanos < other.nanos
    }

    /// The instant `d` later, or `None` where it cannot be represented.
    pub fn checked_add(self, d: Duration) -> (r: Option<Instant>)
        ensures
            match r {
                Some(t) => t.ns() == self.ns() + d.ns(),
                None => self.ns() + d.ns() > u128::MAX,
            },
    {
        let n = d.as_nanos();
        if self.nanos > u128::MAX - n {
            None
        } else {
            Some(Instant { nanos: self.nanos + n })
        }
    }
}

} // verus!
