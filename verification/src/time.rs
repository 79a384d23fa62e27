//! Spans of time and readings of a monotonic clock, in whole nanoseconds.

use vstd::prelude::*;

verus! {

/// Nanoseconds in a second.
pub const NANOS_PER_SEC: u128 = 1_000_000_000;

/// Nanoseconds in a millisecond.
pub const NANOS_PER_MILLI: u128 = 1_000_000;

/// The longest span: just under 2^64 seconds.
pub const MAX_NANOS: u128 = 18_446_744_073_709_551_615_999_999_999;

/// A span of time.
#[derive(Clone, Copy, Debug, PartialEq, Eq, PartialOrd, Hash, Structural)]
pub struct Duration {
    nanos: u128,
}

impl View for Duration {
    type V = nat;

    closed spec fn view(&self) -> nat {
        self.nanos as nat
    }
}

/// The smaller of two numbers.
pub open spec fn min_nat(a: nat, b: nat) -> nat {
    if a <= b {
        a
    } else {
        b
    }
}

/// The larger of two numbers.
pub open spec fn max_nat(a: nat, b: nat) -> nat {
    if a >= b {
        a
    } else {
        b
    }
}

impl Duration {
    #[verifier::type_invariant]
    spec fn representable(self) -> bool {
        self.nanos <= MAX_NANOS
    }

    pub fn from_secs(secs: u64) -> (r: Self)
        ensures
            r@ == secs * NANOS_PER_SEC,
    {
        Duration { nanos: secs as u128 * NANOS_PER_SEC }
    }

    pub fn from_millis(millis: u64) -> (r: Self)
        ensures
            r@ == millis * NANOS_PER_MILLI,
    {
        Duration { nanos: millis as u128 * NANOS_PER_MILLI }
    }

    pub fn from_nanos(nanos: u64) -> (r: Self)
        ensures
            r@ == nanos,
    {
        Duration { nanos: nanos as u128 }
    }

    pub fn as_nanos(&self) -> (r: u128)
        ensures
            r == self@,
            r <= MAX_NANOS,
    {
        proof {
            use_type_invariant(self);
        }
        self.nanos
    }

    /// The sum, or the longest span where the sum is longer.
    pub fn saturating_add(&self, other: Duration) -> (r: Self)
        ensures
            r@ == min_nat(self@ + other@, MAX_NANOS as nat),
    {
        let a = self.as_nanos();
        let b = other.as_nanos();
        let sum: u128 = a + b;
        Duration {
            nanos: if sum <= MAX_NANOS {
                sum
            } else {
                MAX_NANOS
            },
        }
    }

    pub fn min(self, other: Duration) -> (r: Self)
        ensures
            r@ == min_nat(self@, other@),
    {
        if self.nanos <= other.nanos {
            self
        } else {
            other
        }
    }

    pub fn max(self, other: Duration) -> (r: Self)
        ensures
            r@ == max_nat(self@, other@),
    {
        if self.nanos >= other.nanos {
            self
        } else {
            other
        }
    }

    pub fn at_most(&self, other: Duration) -> (r: bool)
        ensures
            r == (self@ <= other@),
    {
        self.nanos <= other.nanos
    }
}

/// A reading of a monotonic clock.
#[derive(Clone, Copy, Debug, PartialEq, Eq, PartialOrd, Hash, Structural)]
pub struct Instant {
    pub nanos: u128,
}

impl Instant {
    /// The span from an earlier reading, or no time where that reading is later.
    pub fn since(&self, earlier: Instant) -> (r: Duration)
        ensures
            r@ == min_nat(
                if self.nanos >= earlier.nanos {
                    (self.nanos - earlier.nanos) as nat
                } else {
                    0
                },
                MAX_NANOS as nat,
            ),
    {
        if self.nanos < earlier.nanos {
            return Duration { nanos: 0 };
        }
        let span: u128 = self.nanos - earlier.nanos;
        Duration {
            nanos: if span <= MAX_NANOS {
                span
            } else {
                MAX_NANOS
            },
        }
    }

    /// The reading after a span, or the last possible one.
    pub fn plus(&self, span: Duration) -> (r: Instant)
        ensures
            r.nanos == min_nat(self.nanos as nat + span@, u128::MAX as nat),
    {
        let nanos = span.as_nanos();
        if self.nanos > u128::MAX - nanos {
            Instant { nanos: u128::MAX }
        } else {
            Instant { nanos: self.nanos + nanos }
        }
    }
}

/// The smaller and the larger of two numbers are these two numbers, in order.
pub proof fn bounds_are_the_two_numbers(a: nat, b: nat)
    ensures
        min_nat(a, b) <= a <= max_nat(a, b),
        min_nat(a, b) <= b <= max_nat(a, b),
        min_nat(a, b) + max_nat(a, b) == a + b,
{
}

} // verus!
