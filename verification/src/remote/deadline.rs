//! One deadline shared by discovery and every candidate pull.

use crate::remote::search::BundleMissReason;
use crate::time::{max_nat, min_nat, Duration, Instant, MAX_NANOS, NANOS_PER_MILLI, NANOS_PER_SEC};
use vstd::prelude::*;

verus! {

/// How long cleanup may take, and how long a holder keeps an idle session.
#[derive(Clone, Copy, Debug, PartialEq, Eq, Structural)]
pub struct BundlePullLimits {
    pub cleanup_timeout: Duration,
    pub holder_watchdog: Duration,
}

impl BundlePullLimits {
    pub fn production() -> (r: Self)
        ensures
            r.cleanup_timeout@ == NANOS_PER_SEC,
            r.holder_watchdog@ == 30 * NANOS_PER_SEC,
    {
        BundlePullLimits {
            cleanup_timeout: Duration::from_secs(1),
            holder_watchdog: Duration::from_secs(30),
        }
    }
}

/// What cut an operation short.
#[derive(Clone, Copy, Debug, PartialEq, Eq, Structural)]
pub enum PullInterruption {
    Canceled,
    Deadline,
}

/// The earlier of a lease's end and the search's deadline.
#[derive(Clone, Copy, Debug, PartialEq, Eq, Structural)]
pub struct PullDeadline {
    pub at: Instant,
    pub lease_limited: bool,
}

/// The end of a lease on the monotonic clock.
pub open spec fn lease_end(lease_expires_at_unix_ms: u64, now_unix_ms: u64, now: Instant) -> nat {
    let remaining_ms = if lease_expires_at_unix_ms >= now_unix_ms {
        lease_expires_at_unix_ms - now_unix_ms
    } else {
        0
    };
    min_nat((now.nanos + remaining_ms * NANOS_PER_MILLI) as nat, u128::MAX as nat)
}

impl PullDeadline {
    pub open spec fn made(
        self,
        lease_expires_at_unix_ms: u64,
        search_deadline: Instant,
        now_unix_ms: u64,
        now: Instant,
    ) -> bool {
        let lease = lease_end(lease_expires_at_unix_ms, now_unix_ms, now);
        &&& self.at.nanos == min_nat(lease, search_deadline.nanos as nat)
        &&& self.lease_limited == (lease <= search_deadline.nanos)
    }

    pub fn new(
        lease_expires_at_unix_ms: u64,
        search_deadline: Instant,
        now_unix_ms: u64,
        now: Instant,
    ) -> (r: Self)
        ensures
            r.made(lease_expires_at_unix_ms, search_deadline, now_unix_ms, now),
    {
        let remaining_ms: u64 = if lease_expires_at_unix_ms >= now_unix_ms {
            lease_expires_at_unix_ms - now_unix_ms
        } else {
            0
        };
        let lease = now.plus(Duration::from_millis(remaining_ms));
        let lease_limited = lease.nanos <= search_deadline.nanos;
        PullDeadline {
            at: if lease_limited {
                lease
            } else {
                search_deadline
            },
            lease_limited,
        }
    }

    pub open spec fn left(self, now: Instant) -> nat {
        min_nat(
            if self.at.nanos >= now.nanos {
                (self.at.nanos - now.nanos) as nat
            } else {
                0
            },
            MAX_NANOS as nat,
        )
    }

    /// The time left, or none once the deadline has passed.
    pub fn remaining(self, now: Instant) -> (r: Duration)
        ensures
            r@ == self.left(now),
    {
        self.at.since(now)
    }

    pub open spec fn watchdog_nanos(self, limits: BundlePullLimits, now: Instant) -> nat {
        max_nat(min_nat(self.left(now), limits.holder_watchdog@), NANOS_PER_MILLI as nat)
    }

    /// How long a holder may keep a session that is opened now: never past the deadline, never
    /// longer than the limit, and always at least a millisecond.
    pub fn watchdog(self, limits: &BundlePullLimits, now: Instant) -> (r: Duration)
        ensures
            r@ == self.watchdog_nanos(*limits, now),
    {
        self.remaining(now).min(limits.holder_watchdog).max(Duration::from_millis(1))
    }

    pub open spec fn miss(self, interruption: PullInterruption) -> BundleMissReason {
        match interruption {
            PullInterruption::Canceled => BundleMissReason::Canceled,
            PullInterruption::Deadline => if self.lease_limited {
                BundleMissReason::Expired
            } else {
                BundleMissReason::TimedOut
            },
        }
    }

    /// The miss that an interruption amounts to.
    pub fn reason(self, interruption: PullInterruption) -> (r: BundleMissReason)
        ensures
            r == self.miss(interruption),
    {
        match interruption {
            PullInterruption::Canceled => BundleMissReason::Canceled,
            PullInterruption::Deadline => if self.lease_limited {
                BundleMissReason::Expired
            } else {
                BundleMissReason::TimedOut
            },
        }
    }
}

/// A pull ends with the search or with the lease, whichever comes first, and it is known which: a
/// lease that has run out leaves no time at all.
pub proof fn deadlines_are_the_earlier_end(
    deadline: PullDeadline,
    lease_expires_at_unix_ms: u64,
    search_deadline: Instant,
    now_unix_ms: u64,
    now: Instant,
)
    requires
        deadline.made(lease_expires_at_unix_ms, search_deadline, now_unix_ms, now),
        now.nanos + u64::MAX * 1_000_000 <= u128::MAX,
    ensures
        ({
            let lease = if lease_expires_at_unix_ms > now_unix_ms {
                now.nanos + (lease_expires_at_unix_ms - now_unix_ms) * 1_000_000
            } else {
                now.nanos as int
            };
            &&& deadline.at.nanos <= search_deadline.nanos
            &&& deadline.at.nanos <= lease
            &&& deadline.lease_limited ==> deadline.at.nanos == lease
            &&& !deadline.lease_limited ==> deadline.at == search_deadline && deadline.at.nanos
                < lease
        }),
{
    if lease_expires_at_unix_ms > now_unix_ms {
        assert((lease_expires_at_unix_ms - now_unix_ms) * NANOS_PER_MILLI <= u64::MAX * 1_000_000)
            by (nonlinear_arith)
            requires
                0 <= lease_expires_at_unix_ms - now_unix_ms <= u64::MAX,
                NANOS_PER_MILLI == 1_000_000,
        ;
    }
}

/// A holder keeps a session for at least a millisecond; beyond that never past the deadline and
/// never longer than its limit, and no shorter than both allow.
pub proof fn watchdogs_stay_within_the_deadline(
    deadline: PullDeadline,
    limits: BundlePullLimits,
    now: Instant,
)
    requires
        deadline.at.nanos - now.nanos <= MAX_NANOS,
    ensures
        ({
            let nanos = deadline.watchdog_nanos(limits, now);
            &&& nanos >= 1_000_000
            &&& nanos > 1_000_000 ==> now.nanos + nanos <= deadline.at.nanos && nanos
                <= limits.holder_watchdog@
            &&& nanos == 1_000_000 || now.nanos + nanos == deadline.at.nanos || nanos
                == limits.holder_watchdog@
        }),
        deadline.at.nanos <= now.nanos ==> deadline.left(now) == 0,
        deadline.at.nanos > now.nanos ==> now.nanos + deadline.left(now) == deadline.at.nanos,
{
}

/// An interruption is reported for what it was: a cancellation, the end of the lease, or the end of
/// the search.
pub proof fn interruptions_are_told_apart(deadline: PullDeadline, interruption: PullInterruption)
    ensures
        deadline.miss(interruption) is Canceled <==> interruption is Canceled,
        deadline.miss(interruption) is Expired <==> interruption is Deadline
            && deadline.lease_limited,
        deadline.miss(interruption) is TimedOut <==> interruption is Deadline
            && !deadline.lease_limited,
{
}

} // verus!
