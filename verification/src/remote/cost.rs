//! A static cost model for placing a prefill, in integers only.

use crate::time::{min_nat, Duration, NANOS_PER_SEC};
use vstd::prelude::*;

verus! {

/// The nanoseconds that some units take at a rate, rounded up; none where either is zero.
pub open spec fn unit_nanos(units: nat, units_per_second: nat) -> nat {
    if units == 0 || units_per_second == 0 {
        0
    } else {
        ((units * NANOS_PER_SEC + units_per_second - 1) / (units_per_second as int)) as nat
    }
}

/// What one request's placement assumes about cost.
#[derive(Clone, Copy, Debug, PartialEq, Eq, Structural)]
pub struct CostModel {
    pub fixed: Duration,
    pub bytes_per_second: u64,
    pub tokens_per_second: u64,
    pub maximum: Option<Duration>,
}

impl CostModel {
    pub fn new(
        fixed: Duration,
        bytes_per_second: u64,
        tokens_per_second: u64,
        maximum: Option<Duration>,
    ) -> (r: Self)
        ensures
            r == (CostModel { fixed, bytes_per_second, tokens_per_second, maximum }),
    {
        CostModel { fixed, bytes_per_second, tokens_per_second, maximum }
    }

    /// Fixed cost, transfer and compute together, capped at the nanoseconds of a `u64`.
    pub open spec fn cost(self, tokens: usize, bytes: u64) -> nat {
        min_nat(
            self.fixed@ + unit_nanos(bytes as nat, self.bytes_per_second as nat) + unit_nanos(
                tokens as nat,
                self.tokens_per_second as nat,
            ),
            u64::MAX as nat,
        )
    }

    pub fn estimate(&self, tokens: usize, bytes: u64) -> (r: Duration)
        ensures
            r@ == self.cost(tokens, bytes),
    {
        let fixed: u128 = self.fixed.as_nanos();
        let transfer: u128 = estimate_nanos(bytes, self.bytes_per_second);
        let compute: u128 = estimate_nanos(tokens as u64, self.tokens_per_second);
        let nanos: u128 = fixed + transfer + compute;
        if nanos > u64::MAX as u128 {
            Duration::from_nanos(u64::MAX)
        } else {
            Duration::from_nanos(nanos as u64)
        }
    }

    /// Whether the estimate stays within the maximum, where there is one.
    pub fn allows(&self, tokens: usize, bytes: u64) -> (r: bool)
        ensures
            r == match self.maximum {
                Some(maximum) => self.cost(tokens, bytes) <= maximum@,
                None => true,
            },
    {
        match self.maximum {
            Some(maximum) => self.estimate(tokens, bytes).at_most(maximum),
            None => true,
        }
    }
}

/// Computes [`unit_nanos`].
pub fn estimate_nanos(units: u64, units_per_second: u64) -> (r: u128)
    ensures
        r == unit_nanos(units as nat, units_per_second as nat),
        r <= u64::MAX * NANOS_PER_SEC,
{
    if units == 0 || units_per_second == 0 {
        return 0;
    }
    let scaled: u128 = units as u128 * NANOS_PER_SEC;
    let rate: u128 = units_per_second as u128;
    let r: u128 = (scaled + rate - 1) / rate;
    assert(r <= scaled) by (nonlinear_arith)
        requires
            r == (scaled + rate - 1) / (rate as int),
            rate >= 1,
            scaled >= 1,
    ;
    r
}

/// A larger job is never estimated to cost less.
pub proof fn estimates_grow_with_the_work(
    model: CostModel,
    tokens: usize,
    bytes: u64,
    more_tokens: usize,
    more_bytes: u64,
)
    requires
        tokens <= more_tokens,
        bytes <= more_bytes,
    ensures
        model.cost(tokens, bytes) <= model.cost(more_tokens, more_bytes),
{
    units_grow(bytes as nat, more_bytes as nat, model.bytes_per_second as nat);
    units_grow(tokens as nat, more_tokens as nat, model.tokens_per_second as nat);
}

proof fn units_grow(units: nat, more: nat, rate: nat)
    requires
        units <= more,
    ensures
        unit_nanos(units, rate) <= unit_nanos(more, rate),
{
    if units > 0 && rate > 0 {
        let a = units * NANOS_PER_SEC + rate - 1;
        let b = more * NANOS_PER_SEC + rate - 1;
        assert(a / (rate as int) <= b / (rate as int)) by (nonlinear_arith)
            requires
                a <= b,
                rate > 0,
        ;
        assert(a / (rate as int) >= 0) by (nonlinear_arith)
            requires
                a >= 0,
                rate > 0,
        ;
    }
}

/// An estimate is the first whole nanosecond by which the units are done at their rate; a rate of
/// none costs nothing.
pub proof fn estimates_are_rounded_up(units: nat, units_per_second: nat)
    ensures
        units_per_second == 0 ==> unit_nanos(units, units_per_second) == 0,
        units_per_second > 0 ==> {
            &&& unit_nanos(units, units_per_second) * units_per_second >= units * 1_000_000_000
            &&& unit_nanos(units, units_per_second) * units_per_second < units * 1_000_000_000
                + units_per_second
        },
{
    if units > 0 && units_per_second > 0 {
        let work = units * NANOS_PER_SEC;
        let rate = units_per_second as int;
        let nanos = (work + rate - 1) / rate;
        assert(work > 0) by (nonlinear_arith)
            requires
                work == units * NANOS_PER_SEC,
                units > 0,
        ;
        assert(nanos >= 0 && work <= nanos * rate < work + rate) by (nonlinear_arith)
            requires
                rate > 0,
                work > 0,
                nanos == (work + rate - 1) / rate,
        ;
        assert(unit_nanos(units, units_per_second) == nanos);
    } else if units_per_second > 0 {
        assert(unit_nanos(units, units_per_second) * units_per_second == 0) by (nonlinear_arith)
            requires
                unit_nanos(units, units_per_second) == 0,
        ;
    }
}

/// What a job costs is its fixed cost, its transfer and its compute together: each part is what is
/// left where the others are free, and the sum is capped.
pub proof fn costs_add_up(model: CostModel, tokens: usize, bytes: u64)
    ensures
        ({
            let parts = model.fixed@ + unit_nanos(bytes as nat, model.bytes_per_second as nat)
                + unit_nanos(tokens as nat, model.tokens_per_second as nat);
            &&& parts <= u64::MAX ==> model.cost(tokens, bytes) == parts
            &&& parts > u64::MAX ==> model.cost(tokens, bytes) == u64::MAX
        }),
        model.fixed@ <= u64::MAX ==> model.cost(0, 0) == model.fixed@,
        model.bytes_per_second == 0 ==> model.cost(tokens, bytes) == model.cost(tokens, 0),
        model.tokens_per_second == 0 ==> model.cost(tokens, bytes) == model.cost(0, bytes),
{
}

} // verus!
