//! Whether a prefill up to a target bundle is worth handing to a remote worker.

use crate::remote::cost::CostModel;
use crate::time::{min_nat, Duration, MAX_NANOS};
use vstd::prelude::*;

verus! {

/// What one decision was made from, kept for metrics.
#[derive(Clone, Copy, Debug, PartialEq, Eq, Structural)]
pub struct PlacementCosts {
    pub local_work_tokens: usize,
    pub remote_work_tokens: usize,
    pub local_estimate: Option<Duration>,
    pub remote_estimate: Duration,
}

/// Why work stays local.
#[derive(Clone, Copy, Debug, PartialEq, Eq, Structural)]
pub enum LocalPlacementReason {
    MissingLocalEstimate,
    NoRemoteWork,
    CostComparison,
}

impl LocalPlacementReason {
    pub open spec fn text(self) -> Seq<char> {
        match self {
            LocalPlacementReason::MissingLocalEstimate => "local_estimate_missing"@,
            LocalPlacementReason::NoRemoteWork => "target_ready"@,
            LocalPlacementReason::CostComparison => "local_not_slower"@,
        }
    }

    pub fn label(self) -> (r: &'static str)
        ensures
            r@ == self.text(),
    {
        match self {
            LocalPlacementReason::MissingLocalEstimate => "local_estimate_missing",
            LocalPlacementReason::NoRemoteWork => "target_ready",
            LocalPlacementReason::CostComparison => "local_not_slower",
        }
    }
}

/// Where a prefill runs, with the costs that were compared.
#[derive(Clone, Copy, Debug, PartialEq, Eq, Structural)]
pub enum PlacementDecision {
    Local { reason: LocalPlacementReason, costs: PlacementCosts },
    Remote { costs: PlacementCosts },
}

/// One target and the best complete seed below it.
#[derive(Clone, Copy, Debug, PartialEq, Eq, Structural)]
pub struct PlacementInputs {
    pub target_tokens: usize,
    pub seed_tokens: usize,
    pub computed_tokens: usize,
    pub bundle_bytes: u64,
    /// The scheduler's estimate for the tokens that [`local_work`] gives, where it has one.
    pub local_estimate: Option<Duration>,
    pub remote: CostModel,
    pub margin: Duration,
}

/// The tokens below a target that are not ready from either of two starts.
pub open spec fn work_from(target_tokens: usize, start: int) -> int {
    if start >= target_tokens {
        0
    } else {
        target_tokens - start
    }
}

/// The later of two starts.
pub open spec fn later(a: usize, b: usize) -> int {
    if a >= b {
        a as int
    } else {
        b as int
    }
}

/// The tokens that local prefill would compute: those past both the seed and what is computed.
pub fn local_work(target_tokens: usize, seed_tokens: usize, computed_tokens: usize) -> (r: usize)
    ensures
        r == work_from(target_tokens, later(computed_tokens, seed_tokens)),
{
    let ready: usize = if computed_tokens >= seed_tokens {
        computed_tokens
    } else {
        seed_tokens
    };
    if ready >= target_tokens {
        0
    } else {
        target_tokens - ready
    }
}

/// The tokens that a remote worker would compute: those past the seed.
pub fn remote_work(target_tokens: usize, seed_tokens: usize) -> (r: usize)
    ensures
        r == work_from(target_tokens, seed_tokens as int),
{
    if seed_tokens >= target_tokens {
        0
    } else {
        target_tokens - seed_tokens
    }
}

impl PlacementInputs {
    pub open spec fn local_tokens(self) -> int {
        work_from(self.target_tokens, later(self.computed_tokens, self.seed_tokens))
    }

    pub open spec fn remote_tokens(self) -> int {
        work_from(self.target_tokens, self.seed_tokens as int)
    }

    /// Whether the remote worker, margin included, is strictly faster.
    pub open spec fn remote_wins(self) -> bool {
        &&& self.remote_tokens() > 0
        &&& self.local_estimate is Some
        &&& min_nat(
            self.remote.cost(self.remote_tokens() as usize, self.bundle_bytes) + self.margin@,
            MAX_NANOS as nat,
        ) < self.local_estimate->Some_0@
    }

    pub open spec fn costed(self, costs: PlacementCosts) -> bool {
        &&& costs.local_work_tokens == self.local_tokens()
        &&& costs.remote_work_tokens == self.remote_tokens()
        &&& costs.local_estimate == self.local_estimate
        &&& costs.remote_estimate@ == self.remote.cost(
            self.remote_tokens() as usize,
            self.bundle_bytes,
        )
    }
}

/// Places a prefill remotely only where that is strictly faster by more than the margin.
pub fn decide(inputs: PlacementInputs) -> (r: PlacementDecision)
    ensures
        match r {
            PlacementDecision::Remote { costs } => inputs.remote_wins() && inputs.costed(costs),
            PlacementDecision::Local { reason, costs } => {
                &&& !inputs.remote_wins()
                &&& inputs.costed(costs)
                &&& reason == (if inputs.remote_tokens() == 0 {
                    LocalPlacementReason::NoRemoteWork
                } else if inputs.local_estimate is None {
                    LocalPlacementReason::MissingLocalEstimate
                } else {
                    LocalPlacementReason::CostComparison
                })
            },
        },
{
    let remote_work_tokens: usize = remote_work(inputs.target_tokens, inputs.seed_tokens);
    let remote_estimate = inputs.remote.estimate(remote_work_tokens, inputs.bundle_bytes);
    let costs = PlacementCosts {
        local_work_tokens: local_work(
            inputs.target_tokens,
            inputs.seed_tokens,
            inputs.computed_tokens,
        ),
        remote_work_tokens,
        local_estimate: inputs.local_estimate,
        remote_estimate,
    };
    if remote_work_tokens == 0 {
        return PlacementDecision::Local { reason: LocalPlacementReason::NoRemoteWork, costs };
    }
    let local_estimate = match inputs.local_estimate {
        Some(estimate) => estimate,
        None => {
            return PlacementDecision::Local {
                reason: LocalPlacementReason::MissingLocalEstimate,
                costs,
            };
        },
    };
    if local_estimate.at_most(remote_estimate.saturating_add(inputs.margin)) {
        return PlacementDecision::Local { reason: LocalPlacementReason::CostComparison, costs };
    }
    PlacementDecision::Remote { costs }
}

/// A remote worker is chosen only where it is strictly faster, margin included: where both take
/// equally long, or only the margin makes the difference, the work stays local.
pub proof fn remote_placement_is_strictly_faster(inputs: PlacementInputs)
    requires
        inputs.local_estimate is Some ==> inputs.local_estimate->Some_0@ <= MAX_NANOS,
    ensures
        inputs.remote_wins() <==> {
            &&& inputs.remote_tokens() > 0
            &&& inputs.local_estimate is Some
            &&& inputs.remote.cost(inputs.remote_tokens() as usize, inputs.bundle_bytes)
                + inputs.margin@ < inputs.local_estimate->Some_0@
        },
{
}

/// Remote work is what the target has beyond the seed, and local work what it has beyond both the
/// seed and what is computed: never more than the remote work.
pub proof fn work_is_what_lies_beyond_the_start(inputs: PlacementInputs)
    ensures
        inputs.target_tokens > inputs.seed_tokens ==> inputs.remote_tokens() + inputs.seed_tokens
            == inputs.target_tokens,
        inputs.target_tokens <= inputs.seed_tokens ==> inputs.remote_tokens() == 0,
        0 <= inputs.local_tokens() <= inputs.remote_tokens(),
        inputs.computed_tokens <= inputs.seed_tokens ==> inputs.local_tokens()
            == inputs.remote_tokens(),
        inputs.seed_tokens <= inputs.computed_tokens <= inputs.target_tokens
            ==> inputs.local_tokens() + inputs.computed_tokens == inputs.target_tokens,
        inputs.target_tokens <= inputs.computed_tokens ==> inputs.local_tokens() == 0,
{
}

/// A smaller margin or a slower scheduler never turns remote work into local work.
pub proof fn more_favourable_inputs_stay_remote(
    inputs: PlacementInputs,
    local_estimate: Duration,
    margin: Duration,
)
    requires
        inputs.remote_wins(),
        inputs.local_estimate is Some,
        local_estimate@ >= inputs.local_estimate->Some_0@,
        margin@ <= inputs.margin@,
    ensures
        (PlacementInputs {
            local_estimate: Some(local_estimate),
            margin,
            ..inputs
        }).remote_wins(),
{
}

/// What is recorded of a decision is what it compared: the tokens of both sides, the scheduler's own
/// estimate, and the remote cost of the tokens beyond the seed with the bytes of the bundle.
pub proof fn recorded_costs_are_those_compared(inputs: PlacementInputs, costs: PlacementCosts)
    requires
        inputs.costed(costs),
    ensures
        costs.local_estimate == inputs.local_estimate,
        inputs.target_tokens > inputs.seed_tokens ==> costs.remote_work_tokens
            == inputs.target_tokens - inputs.seed_tokens && costs.remote_estimate@
            == inputs.remote.cost(
            (inputs.target_tokens - inputs.seed_tokens) as usize,
            inputs.bundle_bytes,
        ),
        inputs.target_tokens <= inputs.seed_tokens ==> costs.remote_work_tokens == 0
            && costs.remote_estimate@ == inputs.remote.cost(0, inputs.bundle_bytes),
        costs.local_work_tokens <= costs.remote_work_tokens,
        inputs.computed_tokens <= inputs.seed_tokens ==> costs.local_work_tokens
            == costs.remote_work_tokens,
{
}

} // verus!
