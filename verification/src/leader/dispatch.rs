//! Fan-out of pull plans to the workers of a leader.

use vstd::prelude::*;

verus! {

/// How the plans of a pull are spread over workers.
#[derive(Clone, Copy, Debug, PartialEq, Eq, Structural)]
pub enum PullDispatchKind {
    Strict,
    Replicated,
}

impl PullDispatchKind {
    pub open spec fn text(self) -> Seq<char> {
        match self {
            PullDispatchKind::Strict => "strict"@,
            PullDispatchKind::Replicated => "replicated"@,
        }
    }

    pub fn label(self) -> (r: &'static str)
        ensures
            r@ == self.text(),
    {
        match self {
            PullDispatchKind::Strict => "strict",
            PullDispatchKind::Replicated => "replicated",
        }
    }
}

/// Why a plan failed at once.
#[derive(Clone, Copy, Debug, PartialEq, Eq, Structural)]
pub enum PullDispatchError {
    /// The plan names a rank that no worker has.
    UnknownRank { kind: PullDispatchKind, local_rank: usize, worker_count: usize },
    /// The worker refused the plan.
    Refused { kind: PullDispatchKind, local_rank: usize },
}

/// Pull plans that are being handed out one after the other. A plan that fails at once does not
/// keep the others from being handed out, so that what was started is always waited for.
#[derive(Debug)]
pub struct PullFanOut {
    kind: PullDispatchKind,
    worker_count: usize,
    results: Vec<Result<usize, PullDispatchError>>,
}

/// The mathematical content of a [`PullFanOut`].
pub struct FanOutView {
    pub kind: PullDispatchKind,
    pub worker_count: usize,
    pub results: Seq<Result<usize, PullDispatchError>>,
}

impl View for PullFanOut {
    type V = FanOutView;

    closed spec fn view(&self) -> FanOutView {
        FanOutView {
            kind: self.kind,
            worker_count: self.worker_count,
            results: self.results@,
        }
    }
}

impl FanOutView {
    /// The result of a plan for a rank, given whether its worker takes it.
    pub open spec fn result(self, local_rank: usize, taken: bool) -> Result<
        usize,
        PullDispatchError,
    > {
        if local_rank >= self.worker_count {
            Err(
                PullDispatchError::UnknownRank {
                    kind: self.kind,
                    local_rank,
                    worker_count: self.worker_count,
                },
            )
        } else if taken {
            Ok(local_rank)
        } else {
            Err(PullDispatchError::Refused { kind: self.kind, local_rank })
        }
    }
}

impl PullFanOut {
    pub fn new(kind: PullDispatchKind, worker_count: usize) -> (r: Self)
        ensures
            r@ == (FanOutView { kind, worker_count, results: Seq::empty() }),
    {
        let r = PullFanOut { kind, worker_count, results: Vec::new() };
        assert(r@.results =~= Seq::<Result<usize, PullDispatchError>>::empty());
        r
    }

    /// Whether a plan for this rank is to be handed to a worker at all.
    pub fn has_worker(&self, local_rank: usize) -> (r: bool)
        ensures
            r == (local_rank < self@.worker_count),
    {
        local_rank < self.worker_count
    }

    /// Notes the plan for a rank, and whether its worker took it.
    pub fn record(&mut self, local_rank: usize, taken: bool)
        ensures
            final(self)@ == (FanOutView {
                results: old(self)@.results.push(old(self)@.result(local_rank, taken)),
                ..old(self)@
            }),
    {
        let result = if local_rank >= self.worker_count {
            Err(
                PullDispatchError::UnknownRank {
                    kind: self.kind,
                    local_rank,
                    worker_count: self.worker_count,
                },
            )
        } else if taken {
            Ok(local_rank)
        } else {
            Err(PullDispatchError::Refused { kind: self.kind, local_rank })
        };
        self.results.push(result);
    }

    /// The first failure among all plans, to be reported once everything that was started is done.
    pub fn first_failure(&self) -> (r: Option<PullDispatchError>)
        ensures
            match r {
                None => forall|i: int|
                    0 <= i < self@.results.len() ==> #[trigger] self@.results[i] is Ok,
                Some(e) => exists|at: int|
                    {
                        &&& 0 <= at < self@.results.len()
                        &&& #[trigger] self@.results[at] == Err::<usize, PullDispatchError>(e)
                        &&& forall|i: int| 0 <= i < at ==> #[trigger] self@.results[i] is Ok
                    },
            },
    {
        let mut at: usize = 0;
        while at < self.results.len()
            invariant
                at <= self.results@.len(),
                forall|i: int| 0 <= i < at ==> #[trigger] self@.results[i] is Ok,
            decreases self.results@.len() - at,
        {
            if let Err(e) = &self.results[at] {
                assert(self@.results[at as int] == Err::<usize, PullDispatchError>(*e));
                return Some(*e);
            }
            at = at + 1;
        }
        None
    }

    /// What came of each plan, in the order in which they were noted.
    pub fn results(&self) -> (r: &[Result<usize, PullDispatchError>])
        ensures
            r@ == self@.results,
    {
        self.results.as_slice()
    }
}

/// A plan is under way exactly if its rank has a worker and that worker took it; a rank without a
/// worker is told apart from a worker that refused.
pub proof fn plans_run_where_a_worker_takes_them(fan_out: FanOutView, local_rank: usize, taken: bool)
    ensures
        ({
            let result = fan_out.result(local_rank, taken);
            let known = local_rank < fan_out.worker_count;
            &&& result is Ok <==> known && taken
            &&& result is Ok ==> result->Ok_0 == local_rank
            &&& result matches Err(PullDispatchError::UnknownRank { local_rank: rank, .. }) ==> !known
                && rank == local_rank
            &&& result matches Err(PullDispatchError::Refused { local_rank: rank, .. }) ==> known
                && !taken && rank == local_rank
        }),
{
}

} // verus!
