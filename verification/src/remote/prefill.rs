//! Conditional prefill of a target bundle on a remote worker, from decision to publication.
//!
//! The attempt is a machine: it says what to do next, and is told what came of it.

use crate::ids::BundleKey;
use crate::manifest::{CacheIdentity, IdentityView};
use crate::remote::cost::CostModel;
use crate::remote::placement::{
    decide, later, local_work, work_from, LocalPlacementReason, PlacementCosts, PlacementDecision,
    PlacementInputs,
};
use crate::remote::search::{
    BundleMissReason, BundlePullOutcome, CandidateView, RemoteBundleCandidate,
};
use crate::time::{min_nat, Duration, Instant, MAX_NANOS};
use vstd::prelude::*;

verus! {

/// How conditional prefill is configured.
#[derive(Clone, Copy, Debug, PartialEq, Eq, Structural)]
pub struct PrefillConfig {
    pub bundle_bytes_per_token: u64,
    pub cost: CostModel,
    pub decision_margin: Duration,
    pub bundle_prefill_timeout: Duration,
    pub bundle_prefill_poll: Duration,
    pub block_size: usize,
}

/// The target, and the best seed that is leased below it.
#[derive(Debug)]
pub struct BundlePrefillRequest {
    pub identity: CacheIdentity,
    pub target: BundleKey,
    pub seed: Option<BundleKey>,
    pub num_computed_tokens: usize,
    pub total_tokens: usize,
}

/// What the admission plan for a remote prefill is made from.
#[derive(Clone, Copy, Debug, PartialEq, Eq, Structural)]
pub struct PlanInputs {
    pub total_tokens: usize,
    pub num_computed_tokens: usize,
    pub matched_tokens: usize,
    pub block_size: usize,
    pub bundle_bytes: u64,
}

/// Why the admission plan keeps a prefill local.
#[derive(Clone, Copy, Debug, PartialEq, Eq, Structural)]
pub enum LocalReason {
    Policy,
    BreakerHot,
    ZeroBlock,
    OverloadFallback,
    CostGuard,
}

/// The label of a local plan.
pub open spec fn local_label(reason: LocalReason) -> Seq<char> {
    match reason {
        LocalReason::Policy => "policy"@,
        LocalReason::BreakerHot => "breaker_hot"@,
        LocalReason::ZeroBlock => "zero_block"@,
        LocalReason::OverloadFallback => "overload"@,
        LocalReason::CostGuard => "cost_guard"@,
    }
}

pub fn local_reason(reason: LocalReason) -> (r: &'static str)
    ensures
        r@ == local_label(reason),
{
    match reason {
        LocalReason::Policy => "policy",
        LocalReason::BreakerHot => "breaker_hot",
        LocalReason::ZeroBlock => "zero_block",
        LocalReason::OverloadFallback => "overload",
        LocalReason::CostGuard => "cost_guard",
    }
}

/// What the admission plan says.
#[derive(Clone, Copy, Debug, PartialEq, Eq, Structural)]
pub enum PlanOutcome {
    /// Tokens were reserved for the prefill.
    Remote { full_block_external_tokens: usize },
    Local { reason: LocalReason },
    Reject,
}

/// The decision that a step records.
#[derive(Clone, Copy, Debug, PartialEq, Eq, Structural)]
pub enum PrefillReport {
    RemoteStrictlyFaster,
    Placement(LocalPlacementReason),
    Plan(LocalReason),
    BudgetRejected,
    Canceled,
    TimedOut,
    DispatchFailed,
    TargetIncompatible,
    DirectoryFailed,
    TransferFailed,
    Missed(BundleMissReason),
}

impl PrefillReport {
    pub open spec fn label_pair(self) -> (Seq<char>, Seq<char>) {
        match self {
            PrefillReport::RemoteStrictlyFaster => ("remote"@, "remote_strictly_faster"@),
            PrefillReport::Placement(reason) => ("local"@, reason.text()),
            PrefillReport::Plan(reason) => ("local"@, local_label(reason)),
            PrefillReport::BudgetRejected => ("local"@, "budget_rejected"@),
            PrefillReport::Canceled => ("local"@, "canceled"@),
            PrefillReport::TimedOut => ("local"@, "timed_out"@),
            PrefillReport::DispatchFailed => ("local"@, "dispatch_failed"@),
            PrefillReport::TargetIncompatible => ("local"@, "target_incompatible"@),
            PrefillReport::DirectoryFailed => ("local"@, "directory_failed"@),
            PrefillReport::TransferFailed => ("local"@, "transfer_failed"@),
            PrefillReport::Missed(reason) => ("local"@, reason.label()),
        }
    }

    /// The decision and the reason to count under.
    pub fn labels(self) -> (r: (&'static str, &'static str))
        ensures
            (r.0@, r.1@) == self.label_pair(),
    {
        match self {
            PrefillReport::RemoteStrictlyFaster => ("remote", "remote_strictly_faster"),
            PrefillReport::Placement(reason) => ("local", reason.label()),
            PrefillReport::Plan(reason) => ("local", local_reason(reason)),
            PrefillReport::BudgetRejected => ("local", "budget_rejected"),
            PrefillReport::Canceled => ("local", "canceled"),
            PrefillReport::TimedOut => ("local", "timed_out"),
            PrefillReport::DispatchFailed => ("local", "dispatch_failed"),
            PrefillReport::TargetIncompatible => ("local", "target_incompatible"),
            PrefillReport::DirectoryFailed => ("local", "directory_failed"),
            PrefillReport::TransferFailed => ("local", "transfer_failed"),
            PrefillReport::Missed(reason) => ("local", reason.as_label()),
        }
    }
}

/// Where an attempt stands.
#[derive(Clone, Copy, Debug, PartialEq, Eq, Structural)]
pub enum PrefillState {
    Idle,
    Estimating,
    Planning,
    Dispatching,
    Discovering,
    Sleeping,
    Pulling,
    Finished,
}

/// What an attempt is told.
#[derive(Debug)]
pub enum PrefillEvent {
    Started,
    /// The scheduler's estimate for the local work that was asked about, where it has one.
    Estimated { local_estimate: Option<Duration> },
    Planned { outcome: PlanOutcome, now: Instant },
    /// The wire context for the worker could not be made.
    ContextRejected,
    Dispatched,
    DispatchFailed,
    Hit(Box<RemoteBundleCandidate>),
    Missed(BundleMissReason),
    DirectoryFailed,
    Slept,
    Pulled(BundlePullOutcome),
    PullFailed,
    Canceled,
    TimedOut,
}

/// What an attempt asks for.
#[derive(Debug)]
pub enum PrefillAction {
    /// Ask the scheduler how long it would take to compute this many tokens locally.
    EstimateLocal { tokens: usize },
    Plan(PlanInputs),
    /// Hand the prefill of a window to a worker, to be done with by the deadline.
    Dispatch { window_tokens: usize, bundle_bytes: u64, deadline: Instant },
    /// Ask the directory for the target.
    Discover,
    Sleep(Duration),
    Pull(Box<RemoteBundleCandidate>),
    /// The bundle to go on with; reserved tokens are given back.
    Finish { selected: Option<BundleKey>, release: Option<usize> },
    /// The attempt broke down; reserved tokens are given back.
    Fail { release: Option<usize> },
    /// The event does not belong to the state and changes nothing.
    Ignore,
}

/// The mathematical content of a [`PrefillAction`].
pub enum PrefillActionView {
    EstimateLocal { tokens: usize },
    Plan(PlanInputs),
    Dispatch { window_tokens: usize, bundle_bytes: u64, deadline: Instant },
    Discover,
    Sleep(Duration),
    Pull(CandidateView),
    Finish { selected: Option<BundleKey>, release: Option<usize> },
    Fail { release: Option<usize> },
    Ignore,
}

impl View for PrefillAction {
    type V = PrefillActionView;

    open spec fn view(&self) -> PrefillActionView {
        match self {
            PrefillAction::EstimateLocal { tokens } => PrefillActionView::EstimateLocal {
                tokens: *tokens,
            },
            PrefillAction::Plan(inputs) => PrefillActionView::Plan(*inputs),
            PrefillAction::Dispatch { window_tokens, bundle_bytes, deadline } => {
                PrefillActionView::Dispatch {
                    window_tokens: *window_tokens,
                    bundle_bytes: *bundle_bytes,
                    deadline: *deadline,
                }
            },
            PrefillAction::Discover => PrefillActionView::Discover,
            PrefillAction::Sleep(poll) => PrefillActionView::Sleep(*poll),
            PrefillAction::Pull(candidate) => PrefillActionView::Pull(candidate@),
            PrefillAction::Finish { selected, release } => PrefillActionView::Finish {
                selected: *selected,
                release: *release,
            },
            PrefillAction::Fail { release } => PrefillActionView::Fail { release: *release },
            PrefillAction::Ignore => PrefillActionView::Ignore,
        }
    }
}

/// What one step asks for and records.
#[derive(Debug)]
pub struct PrefillStep {
    pub action: PrefillAction,
    pub report: Option<PrefillReport>,
    pub costs: Option<PlacementCosts>,
}

/// The mathematical content of a [`BundlePrefill`].
pub struct PrefillView {
    pub identity: IdentityView,
    pub target: BundleKey,
    pub seed: Option<BundleKey>,
    pub num_computed_tokens: usize,
    pub total_tokens: usize,
    pub config: Option<PrefillConfig>,
    pub search_deadline: Instant,
    pub state: PrefillState,
    pub reserved: Option<usize>,
}

/// A token count as a block-table index can hold it.
pub open spec fn capped_tokens(tokens: u64) -> usize {
    if tokens <= usize::MAX {
        tokens as usize
    } else {
        usize::MAX
    }
}

impl PrefillView {
    pub open spec fn target_tokens(self) -> usize {
        capped_tokens(self.target.boundary_tokens)
    }

    pub open spec fn seed_tokens(self) -> usize {
        match self.seed {
            Some(key) => if key.boundary_tokens <= usize::MAX {
                key.boundary_tokens as usize
            } else {
                0
            },
            None => 0,
        }
    }

    /// The tokens below the target that local work would compute: those past both the seed and
    /// what is computed.
    pub open spec fn local_work_tokens(self) -> int {
        work_from(self.target_tokens(), later(self.num_computed_tokens, self.seed_tokens()))
    }

    pub open spec fn bundle_bytes(self, config: PrefillConfig) -> u64 {
        min_nat(
            (self.target_tokens() * config.bundle_bytes_per_token) as nat,
            u64::MAX as nat,
        ) as u64
    }

    pub open spec fn placement(
        self,
        config: PrefillConfig,
        local_estimate: Option<Duration>,
    ) -> PlacementInputs {
        PlacementInputs {
            target_tokens: self.target_tokens(),
            seed_tokens: self.seed_tokens(),
            computed_tokens: self.num_computed_tokens,
            bundle_bytes: self.bundle_bytes(config),
            local_estimate,
            remote: config.cost,
            margin: config.decision_margin,
        }
    }

    pub open spec fn plan_inputs(self, config: PrefillConfig) -> PlanInputs {
        PlanInputs {
            total_tokens: self.target_tokens(),
            num_computed_tokens: self.seed_tokens(),
            matched_tokens: 0,
            block_size: config.block_size,
            bundle_bytes: self.bundle_bytes(config),
        }
    }

    /// One token past the target, so that the target itself is computed, but not past the request.
    pub open spec fn window_tokens(self) -> usize {
        min_nat(
            min_nat((self.target_tokens() + 1) as nat, usize::MAX as nat),
            self.total_tokens as nat,
        ) as usize
    }

    pub open spec fn dispatch_deadline(self, config: PrefillConfig, now: Instant) -> Instant {
        Instant {
            nanos: min_nat(
                self.search_deadline.nanos as nat,
                min_nat((now.nanos + config.bundle_prefill_timeout@) as nat, u128::MAX as nat),
            ) as u128,
        }
    }

    /// Whether the attempt is past its admission, so that an interruption ends it.
    pub open spec fn running(self) -> bool {
        self.state == PrefillState::Dispatching || self.state == PrefillState::Discovering
            || self.state == PrefillState::Sleeping || self.state == PrefillState::Pulling
    }

    /// Tokens are reserved exactly while the attempt is past its admission.
    pub open spec fn wf(self) -> bool {
        &&& self.reserved is Some <==> self.running()
        &&& (self.running() || self.state == PrefillState::Estimating || self.state
            == PrefillState::Planning) ==> self.config is Some
    }

    pub open spec fn finishing(self, selected: Option<BundleKey>) -> (
        PrefillView,
        PrefillActionView,
    ) {
        (
            PrefillView { state: PrefillState::Finished, reserved: None, ..self },
            PrefillActionView::Finish { selected, release: self.reserved },
        )
    }

    pub open spec fn moving(self, state: PrefillState, action: PrefillActionView) -> (
        PrefillView,
        PrefillActionView,
    ) {
        (PrefillView { state, ..self }, action)
    }

    /// Whether an event can take the attempt from `self` to `after` with this step.
    pub open spec fn steps(
        self,
        event: PrefillEvent,
        after: PrefillView,
        action: PrefillActionView,
        report: Option<PrefillReport>,
        costs: Option<PlacementCosts>,
    ) -> bool {
        let ends = |with: PrefillReport|
            (after, action) == self.finishing(self.seed) && report == Some(with) && costs is None;
        match (self.state, event) {
            (PrefillState::Idle, PrefillEvent::Started) => {
                &&& report is None
                &&& costs is None
                &&& (after, action) == if self.config is None {
                    self.finishing(self.seed)
                } else {
                    self.moving(
                        PrefillState::Estimating,
                        PrefillActionView::EstimateLocal {
                            tokens: self.local_work_tokens() as usize,
                        },
                    )
                }
            },
            (PrefillState::Estimating, PrefillEvent::Estimated { local_estimate }) => {
                let config = self.config->Some_0;
                let inputs = self.placement(config, local_estimate);
                &&& costs is Some
                &&& inputs.costed(costs->Some_0)
                &&& if inputs.remote_wins() {
                    &&& (after, action) == self.moving(
                        PrefillState::Planning,
                        PrefillActionView::Plan(self.plan_inputs(config)),
                    )
                    &&& report is None
                } else {
                    &&& (after, action) == self.finishing(self.seed)
                    &&& report == Some(
                        PrefillReport::Placement(
                            if inputs.remote_tokens() == 0 {
                                LocalPlacementReason::NoRemoteWork
                            } else if local_estimate is None {
                                LocalPlacementReason::MissingLocalEstimate
                            } else {
                                LocalPlacementReason::CostComparison
                            },
                        ),
                    )
                }
            },
            (PrefillState::Planning, PrefillEvent::Planned { outcome, now }) => match outcome {
                PlanOutcome::Remote { full_block_external_tokens } => {
                    &&& (after, action) == (PrefillView {
                        reserved: Some(full_block_external_tokens),
                        ..self
                    }).moving(
                        PrefillState::Dispatching,
                        PrefillActionView::Dispatch {
                            window_tokens: self.window_tokens(),
                            bundle_bytes: self.bundle_bytes(self.config->Some_0),
                            deadline: self.dispatch_deadline(self.config->Some_0, now),
                        },
                    )
                    &&& report == Some(PrefillReport::RemoteStrictlyFaster)
                    &&& costs is None
                },
                PlanOutcome::Local { reason } => ends(PrefillReport::Plan(reason)),
                PlanOutcome::Reject => ends(PrefillReport::BudgetRejected),
            },
            (PrefillState::Dispatching, PrefillEvent::ContextRejected) => {
                &&& after == (PrefillView {
                    state: PrefillState::Finished,
                    reserved: None,
                    ..self
                })
                &&& action == (PrefillActionView::Fail { release: self.reserved })
                &&& report is None
                &&& costs is None
            },
            (PrefillState::Dispatching, PrefillEvent::Dispatched) => {
                &&& (after, action) == self.moving(
                    PrefillState::Discovering,
                    PrefillActionView::Discover,
                )
                &&& report is None
                &&& costs is None
            },
            (PrefillState::Dispatching, PrefillEvent::DispatchFailed) => ends(
                PrefillReport::DispatchFailed,
            ),
            (PrefillState::Discovering, PrefillEvent::Hit(candidate)) => {
                if candidate@.advertisement.identity == self.identity
                    && candidate@.advertisement.key == self.target {
                    &&& (after, action) == self.moving(
                        PrefillState::Pulling,
                        PrefillActionView::Pull(candidate@),
                    )
                    &&& report is None
                    &&& costs is None
                } else {
                    ends(PrefillReport::TargetIncompatible)
                }
            },
            (PrefillState::Discovering, PrefillEvent::Missed(reason)) => {
                if reason == BundleMissReason::NotFound {
                    &&& (after, action) == self.moving(
                        PrefillState::Sleeping,
                        PrefillActionView::Sleep(self.config->Some_0.bundle_prefill_poll),
                    )
                    &&& report is None
                    &&& costs is None
                } else {
                    ends(PrefillReport::Missed(reason))
                }
            },
            (PrefillState::Discovering, PrefillEvent::DirectoryFailed) => ends(
                PrefillReport::DirectoryFailed,
            ),
            (PrefillState::Sleeping, PrefillEvent::Slept) => {
                &&& (after, action) == self.moving(
                    PrefillState::Discovering,
                    PrefillActionView::Discover,
                )
                &&& report is None
                &&& costs is None
            },
            (PrefillState::Pulling, PrefillEvent::Pulled(outcome)) => match outcome {
                BundlePullOutcome::Pulled(key) => if key == self.target {
                    (after, action) == self.finishing(Some(key)) && report is None && costs is None
                } else {
                    ends(PrefillReport::TargetIncompatible)
                },
                BundlePullOutcome::Miss(reason) => ends(PrefillReport::Missed(reason)),
            },
            (PrefillState::Pulling, PrefillEvent::PullFailed) => ends(
                PrefillReport::TransferFailed,
            ),
            (_, PrefillEvent::Canceled) => if self.running() {
                ends(PrefillReport::Canceled)
            } else {
                after == self && action == PrefillActionView::Ignore && report is None
                    && costs is None
            },
            (_, PrefillEvent::TimedOut) => if self.running() {
                ends(PrefillReport::TimedOut)
            } else {
                after == self && action == PrefillActionView::Ignore && report is None
                    && costs is None
            },
            _ => after == self && action == PrefillActionView::Ignore && report is None
                && costs is None,
        }
    }
}

/// One conditional prefill.
#[derive(Debug)]
pub struct BundlePrefill {
    request: BundlePrefillRequest,
    config: Option<PrefillConfig>,
    search_deadline: Instant,
    state: PrefillState,
    reserved: Option<usize>,
}

impl View for BundlePrefill {
    type V = PrefillView;

    closed spec fn view(&self) -> PrefillView {
        PrefillView {
            identity: self.request.identity@,
            target: self.request.target,
            seed: self.request.seed,
            num_computed_tokens: self.request.num_computed_tokens,
            total_tokens: self.request.total_tokens,
            config: self.config,
            search_deadline: self.search_deadline,
            state: self.state,
            reserved: self.reserved,
        }
    }
}

impl BundlePrefill {
    pub fn new(
        request: BundlePrefillRequest,
        config: Option<PrefillConfig>,
        search_deadline: Instant,
    ) -> (r: Self)
        ensures
            r@ == (PrefillView {
                identity: request.identity@,
                target: request.target,
                seed: request.seed,
                num_computed_tokens: request.num_computed_tokens,
                total_tokens: request.total_tokens,
                config,
                search_deadline,
                state: PrefillState::Idle,
                reserved: None,
            }),
            r@.wf(),
    {
        BundlePrefill { request, config, search_deadline, state: PrefillState::Idle, reserved: None }
    }

    pub fn request(&self) -> (r: &BundlePrefillRequest)
        ensures
            r.identity@ == self@.identity,
            r.target == self@.target,
            r.seed == self@.seed,
            r.num_computed_tokens == self@.num_computed_tokens,
            r.total_tokens == self@.total_tokens,
    {
        &self.request
    }

    /// The target's token count.
    pub fn target_tokens(&self) -> (r: usize)
        ensures
            r == self@.target_tokens(),
    {
        let tokens: u64 = self.request.target.boundary_tokens;
        if tokens <= usize::MAX as u64 {
            tokens as usize
        } else {
            usize::MAX
        }
    }

    /// The seed's token count, or none without a seed.
    pub fn seed_tokens(&self) -> (r: usize)
        ensures
            r == self@.seed_tokens(),
    {
        match self.request.seed {
            Some(key) => if key.boundary_tokens <= usize::MAX as u64 {
                key.boundary_tokens as usize
            } else {
                0
            },
            None => 0,
        }
    }

    /// The tokens that local work would compute, which is what the scheduler's estimate is for.
    pub fn local_work_tokens(&self) -> (r: usize)
        ensures
            r == work_from(
                self@.target_tokens(),
                later(self@.num_computed_tokens, self@.seed_tokens()),
            ),
            r == self@.local_work_tokens(),
    {
        local_work(self.target_tokens(), self.seed_tokens(), self.request.num_computed_tokens)
    }

    fn bundle_bytes(&self, config: &PrefillConfig) -> (r: u64)
        ensures
            r == self@.bundle_bytes(*config),
    {
        let target: u64 = self.target_tokens() as u64;
        match target.checked_mul(config.bundle_bytes_per_token) {
            Some(bytes) => bytes,
            None => u64::MAX,
        }
    }

    fn window_tokens(&self) -> (r: usize)
        ensures
            r == self@.window_tokens(),
    {
        let target: usize = self.target_tokens();
        let end: usize = if target < usize::MAX {
            target + 1
        } else {
            usize::MAX
        };
        if end <= self.request.total_tokens {
            end
        } else {
            self.request.total_tokens
        }
    }

    fn quiet(&mut self, state: PrefillState, action: PrefillAction) -> (r: PrefillStep)
        ensures
            (final(self)@, r.action@) == old(self)@.moving(state, action@),
            r.report is None,
            r.costs is None,
    {
        self.state = state;
        PrefillStep { action, report: None, costs: None }
    }

    fn finish(
        &mut self,
        selected: Option<BundleKey>,
        report: Option<PrefillReport>,
        costs: Option<PlacementCosts>,
    ) -> (r: PrefillStep)
        ensures
            (final(self)@, r.action@) == old(self)@.finishing(selected),
            r.report == report,
            r.costs == costs,
    {
        let release = self.reserved;
        self.reserved = None;
        self.state = PrefillState::Finished;
        PrefillStep { action: PrefillAction::Finish { selected, release }, report, costs }
    }

    /// Ends the attempt with the seed.
    fn stay_local(&mut self, report: PrefillReport) -> (r: PrefillStep)
        ensures
            (final(self)@, r.action@) == old(self)@.finishing(old(self)@.seed),
            r.report == Some(report),
            r.costs is None,
    {
        let seed = self.request.seed;
        self.finish(seed, Some(report), None)
    }

    fn start(&mut self) -> (r: PrefillStep)
        requires
            old(self)@.state == PrefillState::Idle,
        ensures
            old(self)@.steps(PrefillEvent::Started, final(self)@, r.action@, r.report, r.costs),
    {
        match self.config {
            Some(_) => {
                let tokens: usize = self.local_work_tokens();
                self.quiet(PrefillState::Estimating, PrefillAction::EstimateLocal { tokens })
            },
            None => {
                let seed = self.request.seed;
                self.finish(seed, None, None)
            },
        }
    }

    fn place(&mut self, config: PrefillConfig, local_estimate: Option<Duration>) -> (r: PrefillStep)
        requires
            old(self)@.state == PrefillState::Estimating,
            old(self)@.config == Some(config),
        ensures
            old(self)@.steps(
                PrefillEvent::Estimated { local_estimate },
                final(self)@,
                r.action@,
                r.report,
                r.costs,
            ),
    {
        let seed = self.request.seed;
        let bundle_bytes: u64 = self.bundle_bytes(&config);
        let target_tokens: usize = self.target_tokens();
        let seed_tokens: usize = self.seed_tokens();
        let decision = decide(
            PlacementInputs {
                target_tokens,
                seed_tokens,
                computed_tokens: self.request.num_computed_tokens,
                bundle_bytes,
                local_estimate,
                remote: config.cost,
                margin: config.decision_margin,
            },
        );
        match decision {
            PlacementDecision::Local { reason, costs } => self.finish(
                seed,
                Some(PrefillReport::Placement(reason)),
                Some(costs),
            ),
            PlacementDecision::Remote { costs } => {
                self.state = PrefillState::Planning;
                PrefillStep {
                    action: PrefillAction::Plan(
                        PlanInputs {
                            total_tokens: target_tokens,
                            num_computed_tokens: seed_tokens,
                            matched_tokens: 0,
                            block_size: config.block_size,
                            bundle_bytes,
                        },
                    ),
                    report: None,
                    costs: Some(costs),
                }
            },
        }
    }

    fn dispatch(&mut self, tokens: usize, config: &PrefillConfig, now: Instant) -> (r: PrefillStep)
        ensures
            (final(self)@, r.action@) == (PrefillView {
                reserved: Some(tokens),
                ..old(self)@
            }).moving(
                PrefillState::Dispatching,
                PrefillActionView::Dispatch {
                    window_tokens: old(self)@.window_tokens(),
                    bundle_bytes: old(self)@.bundle_bytes(*config),
                    deadline: old(self)@.dispatch_deadline(*config, now),
                },
            ),
            r.report == Some(PrefillReport::RemoteStrictlyFaster),
            r.costs is None,
    {
        let limit = now.plus(config.bundle_prefill_timeout);
        let deadline = if self.search_deadline.nanos <= limit.nanos {
            self.search_deadline
        } else {
            limit
        };
        let window_tokens: usize = self.window_tokens();
        let bundle_bytes: u64 = self.bundle_bytes(config);
        self.reserved = Some(tokens);
        self.state = PrefillState::Dispatching;
        PrefillStep {
            action: PrefillAction::Dispatch { window_tokens, bundle_bytes, deadline },
            report: Some(PrefillReport::RemoteStrictlyFaster),
            costs: None,
        }
    }

    fn ignore(&self) -> (r: PrefillStep)
        ensures
            r.action@ == PrefillActionView::Ignore,
            r.report is None,
            r.costs is None,
    {
        PrefillStep { action: PrefillAction::Ignore, report: None, costs: None }
    }

    fn is_running(&self) -> (r: bool)
        ensures
            r == self@.running(),
    {
        match self.state {
            PrefillState::Dispatching => true,
            PrefillState::Discovering => true,
            PrefillState::Sleeping => true,
            PrefillState::Pulling => true,
            _ => false,
        }
    }

    /// Takes the attempt one step further.
    pub fn step(&mut self, event: PrefillEvent) -> (r: PrefillStep)
        requires
            old(self)@.wf(),
        ensures
            old(self)@.steps(event, final(self)@, r.action@, r.report, r.costs),
            final(self)@.wf(),
    {
        match (self.state, event) {
            (PrefillState::Idle, PrefillEvent::Started) => self.start(),
            (PrefillState::Estimating, PrefillEvent::Estimated { local_estimate }) => {
                match self.config {
                    Some(config) => self.place(config, local_estimate),
                    None => self.ignore(),
                }
            },
            (PrefillState::Planning, PrefillEvent::Planned { outcome, now }) => match outcome {
                PlanOutcome::Remote { full_block_external_tokens } => match self.config {
                    Some(config) => self.dispatch(full_block_external_tokens, &config, now),
                    None => self.ignore(),
                },
                PlanOutcome::Local { reason } => self.stay_local(PrefillReport::Plan(reason)),
                PlanOutcome::Reject => self.stay_local(PrefillReport::BudgetRejected),
            },
            (PrefillState::Dispatching, PrefillEvent::ContextRejected) => {
                let release = self.reserved;
                self.reserved = None;
                self.state = PrefillState::Finished;
                PrefillStep { action: PrefillAction::Fail { release }, report: None, costs: None }
            },
            (PrefillState::Dispatching, PrefillEvent::Dispatched) => self.quiet(
                PrefillState::Discovering,
                PrefillAction::Discover,
            ),
            (PrefillState::Dispatching, PrefillEvent::DispatchFailed) => self.stay_local(
                PrefillReport::DispatchFailed,
            ),
            (PrefillState::Discovering, PrefillEvent::Hit(candidate)) => {
                let advertisement = candidate.advertisement();
                let expected = advertisement.identity().same_as(&self.request.identity)
                    && advertisement.key() == self.request.target;
                if expected {
                    self.quiet(PrefillState::Pulling, PrefillAction::Pull(candidate))
                } else {
                    self.stay_local(PrefillReport::TargetIncompatible)
                }
            },
            (PrefillState::Discovering, PrefillEvent::Missed(reason)) => {
                if reason == BundleMissReason::NotFound {
                    match self.config {
                        Some(config) => self.quiet(
                            PrefillState::Sleeping,
                            PrefillAction::Sleep(config.bundle_prefill_poll),
                        ),
                        None => self.ignore(),
                    }
                } else {
                    self.stay_local(PrefillReport::Missed(reason))
                }
            },
            (PrefillState::Discovering, PrefillEvent::DirectoryFailed) => self.stay_local(
                PrefillReport::DirectoryFailed,
            ),
            (PrefillState::Sleeping, PrefillEvent::Slept) => self.quiet(
                PrefillState::Discovering,
                PrefillAction::Discover,
            ),
            (PrefillState::Pulling, PrefillEvent::Pulled(outcome)) => match outcome {
                BundlePullOutcome::Pulled(key) => if key == self.request.target {
                    self.finish(Some(key), None, None)
                } else {
                    self.stay_local(PrefillReport::TargetIncompatible)
                },
                BundlePullOutcome::Miss(reason) => self.stay_local(PrefillReport::Missed(reason)),
            },
            (PrefillState::Pulling, PrefillEvent::PullFailed) => self.stay_local(
                PrefillReport::TransferFailed,
            ),
            (_, PrefillEvent::Canceled) => if self.is_running() {
                self.stay_local(PrefillReport::Canceled)
            } else {
                self.ignore()
            },
            (_, PrefillEvent::TimedOut) => if self.is_running() {
                self.stay_local(PrefillReport::TimedOut)
            } else {
                self.ignore()
            },
            _ => self.ignore(),
        }
    }
}

/// A reservation is given back exactly once: whatever step ends an admitted attempt hands back
/// exactly the tokens that were reserved, and no step after that hands back any.
pub proof fn reservations_are_released_exactly_once(
    prefill: PrefillView,
    event: PrefillEvent,
    after: PrefillView,
    action: PrefillActionView,
    report: Option<PrefillReport>,
    costs: Option<PlacementCosts>,
)
    requires
        prefill.wf(),
        prefill.steps(event, after, action, report, costs),
    ensures
        prefill.reserved is Some && after.reserved is None <==> {
            ||| action matches PrefillActionView::Finish { release, .. } && release is Some
            ||| action matches PrefillActionView::Fail { release } && release is Some
        },
        action matches PrefillActionView::Finish { release, .. } ==> release == prefill.reserved,
        action matches PrefillActionView::Fail { release } ==> release == prefill.reserved,
        prefill.reserved is Some && after.reserved is Some ==> after.reserved == prefill.reserved,
{
}

/// An attempt ends with its target, once that was pulled, or with the seed it started from.
pub proof fn failed_prefills_keep_the_seed(
    prefill: PrefillView,
    event: PrefillEvent,
    after: PrefillView,
    action: PrefillActionView,
    report: Option<PrefillReport>,
    costs: Option<PlacementCosts>,
    selected: Option<BundleKey>,
    release: Option<usize>,
)
    requires
        prefill.wf(),
        prefill.steps(event, after, action, report, costs),
        action == (PrefillActionView::Finish { selected, release }),
    ensures
        selected == prefill.seed || (event matches PrefillEvent::Pulled(
            BundlePullOutcome::Pulled(key),
        ) && key == prefill.target && selected == Some(prefill.target)),
{
}

/// No prefill is dispatched unless it was found strictly faster than local work and admitted, and
/// what it is compared with is the estimate for exactly the tokens that local work would compute.
pub proof fn dispatch_follows_admission(
    prefill: PrefillView,
    event: PrefillEvent,
    after: PrefillView,
    action: PrefillActionView,
    report: Option<PrefillReport>,
    costs: Option<PlacementCosts>,
)
    requires
        prefill.wf(),
        prefill.steps(event, after, action, report, costs),
    ensures
        action is Dispatch ==> prefill.state == PrefillState::Planning && after.reserved is Some,
        action is Plan ==> prefill.state == PrefillState::Estimating && (event matches
            PrefillEvent::Estimated { local_estimate } && prefill.placement(
            prefill.config->Some_0,
            local_estimate,
        ).remote_wins()),
        after.state == PrefillState::Estimating && prefill.state != PrefillState::Estimating
            ==> action == (PrefillActionView::EstimateLocal {
            tokens: prefill.local_work_tokens() as usize,
        }) && after == (PrefillView { state: PrefillState::Estimating, ..prefill }),
{
}

/// A dispatched window covers the target whatever the seed is: it reaches one token past the target
/// where the request has one, and never past the request. The worker is told the bytes of the
/// whole target, and has until the configured time has passed or the search ends, whichever comes
/// first.
pub proof fn dispatched_windows_cover_the_target(
    prefill: PrefillView,
    event: PrefillEvent,
    after: PrefillView,
    report: Option<PrefillReport>,
    costs: Option<PlacementCosts>,
    window_tokens: usize,
    bundle_bytes: u64,
    deadline: Instant,
)
    requires
        prefill.wf(),
        prefill.steps(
            event,
            after,
            PrefillActionView::Dispatch { window_tokens, bundle_bytes, deadline },
            report,
            costs,
        ),
        prefill.target.boundary_tokens <= usize::MAX,
    ensures
        window_tokens <= prefill.total_tokens,
        prefill.total_tokens > prefill.target.boundary_tokens ==> window_tokens
            == prefill.target.boundary_tokens + 1,
        prefill.total_tokens <= prefill.target.boundary_tokens ==> window_tokens
            == prefill.total_tokens,
        ({
            let whole = prefill.target.boundary_tokens
                * prefill.config->Some_0.bundle_bytes_per_token;
            &&& whole <= u64::MAX ==> bundle_bytes == whole
            &&& whole > u64::MAX ==> bundle_bytes == u64::MAX
        }),
        event matches PrefillEvent::Planned { now, .. } && {
            let allowed = now.nanos + prefill.config->Some_0.bundle_prefill_timeout@;
            &&& deadline.nanos <= prefill.search_deadline.nanos
            &&& deadline.nanos <= allowed
            &&& deadline == prefill.search_deadline || deadline.nanos == allowed
        },
        report == Some(PrefillReport::RemoteStrictlyFaster),
{
}

/// Two attempts that differ only in their seed dispatch the same window, bytes and deadline.
pub proof fn the_seed_does_not_change_the_dispatch(
    prefill: PrefillView,
    seed: Option<BundleKey>,
    event: PrefillEvent,
    after: (PrefillView, PrefillView),
    action: (PrefillActionView, PrefillActionView),
    report: (Option<PrefillReport>, Option<PrefillReport>),
    costs: (Option<PlacementCosts>, Option<PlacementCosts>),
)
    requires
        prefill.steps(event, after.0, action.0, report.0, costs.0),
        (PrefillView { seed, ..prefill }).steps(event, after.1, action.1, report.1, costs.1),
        action.0 is Dispatch,
    ensures
        action.1 == action.0,
{
}

/// The scheduler is asked about exactly the tokens of the target that neither the seed nor what is
/// computed covers.
pub proof fn local_estimates_are_for_the_uncovered_tokens(
    prefill: PrefillView,
    event: PrefillEvent,
    after: PrefillView,
    report: Option<PrefillReport>,
    costs: Option<PlacementCosts>,
    tokens: usize,
)
    requires
        prefill.steps(event, after, PrefillActionView::EstimateLocal { tokens }, report, costs),
        prefill.target.boundary_tokens <= usize::MAX,
        prefill.seed is Some ==> prefill.seed->Some_0.boundary_tokens <= usize::MAX,
    ensures
        ({
            let target = prefill.target.boundary_tokens as int;
            let computed = prefill.num_computed_tokens as int;
            let seeded = match prefill.seed {
                Some(seed) => seed.boundary_tokens as int,
                None => 0,
            };
            &&& tokens == 0 <==> computed >= target || seeded >= target
            &&& tokens > 0 ==> tokens + computed <= target && tokens + seeded <= target
            &&& tokens > 0 ==> tokens + computed == target || tokens + seeded == target
        }),
{
}

/// Admission is asked for the whole target, with the seed as what is computed already.
pub proof fn admission_is_asked_for_the_whole_target(
    prefill: PrefillView,
    event: PrefillEvent,
    after: PrefillView,
    report: Option<PrefillReport>,
    costs: Option<PlacementCosts>,
    inputs: PlanInputs,
)
    requires
        prefill.wf(),
        prefill.steps(event, after, PrefillActionView::Plan(inputs), report, costs),
        prefill.target.boundary_tokens <= usize::MAX,
        prefill.seed is Some ==> prefill.seed->Some_0.boundary_tokens <= usize::MAX,
    ensures
        inputs.total_tokens == prefill.target.boundary_tokens,
        inputs.num_computed_tokens == match prefill.seed {
            Some(seed) => seed.boundary_tokens as int,
            None => 0,
        },
        inputs.matched_tokens == 0,
        inputs.block_size == prefill.config->Some_0.block_size,
        ({
            let whole = prefill.target.boundary_tokens
                * prefill.config->Some_0.bundle_bytes_per_token;
            &&& whole <= u64::MAX ==> inputs.bundle_bytes == whole
            &&& whole > u64::MAX ==> inputs.bundle_bytes == u64::MAX
        }),
        event matches PrefillEvent::Estimated { local_estimate } && local_estimate is Some,
{
}

/// Once a prefill is handed out, the directory is asked for the target until it has it or gives
/// another answer: an unknown target is asked for again after the configured pause, only the
/// target itself is pulled, and once pulled it is what the attempt ends with.
pub proof fn a_dispatched_target_is_awaited_and_pulled(
    prefill: PrefillView,
    event: PrefillEvent,
    after: PrefillView,
    action: PrefillActionView,
    report: Option<PrefillReport>,
    costs: Option<PlacementCosts>,
)
    requires
        prefill.wf(),
        prefill.running(),
        prefill.steps(event, after, action, report, costs),
    ensures
        match event {
            PrefillEvent::Dispatched => prefill.state is Dispatching ==> action is Discover
                && after.state is Discovering,
            PrefillEvent::Missed(reason) => prefill.state is Discovering ==> {
                &&& reason is NotFound ==> action == PrefillActionView::Sleep(
                    prefill.config->Some_0.bundle_prefill_poll,
                ) && after.state is Sleeping
                &&& !(reason is NotFound) ==> report == Some(PrefillReport::Missed(reason))
                    && action == (PrefillActionView::Finish {
                    selected: prefill.seed,
                    release: prefill.reserved,
                })
            },
            PrefillEvent::Slept => prefill.state is Sleeping ==> action is Discover
                && after.state is Discovering,
            PrefillEvent::Hit(candidate) => prefill.state is Discovering ==> if {
                &&& candidate@.advertisement.identity == prefill.identity
                &&& candidate@.advertisement.key == prefill.target
            } {
                action == PrefillActionView::Pull(candidate@) && after.state is Pulling
            } else {
                report == Some(PrefillReport::TargetIncompatible) && action is Finish
            },
            PrefillEvent::Pulled(outcome) => prefill.state is Pulling ==> {
                &&& outcome == BundlePullOutcome::Pulled(prefill.target) ==> report is None
                    && action == (PrefillActionView::Finish {
                    selected: Some(prefill.target),
                    release: prefill.reserved,
                })
                &&& outcome != BundlePullOutcome::Pulled(prefill.target) ==> action == (
                PrefillActionView::Finish { selected: prefill.seed, release: prefill.reserved })
                &&& outcome matches BundlePullOutcome::Miss(reason) ==> report == Some(
                    PrefillReport::Missed(reason),
                )
            },
            PrefillEvent::Canceled => report == Some(PrefillReport::Canceled) && action is Finish
                && after.state is Finished,
            PrefillEvent::TimedOut => report == Some(PrefillReport::TimedOut) && action is Finish
                && after.state is Finished,
            _ => true,
        },
{
}

/// A prefill is planned exactly where the target lies beyond the seed, the scheduler has an
/// estimate, and the remote worker's cost for the tokens past the seed and the bytes of the target,
/// with the margin, is strictly below it; otherwise the attempt ends with the seed, for the reason
/// that held first. What was compared is recorded either way.
pub proof fn prefills_are_planned_where_strictly_faster(
    prefill: PrefillView,
    local_estimate: Option<Duration>,
    after: PrefillView,
    action: PrefillActionView,
    report: Option<PrefillReport>,
    costs: Option<PlacementCosts>,
)
    requires
        prefill.wf(),
        prefill.state is Estimating,
        prefill.steps(
            PrefillEvent::Estimated { local_estimate },
            after,
            action,
            report,
            costs,
        ),
        prefill.target.boundary_tokens <= usize::MAX,
        prefill.seed is Some ==> prefill.seed->Some_0.boundary_tokens <= usize::MAX,
        local_estimate is Some ==> local_estimate->Some_0@ <= MAX_NANOS,
        prefill.target.boundary_tokens * prefill.config->Some_0.bundle_bytes_per_token <= u64::MAX,
    ensures
        ({
            let config = prefill.config->Some_0;
            let target = prefill.target.boundary_tokens as int;
            let seeded = match prefill.seed {
                Some(seed) => seed.boundary_tokens as int,
                None => 0,
            };
            let tokens = if target > seeded {
                target - seeded
            } else {
                0
            };
            let remote = config.cost.cost(
                tokens as usize,
                (target * config.bundle_bytes_per_token) as u64,
            );
            let ends = action == (PrefillActionView::Finish {
                selected: prefill.seed,
                release: None,
            });
            &&& action is Plan <==> tokens > 0 && local_estimate is Some && remote
                + config.decision_margin@ < local_estimate->Some_0@
            &&& action is Plan ==> report is None && after.state is Planning
            &&& !(action is Plan) ==> ends && after.state is Finished
            &&& tokens == 0 ==> report == Some(
                PrefillReport::Placement(LocalPlacementReason::NoRemoteWork),
            )
            &&& tokens > 0 && local_estimate is None ==> report == Some(
                PrefillReport::Placement(LocalPlacementReason::MissingLocalEstimate),
            )
            &&& tokens > 0 && local_estimate is Some && !(action is Plan) ==> report == Some(
                PrefillReport::Placement(LocalPlacementReason::CostComparison),
            )
            &&& costs is Some
            &&& costs->Some_0.remote_work_tokens == tokens
            &&& costs->Some_0.local_estimate == local_estimate
            &&& costs->Some_0.remote_estimate@ == remote
            &&& costs->Some_0.local_work_tokens <= tokens
        }),
{
}

/// Without a configuration nothing is estimated: the attempt ends with its seed at once.
pub proof fn unconfigured_prefills_end_with_the_seed(
    prefill: PrefillView,
    after: PrefillView,
    action: PrefillActionView,
    report: Option<PrefillReport>,
    costs: Option<PlacementCosts>,
)
    requires
        prefill.wf(),
        prefill.state is Idle,
        prefill.steps(PrefillEvent::Started, after, action, report, costs),
    ensures
        action is EstimateLocal <==> prefill.config is Some,
        prefill.config is None ==> action == (PrefillActionView::Finish {
            selected: prefill.seed,
            release: None,
        }),
        report is None,
{
}

/// An attempt that is kept local by its admission ends with its seed, for the plan's own reason or
/// because the budget rejected it, and hands out nothing.
pub proof fn unadmitted_prefills_end_with_the_seed(
    prefill: PrefillView,
    outcome: PlanOutcome,
    now: Instant,
    after: PrefillView,
    action: PrefillActionView,
    report: Option<PrefillReport>,
    costs: Option<PlacementCosts>,
)
    requires
        prefill.wf(),
        prefill.state is Planning,
        prefill.steps(PrefillEvent::Planned { outcome, now }, after, action, report, costs),
    ensures
        action is Dispatch <==> outcome is Remote,
        outcome matches PlanOutcome::Remote { full_block_external_tokens } ==> after.reserved
            == Some(full_block_external_tokens),
        !(outcome is Remote) ==> action == (PrefillActionView::Finish {
            selected: prefill.seed,
            release: None,
        }),
        outcome matches PlanOutcome::Local { reason } ==> report == Some(
            PrefillReport::Plan(reason),
        ),
        outcome is Reject ==> report == Some(PrefillReport::BudgetRejected),
{
}

/// What fails a running attempt is recorded for what it was, and the attempt ends with its seed; one
/// without a context breaks down.
pub proof fn failures_of_running_prefills_are_recorded(
    prefill: PrefillView,
    event: PrefillEvent,
    after: PrefillView,
    action: PrefillActionView,
    report: Option<PrefillReport>,
    costs: Option<PlacementCosts>,
)
    requires
        prefill.wf(),
        prefill.steps(event, after, action, report, costs),
    ensures
        match (prefill.state, event) {
            (PrefillState::Dispatching, PrefillEvent::DispatchFailed) => report == Some(
                PrefillReport::DispatchFailed,
            ) && action is Finish,
            (PrefillState::Dispatching, PrefillEvent::ContextRejected) => report is None && action
                == (PrefillActionView::Fail { release: prefill.reserved }),
            (PrefillState::Discovering, PrefillEvent::DirectoryFailed) => report == Some(
                PrefillReport::DirectoryFailed,
            ) && action is Finish,
            (PrefillState::Pulling, PrefillEvent::PullFailed) => report == Some(
                PrefillReport::TransferFailed,
            ) && action is Finish,
            _ => true,
        },
        prefill.state is Finished ==> after == prefill && action is Ignore && report is None,
{
}

} // verus!
