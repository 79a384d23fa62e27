//! One bounded remote lookup with an optional seed pull and a placement decision.
//!
//! The lookup is a machine: it says what to do next, and is told what came of it.

use crate::bundle::catalog::BundleCatalog;
use crate::bundle::index::{
    lease_of, lease_view, one_can_be_gone, BundleLease, BundleResourcePin, LeaseView,
};
use crate::bundle::searches::RemoteBundleResolution;
use crate::ids::BundleKey;
use crate::lists::contains_key;
use crate::manifest::CacheIdentity;
use crate::remote::search::{BundleMissReason, BundlePullOutcome};
use vstd::prelude::*;

verus! {

/// Why a remote lookup gave nothing.
#[derive(Clone, Copy, Debug, PartialEq, Eq, Structural)]
pub enum FindMiss {
    TimedOut,
    DirectoryFailed,
    Incompatible,
    CommitFailed,
    TransferFailed,
    Reason(BundleMissReason),
}

/// What a step adds to the metrics.
#[derive(Clone, Copy, Debug, PartialEq, Eq, Structural)]
pub enum FindReport {
    Quiet,
    RemoteMiss(FindMiss),
    RemoteHit { boundary_tokens: u64 },
}

impl FindReport {
    pub open spec fn label_pair(self) -> Option<(Seq<char>, Seq<char>)> {
        match self {
            FindReport::Quiet => None,
            FindReport::RemoteHit { .. } => Some(("remote_hit"@, "complete"@)),
            FindReport::RemoteMiss(miss) => Some(
                (
                    "remote_miss"@,
                    match miss {
                        FindMiss::TimedOut => "timed_out"@,
                        FindMiss::DirectoryFailed => "directory_failed"@,
                        FindMiss::Incompatible => "incompatible"@,
                        FindMiss::CommitFailed => "commit_failed"@,
                        FindMiss::TransferFailed => "transfer_failed"@,
                        FindMiss::Reason(reason) => reason.label(),
                    },
                ),
            ),
        }
    }

    /// The counter and the reason to count under.
    pub fn labels(self) -> (r: Option<(&'static str, &'static str)>)
        ensures
            r is Some <==> self.label_pair() is Some,
            r is Some ==> (r->Some_0.0@, r->Some_0.1@) == self.label_pair()->Some_0,
    {
        match self {
            FindReport::Quiet => None,
            FindReport::RemoteHit { .. } => Some(("remote_hit", "complete")),
            FindReport::RemoteMiss(miss) => Some(
                (
                    "remote_miss",
                    match miss {
                        FindMiss::TimedOut => "timed_out",
                        FindMiss::DirectoryFailed => "directory_failed",
                        FindMiss::Incompatible => "incompatible",
                        FindMiss::CommitFailed => "commit_failed",
                        FindMiss::TransferFailed => "transfer_failed",
                        FindMiss::Reason(reason) => reason.as_label(),
                    },
                ),
            ),
        }
    }
}

/// What a lookup is told.
#[derive(Debug)]
pub enum FindEvent<P> {
    /// The request went away before the directory answered.
    Canceled,
    TimedOut,
    DirectoryFailed,
    Missed(BundleMissReason),
    /// The directory leased a bundle under this key.
    Hit(BundleKey),
    Pulled(BundlePullOutcome),
    PullFailed,
    /// The lease that was asked for, where the bundle could be pinned.
    Leased(Option<BundleLease<P>>),
    /// The first candidate that is held locally by now.
    Local(Option<BundleLease<P>>),
    /// The bundle that the prefill settled on.
    Prefilled(Option<BundleKey>),
    PrefillFailed,
}

/// What a lookup asks for.
#[derive(Debug)]
pub enum FindAction<P> {
    /// Pull the bundle that the directory leased.
    Pull,
    /// Pin a bundle that was just committed.
    Lease(BundleKey),
    /// Read the catalog for a candidate that arrived meanwhile.
    ReadLocal,
    /// Decide on a prefill from this seed to the target, and run it.
    Prefill { seed: Option<BundleKey> },
    Resolve(RemoteBundleResolution<P>),
    /// The event does not belong to the state and changes nothing.
    Ignore,
}

/// Where a lookup stands.
#[derive(Debug)]
enum FindState<P> {
    Discovering,
    Pulling,
    LeasingPulled(BundleKey),
    ReadingLocal { seed: Option<BundleKey>, lease: Option<BundleLease<P>> },
    Prefilling { seed: Option<BundleKey>, lease: Option<BundleLease<P>> },
    LeasingSelected,
    Finished,
}

/// The mathematical content of the state of a lookup.
pub enum FindStateView<P> {
    Discovering,
    Pulling,
    LeasingPulled(BundleKey),
    ReadingLocal { seed: Option<BundleKey>, lease: Option<LeaseView<P>> },
    Prefilling { seed: Option<BundleKey>, lease: Option<LeaseView<P>> },
    LeasingSelected,
    Finished,
}

impl<P> View for FindState<P> {
    type V = FindStateView<P>;

    closed spec fn view(&self) -> FindStateView<P> {
        match self {
            FindState::Discovering => FindStateView::Discovering,
            FindState::Pulling => FindStateView::Pulling,
            FindState::LeasingPulled(key) => FindStateView::LeasingPulled(*key),
            FindState::ReadingLocal { seed, lease } => FindStateView::ReadingLocal {
                seed: *seed,
                lease: lease_view(*lease),
            },
            FindState::Prefilling { seed, lease } => FindStateView::Prefilling {
                seed: *seed,
                lease: lease_view(*lease),
            },
            FindState::LeasingSelected => FindStateView::LeasingSelected,
            FindState::Finished => FindStateView::Finished,
        }
    }
}

/// The mathematical content of a [`FindAction`].
pub enum FindActionView<P> {
    Pull,
    Lease(BundleKey),
    ReadLocal,
    Prefill { seed: Option<BundleKey> },
    Selected(LeaseView<P>),
    Fallback,
    Miss,
    Ignore,
}

impl<P> View for FindAction<P> {
    type V = FindActionView<P>;

    open spec fn view(&self) -> FindActionView<P> {
        match self {
            FindAction::Pull => FindActionView::Pull,
            FindAction::Lease(key) => FindActionView::Lease(*key),
            FindAction::ReadLocal => FindActionView::ReadLocal,
            FindAction::Prefill { seed } => FindActionView::Prefill { seed: *seed },
            FindAction::Resolve(RemoteBundleResolution::Selected(lease)) => {
                FindActionView::Selected(lease@)
            },
            FindAction::Resolve(RemoteBundleResolution::Fallback) => FindActionView::Fallback,
            FindAction::Resolve(RemoteBundleResolution::Miss) => FindActionView::Miss,
            FindAction::Ignore => FindActionView::Ignore,
        }
    }
}

/// The mathematical content of a [`RemoteBundleFind`].
pub struct RemoteFindView<P> {
    pub candidates: Seq<BundleKey>,
    pub target: BundleKey,
    pub fallback: Option<BundleKey>,
    pub state: FindStateView<P>,
}

impl<P> RemoteFindView<P> {
    pub open spec fn at(self, state: FindStateView<P>) -> RemoteFindView<P> {
        RemoteFindView { state, ..self }
    }

    /// Ends the lookup with what was leased from the start, if anything.
    pub open spec fn falls_back(self, report: FindReport) -> (
        RemoteFindView<P>,
        FindActionView<P>,
        FindReport,
    ) {
        (
            self.at(FindStateView::Finished),
            if self.fallback is Some {
                FindActionView::Fallback
            } else {
                FindActionView::Miss
            },
            report,
        )
    }

    pub open spec fn selects(self, lease: LeaseView<P>, report: FindReport) -> (
        RemoteFindView<P>,
        FindActionView<P>,
        FindReport,
    ) {
        (self.at(FindStateView::Finished), FindActionView::Selected(lease), report)
    }

    pub open spec fn discovered(self, event: FindEvent<P>) -> (
        RemoteFindView<P>,
        FindActionView<P>,
        FindReport,
    ) {
        match event {
            FindEvent::Canceled => self.falls_back(FindReport::Quiet),
            FindEvent::TimedOut => self.falls_back(FindReport::RemoteMiss(FindMiss::TimedOut)),
            FindEvent::DirectoryFailed => self.falls_back(
                FindReport::RemoteMiss(FindMiss::DirectoryFailed),
            ),
            FindEvent::Missed(BundleMissReason::NotFound) => (
                self.at(FindStateView::ReadingLocal { seed: self.fallback, lease: None }),
                FindActionView::ReadLocal,
                FindReport::Quiet,
            ),
            FindEvent::Missed(reason) => self.falls_back(
                FindReport::RemoteMiss(FindMiss::Reason(reason)),
            ),
            FindEvent::Hit(key) => if self.candidates.contains(key) {
                (self.at(FindStateView::Pulling), FindActionView::Pull, FindReport::Quiet)
            } else {
                self.falls_back(FindReport::RemoteMiss(FindMiss::Incompatible))
            },
            _ => (self, FindActionView::Ignore, FindReport::Quiet),
        }
    }

    pub open spec fn pulled(self, event: FindEvent<P>) -> (
        RemoteFindView<P>,
        FindActionView<P>,
        FindReport,
    ) {
        match event {
            FindEvent::Pulled(BundlePullOutcome::Pulled(key)) => (
                self.at(FindStateView::LeasingPulled(key)),
                FindActionView::Lease(key),
                FindReport::Quiet,
            ),
            FindEvent::Pulled(BundlePullOutcome::Miss(reason)) => self.falls_back(
                FindReport::RemoteMiss(FindMiss::Reason(reason)),
            ),
            FindEvent::PullFailed => self.falls_back(
                FindReport::RemoteMiss(FindMiss::TransferFailed),
            ),
            _ => (self, FindActionView::Ignore, FindReport::Quiet),
        }
    }

    pub open spec fn leased_pulled(self, key: BundleKey, lease: Option<LeaseView<P>>) -> (
        RemoteFindView<P>,
        FindActionView<P>,
        FindReport,
    ) {
        let hit = FindReport::RemoteHit { boundary_tokens: key.boundary_tokens };
        match lease {
            None => self.falls_back(FindReport::RemoteMiss(FindMiss::CommitFailed)),
            Some(lease) => if key == self.target {
                self.selects(lease, hit)
            } else {
                (
                    self.at(FindStateView::ReadingLocal { seed: Some(key), lease: Some(lease) }),
                    FindActionView::ReadLocal,
                    hit,
                )
            },
        }
    }

    /// A bundle that arrived locally meanwhile replaces a shorter seed, and ends the lookup where
    /// it is the target.
    pub open spec fn read_local(
        self,
        seed: Option<BundleKey>,
        lease: Option<LeaseView<P>>,
        local: Option<LeaseView<P>>,
    ) -> (RemoteFindView<P>, FindActionView<P>, FindReport) {
        let longer = local is Some && (seed is None || local->Some_0.key.boundary_tokens
            > seed->Some_0.boundary_tokens);
        if longer && local->Some_0.key == self.target {
            self.selects(local->Some_0, FindReport::Quiet)
        } else {
            let seed = if longer {
                Some(local->Some_0.key)
            } else {
                seed
            };
            (
                self.at(
                    FindStateView::Prefilling {
                        seed,
                        lease: if longer {
                            local
                        } else {
                            lease
                        },
                    },
                ),
                FindActionView::Prefill { seed },
                FindReport::Quiet,
            )
        }
    }

    /// What the prefill settled on: the lease held from the start, the seed's lease, or a bundle
    /// that is to be pinned now.
    pub open spec fn prefilled(
        self,
        seed: Option<BundleKey>,
        lease: Option<LeaseView<P>>,
        selected: Option<BundleKey>,
    ) -> (RemoteFindView<P>, FindActionView<P>, FindReport) {
        if selected is None {
            self.falls_back(FindReport::Quiet)
        } else if self.fallback == selected {
            (self.at(FindStateView::Finished), FindActionView::Fallback, FindReport::Quiet)
        } else if seed == selected && lease is Some {
            self.selects(lease->Some_0, FindReport::Quiet)
        } else {
            (
                self.at(FindStateView::LeasingSelected),
                FindActionView::Lease(selected->Some_0),
                FindReport::Quiet,
            )
        }
    }

    /// Where an event takes the lookup, what it then asks for and what it reports.
    pub open spec fn stepped(self, event: FindEvent<P>) -> (
        RemoteFindView<P>,
        FindActionView<P>,
        FindReport,
    ) {
        match (self.state, event) {
            (FindStateView::Discovering, event) => self.discovered(event),
            (FindStateView::Pulling, event) => self.pulled(event),
            (FindStateView::LeasingPulled(key), FindEvent::Leased(lease)) => self.leased_pulled(
                key,
                lease_view(lease),
            ),
            (FindStateView::ReadingLocal { seed, lease }, FindEvent::Local(local)) => {
                self.read_local(seed, lease, lease_view(local))
            },
            (FindStateView::Prefilling { seed, lease }, FindEvent::Prefilled(selected)) => {
                self.prefilled(seed, lease, selected)
            },
            (FindStateView::Prefilling { seed, lease }, FindEvent::PrefillFailed) => {
                self.prefilled(seed, lease, seed)
            },
            (FindStateView::LeasingSelected, FindEvent::Leased(lease)) => match lease {
                Some(lease) => self.selects(lease@, FindReport::Quiet),
                None => self.falls_back(FindReport::Quiet),
            },
            _ => (self, FindActionView::Ignore, FindReport::Quiet),
        }
    }
}

/// A remote lookup for the bundles beyond what is leased locally.
#[derive(Debug)]
pub struct RemoteBundleFind<P> {
    candidates: Vec<BundleKey>,
    target: BundleKey,
    fallback: Option<BundleKey>,
    state: FindState<P>,
}

impl<P> View for RemoteBundleFind<P> {
    type V = RemoteFindView<P>;

    closed spec fn view(&self) -> RemoteFindView<P> {
        RemoteFindView {
            candidates: self.candidates@,
            target: self.target,
            fallback: self.fallback,
            state: self.state@,
        }
    }
}

impl<P> RemoteBundleFind<P> {
    pub fn new(
        candidates: Vec<BundleKey>,
        target: BundleKey,
        fallback: Option<BundleKey>,
    ) -> (r: Self)
        ensures
            r@ == (RemoteFindView::<P> {
                candidates: candidates@,
                target,
                fallback,
                state: FindStateView::Discovering,
            }),
    {
        RemoteBundleFind { candidates, target, fallback, state: FindState::Discovering }
    }

    pub fn candidates(&self) -> (r: &[BundleKey])
        ensures
            r@ == self@.candidates,
    {
        self.candidates.as_slice()
    }

    fn fall_back(&mut self, report: FindReport) -> (r: (FindAction<P>, FindReport))
        ensures
            (final(self)@, r.0@, r.1) == old(self)@.falls_back(report),
    {
        self.state = FindState::Finished;
        let resolution = if self.fallback.is_some() {
            RemoteBundleResolution::Fallback
        } else {
            RemoteBundleResolution::Miss
        };
        (FindAction::Resolve(resolution), report)
    }

    fn miss(&mut self, miss: FindMiss) -> (r: (FindAction<P>, FindReport))
        ensures
            (final(self)@, r.0@, r.1) == old(self)@.falls_back(FindReport::RemoteMiss(miss)),
    {
        self.fall_back(FindReport::RemoteMiss(miss))
    }

    fn select(&mut self, lease: BundleLease<P>, report: FindReport) -> (r: (
        FindAction<P>,
        FindReport,
    ))
        ensures
            (final(self)@, r.0@, r.1) == old(self)@.selects(lease@, report),
    {
        self.state = FindState::Finished;
        (FindAction::Resolve(RemoteBundleResolution::Selected(lease)), report)
    }

    fn resolve_selected(
        &mut self,
        seed: Option<BundleKey>,
        lease: Option<BundleLease<P>>,
        selected: Option<BundleKey>,
    ) -> (r: (FindAction<P>, FindReport))
        ensures
            (final(self)@, r.0@, r.1) == old(self)@.prefilled(seed, lease_view(lease), selected),
    {
        let key = match selected {
            Some(key) => key,
            None => {
                return self.fall_back(FindReport::Quiet);
            },
        };
        if self.fallback == selected {
            self.state = FindState::Finished;
            return (FindAction::Resolve(RemoteBundleResolution::Fallback), FindReport::Quiet);
        }
        if seed == selected {
            if let Some(lease) = lease {
                return self.select(lease, FindReport::Quiet);
            }
        }
        self.state = FindState::LeasingSelected;
        (FindAction::Lease(key), FindReport::Quiet)
    }

    /// Takes the lookup one step further.
    pub fn step(&mut self, event: FindEvent<P>) -> (r: (FindAction<P>, FindReport))
        ensures
            (final(self)@, r.0@, r.1) == old(self)@.stepped(event),
    {
        let mut state: FindState<P> = FindState::Finished;
        std::mem::swap(&mut self.state, &mut state);
        match (state, event) {
            (FindState::Discovering, FindEvent::Canceled) => self.fall_back(FindReport::Quiet),
            (FindState::Discovering, FindEvent::TimedOut) => self.miss(FindMiss::TimedOut),
            (FindState::Discovering, FindEvent::DirectoryFailed) => self.miss(
                FindMiss::DirectoryFailed,
            ),
            (FindState::Discovering, FindEvent::Missed(reason)) => {
                if reason == BundleMissReason::NotFound {
                    self.state = FindState::ReadingLocal { seed: self.fallback, lease: None };
                    (FindAction::ReadLocal, FindReport::Quiet)
                } else {
                    self.miss(FindMiss::Reason(reason))
                }
            },
            (FindState::Discovering, FindEvent::Hit(key)) => {
                if contains_key(self.candidates.as_slice(), &key) {
                    self.state = FindState::Pulling;
                    (FindAction::Pull, FindReport::Quiet)
                } else {
                    self.miss(FindMiss::Incompatible)
                }
            },
            (FindState::Pulling, FindEvent::Pulled(outcome)) => match outcome {
                BundlePullOutcome::Pulled(key) => {
                    self.state = FindState::LeasingPulled(key);
                    (FindAction::Lease(key), FindReport::Quiet)
                },
                BundlePullOutcome::Miss(reason) => self.miss(FindMiss::Reason(reason)),
            },
            (FindState::Pulling, FindEvent::PullFailed) => self.miss(FindMiss::TransferFailed),
            (FindState::LeasingPulled(key), FindEvent::Leased(lease)) => match lease {
                None => self.miss(FindMiss::CommitFailed),
                Some(lease) => {
                    let hit = FindReport::RemoteHit { boundary_tokens: key.boundary_tokens };
                    if key == self.target {
                        self.select(lease, hit)
                    } else {
                        self.state = FindState::ReadingLocal { seed: Some(key), lease: Some(lease) };
                        (FindAction::ReadLocal, hit)
                    }
                },
            },
            (FindState::ReadingLocal { seed, lease }, FindEvent::Local(local)) => {
                let longer = match &local {
                    Some(local) => match seed {
                        Some(seed) => local.key().boundary_tokens > seed.boundary_tokens,
                        None => true,
                    },
                    None => false,
                };
                let (seed, lease) = match local {
                    Some(local) => if longer {
                        let key = *local.key();
                        if key == self.target {
                            return self.select(local, FindReport::Quiet);
                        }
                        (Some(key), Some(local))
                    } else {
                        (seed, lease)
                    },
                    None => (seed, lease),
                };
                self.state = FindState::Prefilling { seed, lease };
                (FindAction::Prefill { seed }, FindReport::Quiet)
            },
            (FindState::Prefilling { seed, lease }, FindEvent::Prefilled(selected)) => {
                self.resolve_selected(seed, lease, selected)
            },
            (FindState::Prefilling { seed, lease }, FindEvent::PrefillFailed) => {
                self.resolve_selected(seed, lease, seed)
            },
            (FindState::LeasingSelected, FindEvent::Leased(lease)) => match lease {
                Some(lease) => self.select(lease, FindReport::Quiet),
                None => self.fall_back(FindReport::Quiet),
            },
            (state, _) => {
                self.state = state;
                (FindAction::Ignore, FindReport::Quiet)
            },
        }
    }
}

/// Pins the first of some bundles that is held locally.
pub fn best_local_candidate<P: BundleResourcePin>(
    catalog: &BundleCatalog<P>,
    identity: &CacheIdentity,
    candidates: &[BundleKey],
) -> (r: Option<BundleLease<P>>)
    ensures
        match r {
            Some(lease) => exists|at: int|
                {
                    &&& 0 <= at < candidates@.len()
                    &&& (#[trigger] candidates@[at]).compatible(identity@)
                    &&& lease_of(catalog@.committed, candidates@[at], lease@)
                    &&& forall|i: int|
                        0 <= i < at && (#[trigger] candidates@[i]).compatible(identity@)
                            && catalog@.committed.contains_key(candidates@[i]) ==> one_can_be_gone(
                            catalog@.committed[candidates@[i]].resources,
                        )
                },
            None => forall|i: int|
                0 <= i < candidates@.len() && (#[trigger] candidates@[i]).compatible(identity@)
                    && catalog@.committed.contains_key(candidates@[i]) ==> one_can_be_gone(
                    catalog@.committed[candidates@[i]].resources,
                ),
        },
{
    let mut at: usize = 0;
    while at < candidates.len()
        invariant
            at <= candidates@.len(),
            forall|i: int|
                0 <= i < at && (#[trigger] candidates@[i]).compatible(identity@)
                    && catalog@.committed.contains_key(candidates@[i]) ==> one_can_be_gone(
                    catalog@.committed[candidates@[i]].resources,
                ),
        decreases candidates@.len() - at,
    {
        if let Some(lease) = catalog.lease_exact(identity, &candidates[at]) {
            assert(lease_of(catalog@.committed, candidates@[at as int], lease@));
            return Some(lease);
        }
        at = at + 1;
    }
    None
}

/// A prefill is considered only after the directory found nothing or a leased seed was pulled and
/// pinned: any other answer of the directory ends the lookup.
pub proof fn only_clean_misses_lead_to_a_prefill<P>(find: RemoteFindView<P>, event: FindEvent<P>)
    requires
        find.state is Discovering,
        find.stepped(event).1 is ReadLocal,
    ensures
        event == FindEvent::<P>::Missed(BundleMissReason::NotFound),
{
}

/// The target is never prefilled once it is held locally.
pub proof fn a_local_target_suppresses_the_prefill<P>(
    find: RemoteFindView<P>,
    seed: Option<BundleKey>,
    lease: Option<LeaseView<P>>,
    local: BundleLease<P>,
)
    requires
        find.state == (FindStateView::<P>::ReadingLocal { seed, lease }),
        local@.key == find.target,
        seed is Some ==> seed->Some_0.boundary_tokens < find.target.boundary_tokens,
    ensures
        find.stepped(FindEvent::Local(Some(local))).1 == FindActionView::Selected(local@),
{
}

/// A lookup that fails in any way ends with the lease held from the start, where there is one.
pub proof fn failed_lookups_keep_the_fallback<P>(find: RemoteFindView<P>, event: FindEvent<P>)
    requires
        find.fallback is Some,
    ensures
        !(find.stepped(event).1 is Miss),
{
}

/// A lookup never ends with less than it holds: where the prefill settles on the pinned seed, or
/// fails, the lookup ends with exactly the seed's lease; only a seed that is the bundle leased from
/// the start ends it with that one.
pub proof fn a_settled_prefill_keeps_the_pinned_seed<P>(
    find: RemoteFindView<P>,
    seed: BundleKey,
    lease: LeaseView<P>,
    event: FindEvent<P>,
)
    requires
        find.state == (FindStateView::Prefilling { seed: Some(seed), lease: Some(lease) }),
        event == FindEvent::<P>::Prefilled(Some(seed)) || event is PrefillFailed,
    ensures
        find.fallback != Some(seed) ==> find.stepped(event).1 == FindActionView::Selected(lease),
        find.fallback == Some(seed) ==> find.stepped(event).1 == FindActionView::<P>::Fallback,
        !(find.stepped(event).1 is Miss),
        find.stepped(event).0.state is Finished,
{
}

/// A prefill that settles on a bundle of its own has that bundle pinned, and the lookup then ends
/// with exactly the lease that comes back.
pub proof fn a_prefilled_bundle_is_pinned_and_selected<P>(
    find: RemoteFindView<P>,
    seed: Option<BundleKey>,
    lease: Option<LeaseView<P>>,
    selected: BundleKey,
    pinned: BundleLease<P>,
)
    requires
        find.state == (FindStateView::Prefilling { seed, lease }),
        find.fallback != Some(selected),
        seed != Some(selected) || lease is None,
    ensures
        find.stepped(FindEvent::Prefilled(Some(selected))).1 == FindActionView::<P>::Lease(
            selected,
        ),
        find.stepped(FindEvent::Prefilled(Some(selected))).0.stepped(
            FindEvent::Leased(Some(pinned)),
        ).1 == FindActionView::Selected(pinned@),
{
}

/// A hit is pulled exactly where it is one of the bundles asked for. What was pulled is pinned
/// under its own key; the target ends the lookup with that lease, and any other bundle becomes the
/// pinned seed.
pub proof fn a_pulled_bundle_is_selected_or_becomes_the_seed<P>(
    find: RemoteFindView<P>,
    hit: BundleKey,
    key: BundleKey,
    pinned: BundleLease<P>,
)
    requires
        find.state is Discovering,
    ensures
        find.stepped(FindEvent::Hit(hit)).1 is Pull <==> find.candidates.contains(hit),
        find.candidates.contains(hit) ==> {
            let pulling = find.stepped(FindEvent::Hit(hit)).0;
            let leasing = pulling.stepped(FindEvent::Pulled(BundlePullOutcome::Pulled(key)));
            let leased = leasing.0.stepped(FindEvent::Leased(Some(pinned)));
            let unread = leased.0.stepped(FindEvent::Local(None));
            &&& leasing.1 == FindActionView::<P>::Lease(key)
            &&& leased.2 == (FindReport::RemoteHit { boundary_tokens: key.boundary_tokens })
            &&& key == find.target ==> leased.1 == FindActionView::Selected(pinned@)
            &&& key != find.target ==> {
                &&& leased.1 is ReadLocal
                &&& unread.1 == (FindActionView::<P>::Prefill { seed: Some(key) })
                &&& find.fallback != Some(key) ==> unread.0.stepped(FindEvent::PrefillFailed).1
                    == FindActionView::Selected(pinned@)
            }
        },
{
}

/// After a clean miss the prefill starts from the bundle leased from the start.
pub proof fn a_clean_miss_prefills_from_the_fallback<P>(find: RemoteFindView<P>)
    requires
        find.state is Discovering,
    ensures
        ({
            let reading = find.stepped(FindEvent::Missed(BundleMissReason::NotFound));
            let unread = reading.0.stepped(FindEvent::Local(None));
            &&& reading.1 is ReadLocal
            &&& unread.1 == (FindActionView::<P>::Prefill { seed: find.fallback })
        }),
{
}

/// The prefill starts from the longer of the seed and the bundle that arrived locally, and holds
/// the lease of the one it starts from; at equal length the seed stays.
pub proof fn the_prefill_starts_from_the_longest_bundle<P>(
    find: RemoteFindView<P>,
    seed: Option<BundleKey>,
    lease: Option<LeaseView<P>>,
    local: Option<BundleLease<P>>,
)
    requires
        find.state == (FindStateView::ReadingLocal { seed, lease }),
    ensures
        ({
            let step = find.stepped(FindEvent::Local(local));
            let found = local->Some_0@;
            match step.1 {
                FindActionView::Prefill { seed: from } => {
                    &&& from is None <==> seed is None && local is None
                    &&& seed is Some ==> from->Some_0.boundary_tokens
                        >= seed->Some_0.boundary_tokens
                    &&& local is Some ==> from->Some_0.boundary_tokens
                        >= found.key.boundary_tokens
                    &&& seed is Some && from->Some_0.boundary_tokens
                        == seed->Some_0.boundary_tokens ==> from == seed && step.0.state == (
                    FindStateView::Prefilling { seed: from, lease })
                    &&& from != seed ==> local is Some && from == Some(found.key) && found.key
                        != find.target && step.0.state == (FindStateView::Prefilling {
                        seed: from,
                        lease: Some(found),
                    })
                },
                FindActionView::Selected(chosen) => {
                    &&& local is Some
                    &&& chosen == found
                    &&& chosen.key == find.target
                    &&& seed is Some ==> chosen.key.boundary_tokens
                        > seed->Some_0.boundary_tokens
                },
                _ => false,
            }
        }),
{
}

/// A lookup ends with nothing only where nothing was leased from the start, and each way to end so
/// is reported for what it was.
pub proof fn every_miss_is_reported_for_what_it_was<P>(find: RemoteFindView<P>, event: FindEvent<P>)
    requires
        find.state is Discovering || find.state is Pulling || find.state is LeasingPulled,
        find.stepped(event).1 is Miss || find.stepped(event).1 is Fallback,
    ensures
        find.stepped(event).1 is Fallback <==> find.fallback is Some,
        match event {
            FindEvent::Canceled => find.stepped(event).2 is Quiet,
            FindEvent::TimedOut => find.stepped(event).2 == FindReport::RemoteMiss(
                FindMiss::TimedOut,
            ),
            FindEvent::DirectoryFailed => find.stepped(event).2 == FindReport::RemoteMiss(
                FindMiss::DirectoryFailed,
            ),
            FindEvent::Hit(key) => find.stepped(event).2 == FindReport::RemoteMiss(
                FindMiss::Incompatible,
            ) && !find.candidates.contains(key),
            FindEvent::Missed(reason) => find.stepped(event).2 == FindReport::RemoteMiss(
                FindMiss::Reason(reason),
            ) && !(reason is NotFound),
            FindEvent::Pulled(outcome) => outcome is Miss && find.stepped(event).2
                == FindReport::RemoteMiss(FindMiss::Reason(outcome->Miss_0)),
            FindEvent::PullFailed => find.stepped(event).2 == FindReport::RemoteMiss(
                FindMiss::TransferFailed,
            ),
            FindEvent::Leased(lease) => lease is None && find.stepped(event).2
                == FindReport::RemoteMiss(FindMiss::CommitFailed),
            _ => false,
        },
{
}

/// A lookup ends once: what resolves it finishes it, a finished one answers nothing more, and no
/// step changes what it was asked.
pub proof fn lookups_end_once<P>(find: RemoteFindView<P>, event: FindEvent<P>)
    ensures
        ({
            let (after, action, report) = find.stepped(event);
            let resolved = action is Selected || action is Fallback || action is Miss;
            &&& after.candidates == find.candidates
            &&& after.target == find.target
            &&& after.fallback == find.fallback
            &&& resolved ==> after.state is Finished && !(find.state is Finished)
            &&& after.state is Finished && !(find.state is Finished) ==> resolved
            &&& action is Ignore ==> after == find && report is Quiet
            &&& find.state is Finished ==> action is Ignore
        }),
{
}

/// What a lookup counts tells hits from misses, and the misses from each other; a quiet step counts
/// nothing.
pub proof fn lookup_labels_are_told_apart(a: FindReport, b: FindReport)
    requires
        a.label_pair() == b.label_pair(),
    ensures
        a is Quiet <==> b is Quiet,
        a is RemoteHit <==> b is RemoteHit,
        a is Quiet <==> a.label_pair() is None,
{
    reveal_strlit("remote_hit");
    reveal_strlit("remote_miss");
    assert("remote_hit"@.len() == 10 && "remote_miss"@.len() == 11);
    if a is RemoteHit && b is RemoteMiss {
        assert(a.label_pair()->Some_0.0.len() == 10);
        assert(b.label_pair()->Some_0.0.len() == 11);
    }
    if b is RemoteHit && a is RemoteMiss {
        assert(b.label_pair()->Some_0.0.len() == 10);
        assert(a.label_pair()->Some_0.0.len() == 11);
    }
}

} // verus!
