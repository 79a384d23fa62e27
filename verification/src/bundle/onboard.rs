//! The atomic multi-resource onboard transaction.

use crate::bundle::barrier::{
    BarrierError, BarrierState, BarrierUpdate, BarrierView, ResourceBarrier,
};
use crate::bundle::offload::{holds_exactly_the_resources, optional_map, BundleResourceFailure};
use crate::ids::{BlockId, BundleKey, LogicalResourceId};
use crate::manifest::CacheIdentity;
use crate::ordered::{ascending_keys_are_distinct, KeyMap};
use vstd::prelude::*;

verus! {

/// Where a load stands.
#[derive(Clone, Copy, Debug, PartialEq, Eq, Structural)]
pub enum BundleOnboardState {
    Prepared,
    Transferring,
    Visible,
    Aborted,
}

/// The transaction state that a barrier state stands for.
pub open spec fn onboard_state(state: BarrierState) -> BundleOnboardState {
    match state {
        BarrierState::Prepared => BundleOnboardState::Prepared,
        BarrierState::Transferring => BundleOnboardState::Transferring,
        BarrierState::Complete => BundleOnboardState::Visible,
        BarrierState::Aborted => BundleOnboardState::Aborted,
    }
}

impl BundleOnboardState {
    pub fn from_barrier(state: BarrierState) -> (r: Self)
        ensures
            r == onboard_state(state),
    {
        match state {
            BarrierState::Prepared => BundleOnboardState::Prepared,
            BarrierState::Transferring => BundleOnboardState::Transferring,
            BarrierState::Complete => BundleOnboardState::Visible,
            BarrierState::Aborted => BundleOnboardState::Aborted,
        }
    }
}

/// Why a load cannot be made, or does not take a report.
#[derive(Clone, Copy, Debug, PartialEq, Eq, Structural)]
pub enum BundleOnboardError {
    /// The key names another manifest.
    IncompatibleKey,
    /// The resources are not exactly those of the identity.
    ResourceSetMismatch,
    InvalidBarrierTransition,
    Barrier(BarrierError),
}

/// A boundary that the scheduler may count as computed, with the reservations that back it.
#[derive(Debug, PartialEq)]
pub struct BundleVisible<R> {
    computed_tokens: u64,
    reservations: KeyMap<LogicalResourceId, R>,
}

/// The mathematical content of a [`BundleVisible`].
pub struct VisibleView<R> {
    pub computed_tokens: u64,
    pub reservations: Map<LogicalResourceId, R>,
}

impl<R> View for BundleVisible<R> {
    type V = VisibleView<R>;

    closed spec fn view(&self) -> VisibleView<R> {
        VisibleView {
            computed_tokens: self.computed_tokens,
            reservations: self.reservations@,
        }
    }
}

impl<R> BundleVisible<R> {
    pub fn computed_tokens(&self) -> (r: u64)
        ensures
            r == self@.computed_tokens,
    {
        self.computed_tokens
    }

    pub fn reservations(&self) -> (r: &KeyMap<LogicalResourceId, R>)
        ensures
            r@ == self@.reservations,
    {
        &self.reservations
    }
}

/// What one report does to a load.
#[derive(Debug, PartialEq)]
pub enum OnboardTransition<R> {
    Pending,
    Visible(BundleVisible<R>),
    Aborted(BundleResourceFailure),
    Settled(BundleOnboardState),
}

/// The mathematical content of an [`OnboardTransition`].
pub enum OnboardTransitionView<R> {
    Pending,
    Visible(VisibleView<R>),
    Aborted(BundleResourceFailure),
    Settled(BundleOnboardState),
}

impl<R> View for OnboardTransition<R> {
    type V = OnboardTransitionView<R>;

    open spec fn view(&self) -> OnboardTransitionView<R> {
        match self {
            OnboardTransition::Pending => OnboardTransitionView::Pending,
            OnboardTransition::Visible(visible) => OnboardTransitionView::Visible(visible@),
            OnboardTransition::Aborted(failure) => OnboardTransitionView::Aborted(*failure),
            OnboardTransition::Settled(state) => OnboardTransitionView::Settled(*state),
        }
    }
}

/// A transition or error, with the transition taken by its content.
pub open spec fn onboard_answer<R>(
    r: Result<OnboardTransition<R>, BundleOnboardError>,
) -> Result<OnboardTransitionView<R>, BundleOnboardError> {
    match r {
        Ok(transition) => Ok(transition@),
        Err(e) => Err(e),
    }
}

/// The mathematical content of a [`BundleOnboard`].
pub struct OnboardView<R> {
    pub key: BundleKey,
    pub barrier: BarrierView,
    pub reservations: Option<Map<LogicalResourceId, R>>,
}

impl<R> OnboardView<R> {
    /// What every reachable transaction keeps: the reservations cover the expected resources until
    /// the barrier settles, and are gone afterwards.
    pub open spec fn wf(self) -> bool {
        &&& self.barrier.wf()
        &&& !self.barrier.settled() ==> self.reservations is Some && self.reservations->Some_0.dom()
            == self.barrier.expected
        &&& self.barrier.settled() ==> self.reservations is None
    }

    /// What a completed resource makes of the transaction, and what it is answered.
    pub open spec fn completed(self, resource: LogicalResourceId) -> (
        OnboardView<R>,
        Result<OnboardTransitionView<R>, BundleOnboardError>,
    ) {
        let (barrier, update) = self.barrier.succeeded(resource);
        match update {
            Err(e) => (OnboardView { barrier, ..self }, Err(BundleOnboardError::Barrier(e))),
            Ok(BarrierUpdate::Pending) => (
                OnboardView { barrier, ..self },
                Ok(OnboardTransitionView::Pending),
            ),
            Ok(BarrierUpdate::Settled(state)) => (
                OnboardView { barrier, ..self },
                Ok(OnboardTransitionView::Settled(onboard_state(state))),
            ),
            Ok(BarrierUpdate::Complete) => (
                OnboardView { barrier, reservations: None, ..self },
                Ok(
                    OnboardTransitionView::Visible(
                        VisibleView {
                            computed_tokens: self.key.boundary_tokens,
                            reservations: match self.reservations {
                                Some(reservations) => reservations,
                                None => Map::empty(),
                            },
                        },
                    ),
                ),
            ),
            Ok(BarrierUpdate::Aborted) => (
                OnboardView { barrier, ..self },
                Err(BundleOnboardError::InvalidBarrierTransition),
            ),
        }
    }

    /// What a failed resource makes of the transaction, and what it is answered.
    pub open spec fn failed(self, failure: BundleResourceFailure) -> (
        OnboardView<R>,
        Result<OnboardTransitionView<R>, BundleOnboardError>,
    ) {
        let (barrier, update) = self.barrier.failed(failure.resource);
        match update {
            Err(e) => (OnboardView { barrier, ..self }, Err(BundleOnboardError::Barrier(e))),
            Ok(BarrierUpdate::Pending) => (
                OnboardView { barrier, ..self },
                Ok(OnboardTransitionView::Pending),
            ),
            Ok(BarrierUpdate::Settled(state)) => (
                OnboardView { barrier, ..self },
                Ok(OnboardTransitionView::Settled(onboard_state(state))),
            ),
            Ok(BarrierUpdate::Aborted) => (
                OnboardView { barrier, reservations: None, ..self },
                Ok(OnboardTransitionView::Aborted(failure)),
            ),
            Ok(BarrierUpdate::Complete) => (
                OnboardView { barrier, ..self },
                Err(BundleOnboardError::InvalidBarrierTransition),
            ),
        }
    }
}

/// Destination reservations behind one all-resource visibility barrier.
#[derive(Debug)]
pub struct BundleOnboard<R> {
    key: BundleKey,
    barrier: ResourceBarrier,
    reservations: Option<KeyMap<LogicalResourceId, R>>,
}

impl<R> View for BundleOnboard<R> {
    type V = OnboardView<R>;

    closed spec fn view(&self) -> OnboardView<R> {
        OnboardView {
            key: self.key,
            barrier: self.barrier@,
            reservations: optional_map(self.reservations),
        }
    }
}

impl<R> BundleOnboard<R> {
    pub fn new(
        identity: CacheIdentity,
        key: BundleKey,
        reservations: KeyMap<LogicalResourceId, R>,
    ) -> (r: Result<Self, BundleOnboardError>)
        ensures
            match r {
                Ok(onboard) => {
                    &&& key.compatible(identity@)
                    &&& reservations@.dom() == identity@.id_set()
                    &&& identity@.resources.len() > 0
                    &&& onboard@ == (OnboardView {
                        key,
                        barrier: BarrierView {
                            expected: identity@.id_set(),
                            pending: identity@.id_set(),
                            state: BarrierState::Prepared,
                        },
                        reservations: Some(reservations@),
                    })
                    &&& onboard@.wf()
                },
                Err(BundleOnboardError::IncompatibleKey) => !key.compatible(identity@),
                Err(BundleOnboardError::ResourceSetMismatch) => key.compatible(identity@)
                    && reservations@.dom() != identity@.id_set(),
                Err(BundleOnboardError::Barrier(e)) => e == BarrierError::EmptyResources
                    && key.compatible(identity@) && reservations@.dom() == identity@.id_set()
                    && identity@.resources.len() == 0,
                Err(BundleOnboardError::InvalidBarrierTransition) => false,
            },
    {
        if !key.is_compatible_with(&identity) {
            return Err(BundleOnboardError::IncompatibleKey);
        }
        if !holds_exactly_the_resources(&identity, &reservations) {
            return Err(BundleOnboardError::ResourceSetMismatch);
        }
        let resources = identity.resource_ids();
        proof {
            ascending_keys_are_distinct(resources@);
        }
        let barrier = match ResourceBarrier::new(resources.as_slice()) {
            Ok(barrier) => barrier,
            Err(e) => {
                return Err(BundleOnboardError::Barrier(e));
            },
        };
        Ok(BundleOnboard { key, barrier, reservations: Some(reservations) })
    }

    pub fn start(&mut self) -> (r: BundleOnboardState)
        ensures
            final(self)@ == (OnboardView { barrier: old(self)@.barrier.started(), ..old(self)@ }),
            r == onboard_state(final(self)@.barrier.state),
            old(self)@.wf() ==> final(self)@.wf(),
    {
        let state = self.barrier.start();
        BundleOnboardState::from_barrier(state)
    }

    /// Reports that one resource has arrived.
    pub fn complete(&mut self, resource: LogicalResourceId) -> (r: Result<
        OnboardTransition<R>,
        BundleOnboardError,
    >)
        ensures
            (final(self)@, onboard_answer(r)) == old(self)@.completed(resource),
            old(self)@.wf() ==> final(self)@.wf(),
    {
        let update = match self.barrier.succeed(resource) {
            Ok(update) => update,
            Err(e) => {
                return Err(BundleOnboardError::Barrier(e));
            },
        };
        match update {
            BarrierUpdate::Pending => Ok(OnboardTransition::Pending),
            BarrierUpdate::Complete => {
                let reservations = match self.reservations.take() {
                    Some(reservations) => reservations,
                    None => KeyMap::new(),
                };
                Ok(
                    OnboardTransition::Visible(
                        BundleVisible { computed_tokens: self.key.boundary_tokens, reservations },
                    ),
                )
            },
            BarrierUpdate::Settled(state) => Ok(
                OnboardTransition::Settled(BundleOnboardState::from_barrier(state)),
            ),
            BarrierUpdate::Aborted => Err(BundleOnboardError::InvalidBarrierTransition),
        }
    }

    /// Reports that one resource failed; the reservations are given up.
    pub fn fail(&mut self, resource: LogicalResourceId, failed_blocks: Option<Vec<BlockId>>) -> (r:
        Result<OnboardTransition<R>, BundleOnboardError>)
        ensures
            (final(self)@, onboard_answer(r)) == old(self)@.failed(
                (BundleResourceFailure { resource, failed_blocks }),
            ),
            old(self)@.wf() ==> final(self)@.wf(),
    {
        let update = match self.barrier.fail(resource) {
            Ok(update) => update,
            Err(e) => {
                return Err(BundleOnboardError::Barrier(e));
            },
        };
        match update {
            BarrierUpdate::Aborted => {
                self.reservations = None;
                Ok(OnboardTransition::Aborted(BundleResourceFailure::new(resource, failed_blocks)))
            },
            BarrierUpdate::Pending => Ok(OnboardTransition::Pending),
            BarrierUpdate::Settled(state) => Ok(
                OnboardTransition::Settled(BundleOnboardState::from_barrier(state)),
            ),
            BarrierUpdate::Complete => Err(BundleOnboardError::InvalidBarrierTransition),
        }
    }
}

/// The boundary becomes visible only with the last pending resource, and then with a reservation
/// for every resource of the bundle.
pub proof fn onboard_is_visible_only_when_complete<R>(
    onboard: OnboardView<R>,
    resource: LogicalResourceId,
)
    requires
        onboard.wf(),
    ensures
        onboard.completed(resource).1 matches Ok(OnboardTransitionView::Visible(_)) <==> {
            &&& onboard.barrier.state == BarrierState::Transferring
            &&& onboard.barrier.pending == set![resource]
        },
        onboard.completed(resource).1 matches Ok(OnboardTransitionView::Visible(visible)) ==> {
            &&& visible.computed_tokens == onboard.key.boundary_tokens
            &&& Some(visible.reservations) == onboard.reservations
            &&& visible.reservations.dom() == onboard.barrier.expected
        },
{
    let empty = Set::<LogicalResourceId>::empty();
    if onboard.barrier.pending == set![resource] {
        assert(onboard.barrier.pending.remove(resource) =~= empty);
        assert(onboard.barrier.pending.contains(resource));
    }
    if onboard.barrier.pending.contains(resource) && onboard.barrier.pending.remove(resource)
        == empty {
        assert(onboard.barrier.pending =~= onboard.barrier.pending.remove(resource).insert(resource));
        assert(onboard.barrier.pending =~= set![resource]);
    }
}

/// A failed resource of a running load gives up every reservation and names itself; the load then
/// stays aborted, and no later arrival makes it visible.
pub proof fn a_failed_resource_ends_the_load<R>(
    onboard: OnboardView<R>,
    failure: BundleResourceFailure,
    resource: LogicalResourceId,
)
    requires
        onboard.wf(),
        onboard.barrier.state == BarrierState::Transferring,
        onboard.barrier.pending.contains(failure.resource),
        onboard.barrier.expected.contains(resource),
    ensures
        ({
            let (after, answer) = onboard.failed(failure);
            &&& answer == Ok::<OnboardTransitionView<R>, BundleOnboardError>(
                OnboardTransitionView::Aborted(failure),
            )
            &&& after.reservations is None
            &&& after.barrier.state is Aborted
            &&& after.key == onboard.key
            &&& after.completed(resource) == (
                after,
                Ok::<OnboardTransitionView<R>, BundleOnboardError>(
                    OnboardTransitionView::Settled(BundleOnboardState::Aborted),
                ),
            )
        }),
{
}

/// Until the last resource has arrived every reservation is kept, and a resource counts once.
pub proof fn reservations_are_kept_until_the_end<R>(
    onboard: OnboardView<R>,
    resource: LogicalResourceId,
)
    requires
        onboard.wf(),
        onboard.barrier.state == BarrierState::Transferring,
        onboard.barrier.expected.contains(resource),
        onboard.barrier.pending != set![resource],
    ensures
        onboard.completed(resource).0.reservations == onboard.reservations,
        onboard.completed(resource).0.key == onboard.key,
        onboard.completed(resource).0.barrier.pending == onboard.barrier.pending.remove(resource),
        onboard.completed(resource).1 == Ok::<OnboardTransitionView<R>, BundleOnboardError>(
            OnboardTransitionView::Pending,
        ),
{
    crate::bundle::barrier::running_barriers_count_each_resource_once(
        onboard.barrier,
        resource,
        resource,
    );
    if !onboard.barrier.pending.contains(resource) {
        assert(onboard.barrier.pending.remove(resource) =~= onboard.barrier.pending);
    }
}

/// A load is visible exactly where its barrier is complete, and the other states are told apart in
/// the same way.
pub proof fn onboard_states_follow_the_barrier(state: BarrierState)
    ensures
        onboard_state(state) is Prepared <==> state is Prepared,
        onboard_state(state) is Transferring <==> state is Transferring,
        onboard_state(state) is Visible <==> state is Complete,
        onboard_state(state) is Aborted <==> state is Aborted,
{
}

} // verus!
