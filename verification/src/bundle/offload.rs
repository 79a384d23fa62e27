//! The atomic multi-resource offload transaction.

use crate::bundle::barrier::{
    BarrierError, BarrierState, BarrierUpdate, BarrierView, ResourceBarrier,
};
use crate::ids::{BlockId, BundleKey, LogicalResourceId};
use crate::manifest::{CacheIdentity, IdentityView};
use crate::ordered::{
    ascending_keys_are_distinct, ascending_sequences_with_equal_keys_are_equal, KeyMap,
};
use vstd::prelude::*;

verus! {

/// Whether the source of an offload stays cached after the copy is committed.
#[derive(Clone, Copy, Debug, PartialEq, Eq, Structural)]
pub enum OffloadMode {
    Mirror,
    Move,
}

/// Where an offload stands.
#[derive(Clone, Copy, Debug, PartialEq, Eq, Structural)]
pub enum BundleOffloadState {
    Prepared,
    Transferring,
    Committed,
    Aborted,
}

/// The transaction state that a barrier state stands for.
pub open spec fn offload_state(state: BarrierState) -> BundleOffloadState {
    match state {
        BarrierState::Prepared => BundleOffloadState::Prepared,
        BarrierState::Transferring => BundleOffloadState::Transferring,
        BarrierState::Complete => BundleOffloadState::Committed,
        BarrierState::Aborted => BundleOffloadState::Aborted,
    }
}

impl BundleOffloadState {
    pub fn from_barrier(state: BarrierState) -> (r: Self)
        ensures
            r == offload_state(state),
    {
        match state {
            BarrierState::Prepared => BundleOffloadState::Prepared,
            BarrierState::Transferring => BundleOffloadState::Transferring,
            BarrierState::Complete => BundleOffloadState::Committed,
            BarrierState::Aborted => BundleOffloadState::Aborted,
        }
    }
}

/// Why an offload cannot be made, or does not take a report.
#[derive(Clone, Copy, Debug, PartialEq, Eq, Structural)]
pub enum BundleOffloadError {
    /// The key names another manifest.
    IncompatibleKey,
    /// The resources are not exactly those of the identity.
    ResourceSetMismatch,
    InvalidBarrierTransition,
    Barrier(BarrierError),
}

/// The resource that failed, with its failed blocks where they are known.
#[derive(Debug, PartialEq, Eq)]
pub struct BundleResourceFailure {
    pub resource: LogicalResourceId,
    pub failed_blocks: Option<Vec<BlockId>>,
}

impl BundleResourceFailure {
    pub fn new(resource: LogicalResourceId, failed_blocks: Option<Vec<BlockId>>) -> (r: Self)
        ensures
            r == (BundleResourceFailure { resource, failed_blocks }),
    {
        BundleResourceFailure { resource, failed_blocks }
    }

    pub fn resource(&self) -> (r: LogicalResourceId)
        ensures
            r == self.resource,
    {
        self.resource
    }

    pub fn failed_blocks(&self) -> (r: Option<&[BlockId]>)
        ensures
            r is Some <==> self.failed_blocks is Some,
            r is Some ==> r->Some_0@ == self.failed_blocks->Some_0@,
    {
        match &self.failed_blocks {
            Some(blocks) => Some(blocks.as_slice()),
            None => None,
        }
    }
}

/// A complete bundle whose every resource has been staged.
#[derive(Debug, PartialEq)]
pub struct BundleCommit<S, P> {
    identity: CacheIdentity,
    key: BundleKey,
    generation: u64,
    resources: KeyMap<LogicalResourceId, P>,
    retained_sources: Option<KeyMap<LogicalResourceId, S>>,
}

/// The mathematical content of a [`BundleCommit`].
pub struct CommitView<S, P> {
    pub identity: IdentityView,
    pub key: BundleKey,
    pub generation: u64,
    pub resources: Map<LogicalResourceId, P>,
    pub retained_sources: Option<Map<LogicalResourceId, S>>,
}

/// The map behind an optional ordered map.
pub open spec fn optional_map<V>(map: Option<KeyMap<LogicalResourceId, V>>) -> Option<
    Map<LogicalResourceId, V>,
> {
    match map {
        Some(map) => Some(map@),
        None => None,
    }
}

impl<S, P> View for BundleCommit<S, P> {
    type V = CommitView<S, P>;

    closed spec fn view(&self) -> CommitView<S, P> {
        CommitView {
            identity: self.identity@,
            key: self.key,
            generation: self.generation,
            resources: self.resources@,
            retained_sources: optional_map(self.retained_sources),
        }
    }
}

impl<S, P> BundleCommit<S, P> {
    pub fn key(&self) -> (r: &BundleKey)
        ensures
            *r == self@.key,
    {
        &self.key
    }

    pub fn generation(&self) -> (r: u64)
        ensures
            r == self@.generation,
    {
        self.generation
    }

    pub fn resources(&self) -> (r: &KeyMap<LogicalResourceId, P>)
        ensures
            r@ == self@.resources,
    {
        &self.resources
    }

    pub fn retained_sources(&self) -> (r: Option<&KeyMap<LogicalResourceId, S>>)
        ensures
            r is Some <==> self@.retained_sources is Some,
            r is Some ==> r->Some_0@ == self@.retained_sources->Some_0,
    {
        match &self.retained_sources {
            Some(sources) => Some(sources),
            None => None,
        }
    }

    /// Parts the staged bundle from the sources that outlive it.
    pub fn into_publication(self) -> (r: (
        BundlePublication<P>,
        Option<KeyMap<LogicalResourceId, S>>,
    ))
        ensures
            r.0@ == (PublicationView {
                identity: self@.identity,
                key: self@.key,
                generation: self@.generation,
                resources: self@.resources,
            }),
            optional_map(r.1) == self@.retained_sources,
    {
        (
            BundlePublication {
                identity: self.identity,
                key: self.key,
                generation: self.generation,
                resources: self.resources,
            },
            self.retained_sources,
        )
    }
}

/// A staged bundle on its way into the index.
#[derive(Debug)]
pub struct BundlePublication<P> {
    identity: CacheIdentity,
    key: BundleKey,
    generation: u64,
    resources: KeyMap<LogicalResourceId, P>,
}

/// The mathematical content of a [`BundlePublication`].
pub struct PublicationView<P> {
    pub identity: IdentityView,
    pub key: BundleKey,
    pub generation: u64,
    pub resources: Map<LogicalResourceId, P>,
}

impl<P> View for BundlePublication<P> {
    type V = PublicationView<P>;

    closed spec fn view(&self) -> PublicationView<P> {
        PublicationView {
            identity: self.identity@,
            key: self.key,
            generation: self.generation,
            resources: self.resources@,
        }
    }
}

impl<P> BundlePublication<P> {
    pub fn into_parts(self) -> (r: (CacheIdentity, BundleKey, u64, KeyMap<LogicalResourceId, P>))
        ensures
            self@ == (PublicationView {
                identity: r.0@,
                key: r.1,
                generation: r.2,
                resources: r.3@,
            }),
    {
        (self.identity, self.key, self.generation, self.resources)
    }
}

/// What is left of a transaction in which a resource failed.
#[derive(Debug, PartialEq)]
pub struct BundleAbort<S> {
    failure: BundleResourceFailure,
    retained_sources: KeyMap<LogicalResourceId, S>,
}

/// The mathematical content of a [`BundleAbort`].
pub struct AbortView<S> {
    pub failure: BundleResourceFailure,
    pub retained_sources: Map<LogicalResourceId, S>,
}

impl<S> View for BundleAbort<S> {
    type V = AbortView<S>;

    closed spec fn view(&self) -> AbortView<S> {
        AbortView { failure: self.failure, retained_sources: self.retained_sources@ }
    }
}

impl<S> BundleAbort<S> {
    pub fn failure(&self) -> (r: &BundleResourceFailure)
        ensures
            *r == self@.failure,
    {
        &self.failure
    }

    pub fn retained_sources(&self) -> (r: &KeyMap<LogicalResourceId, S>)
        ensures
            r@ == self@.retained_sources,
    {
        &self.retained_sources
    }
}

/// What one report does to an offload.
#[derive(Debug, PartialEq)]
pub enum OffloadTransition<S, P> {
    Pending,
    Commit(BundleCommit<S, P>),
    Abort(BundleAbort<S>),
    Settled(BundleOffloadState),
}

/// The mathematical content of an [`OffloadTransition`].
pub enum OffloadTransitionView<S, P> {
    Pending,
    Commit(CommitView<S, P>),
    Abort(AbortView<S>),
    Settled(BundleOffloadState),
}

impl<S, P> View for OffloadTransition<S, P> {
    type V = OffloadTransitionView<S, P>;

    open spec fn view(&self) -> OffloadTransitionView<S, P> {
        match self {
            OffloadTransition::Pending => OffloadTransitionView::Pending,
            OffloadTransition::Commit(commit) => OffloadTransitionView::Commit(commit@),
            OffloadTransition::Abort(abort) => OffloadTransitionView::Abort(abort@),
            OffloadTransition::Settled(state) => OffloadTransitionView::Settled(*state),
        }
    }
}

/// A transition or error, with the transition taken by its content.
pub open spec fn offload_answer<S, P>(
    r: Result<OffloadTransition<S, P>, BundleOffloadError>,
) -> Result<OffloadTransitionView<S, P>, BundleOffloadError> {
    match r {
        Ok(transition) => Ok(transition@),
        Err(e) => Err(e),
    }
}

/// The mathematical content of a [`BundleOffload`].
pub struct OffloadView<S, P> {
    pub identity: IdentityView,
    pub key: BundleKey,
    pub generation: u64,
    pub mode: OffloadMode,
    pub barrier: BarrierView,
    pub sources: Option<Map<LogicalResourceId, S>>,
    pub staged: Map<LogicalResourceId, P>,
}

impl<S, P> OffloadView<S, P> {
    /// What every reachable transaction keeps: the barrier waits for exactly the identity's
    /// resources, the sources stay owned until it settles, and what is staged is what is no longer
    /// pending.
    pub open spec fn wf(self) -> bool {
        &&& self.barrier.wf()
        &&& self.barrier.expected == self.identity.id_set()
        &&& self.key.compatible(self.identity)
        &&& !self.barrier.settled() ==> self.sources is Some && self.sources->Some_0.dom()
            == self.barrier.expected
        &&& self.barrier.settled() ==> self.sources is None && self.staged == Map::<
            LogicalResourceId,
            P,
        >::empty()
        &&& self.staged.dom().subset_of(self.barrier.expected)
        &&& self.barrier.state == BarrierState::Transferring
            ==> self.barrier.expected.difference(self.barrier.pending).subset_of(self.staged.dom())
    }

    /// The pins that a transaction would hold once `pin` is accepted for `resource`.
    pub open spec fn staging(self, resource: LogicalResourceId, pin: P) -> Map<
        LogicalResourceId,
        P,
    > {
        if self.barrier.pending.contains(resource) {
            self.staged.insert(resource, pin)
        } else {
            self.staged
        }
    }

    /// What a staged resource makes of the transaction, and what it is answered.
    pub open spec fn completed(self, resource: LogicalResourceId, pin: P) -> (
        OffloadView<S, P>,
        Result<OffloadTransitionView<S, P>, BundleOffloadError>,
    ) {
        let (barrier, update) = self.barrier.succeeded(resource);
        let staged = self.staging(resource, pin);
        match update {
            Err(e) => (OffloadView { staged, barrier, ..self }, Err(BundleOffloadError::Barrier(e))),
            Ok(BarrierUpdate::Pending) => (
                OffloadView { staged, barrier, ..self },
                Ok(OffloadTransitionView::Pending),
            ),
            Ok(BarrierUpdate::Settled(state)) => (
                OffloadView { staged, barrier, ..self },
                Ok(OffloadTransitionView::Settled(offload_state(state))),
            ),
            Ok(BarrierUpdate::Complete) => (
                OffloadView { staged: Map::empty(), sources: None, barrier, ..self },
                Ok(
                    OffloadTransitionView::Commit(
                        CommitView {
                            identity: self.identity,
                            key: self.key,
                            generation: self.generation,
                            resources: staged,
                            retained_sources: if self.mode == OffloadMode::Mirror {
                                self.sources
                            } else {
                                None
                            },
                        },
                    ),
                ),
            ),
            Ok(BarrierUpdate::Aborted) => (
                OffloadView { staged, barrier, ..self },
                Err(BundleOffloadError::InvalidBarrierTransition),
            ),
        }
    }

    /// What a failed resource makes of the transaction, and what it is answered.
    pub open spec fn failed(self, failure: BundleResourceFailure) -> (
        OffloadView<S, P>,
        Result<OffloadTransitionView<S, P>, BundleOffloadError>,
    ) {
        let (barrier, update) = self.barrier.failed(failure.resource);
        match update {
            Err(e) => (OffloadView { barrier, ..self }, Err(BundleOffloadError::Barrier(e))),
            Ok(BarrierUpdate::Pending) => (
                OffloadView { barrier, ..self },
                Ok(OffloadTransitionView::Pending),
            ),
            Ok(BarrierUpdate::Settled(state)) => (
                OffloadView { barrier, ..self },
                Ok(OffloadTransitionView::Settled(offload_state(state))),
            ),
            Ok(BarrierUpdate::Aborted) => (
                OffloadView { staged: Map::empty(), sources: None, barrier, ..self },
                Ok(
                    OffloadTransitionView::Abort(
                        AbortView {
                            failure,
                            retained_sources: match self.sources {
                                Some(sources) => sources,
                                None => Map::empty(),
                            },
                        },
                    ),
                ),
            ),
            Ok(BarrierUpdate::Complete) => (
                OffloadView { barrier, ..self },
                Err(BundleOffloadError::InvalidBarrierTransition),
            ),
        }
    }
}

/// Offloads every resource of one bundle, or none. Source pins stay owned until the commit or the
/// abort; staged pins are handed out only by the success of the last resource.
#[derive(Debug)]
pub struct BundleOffload<S, P> {
    identity: CacheIdentity,
    key: BundleKey,
    generation: u64,
    mode: OffloadMode,
    barrier: ResourceBarrier,
    sources: Option<KeyMap<LogicalResourceId, S>>,
    staged: KeyMap<LogicalResourceId, P>,
}

impl<S, P> View for BundleOffload<S, P> {
    type V = OffloadView<S, P>;

    closed spec fn view(&self) -> OffloadView<S, P> {
        OffloadView {
            identity: self.identity@,
            key: self.key,
            generation: self.generation,
            mode: self.mode,
            barrier: self.barrier@,
            sources: optional_map(self.sources),
            staged: self.staged@,
        }
    }
}

/// Whether the keys of a map are exactly the identity's resources.
pub fn holds_exactly_the_resources<V>(
    identity: &CacheIdentity,
    resources: &KeyMap<LogicalResourceId, V>,
) -> (r: bool)
    ensures
        r == (resources@.dom() == identity@.id_set()),
{
    let expected = identity.resource_ids();
    let actual = resources.keys();
    let mut at: usize = 0;
    while at < expected.len() && at < actual.len() && expected[at] == actual[at]
        invariant
            at <= expected@.len(),
            at <= actual@.len(),
            forall|i: int| 0 <= i < at ==> expected@[i] == actual@[i],
        decreases expected@.len() - at,
    {
        at = at + 1;
    }
    let same = at == expected.len() && at == actual.len();
    proof {
        if same {
            assert(expected@ =~= actual@);
        } else if resources@.dom() == identity@.id_set() {
            ascending_sequences_with_equal_keys_are_equal(expected@, actual@);
        }
    }
    same
}

impl<S, P> BundleOffload<S, P> {
    pub fn new(
        identity: CacheIdentity,
        key: BundleKey,
        generation: u64,
        mode: OffloadMode,
        sources: KeyMap<LogicalResourceId, S>,
    ) -> (r: Result<Self, BundleOffloadError>)
        ensures
            match r {
                Ok(offload) => {
                    &&& key.compatible(identity@)
                    &&& sources@.dom() == identity@.id_set()
                    &&& identity@.resources.len() > 0
                    &&& offload@ == (OffloadView {
                        identity: identity@,
                        key,
                        generation,
                        mode,
                        barrier: BarrierView {
                            expected: identity@.id_set(),
                            pending: identity@.id_set(),
                            state: BarrierState::Prepared,
                        },
                        sources: Some(sources@),
                        staged: Map::<LogicalResourceId, P>::empty(),
                    })
                    &&& offload@.wf()
                },
                Err(BundleOffloadError::IncompatibleKey) => !key.compatible(identity@),
                Err(BundleOffloadError::ResourceSetMismatch) => key.compatible(identity@)
                    && sources@.dom() != identity@.id_set(),
                Err(BundleOffloadError::Barrier(e)) => e == BarrierError::EmptyResources
                    && key.compatible(identity@) && sources@.dom() == identity@.id_set()
                    && identity@.resources.len() == 0,
                Err(BundleOffloadError::InvalidBarrierTransition) => false,
            },
    {
        if !key.is_compatible_with(&identity) {
            return Err(BundleOffloadError::IncompatibleKey);
        }
        if !holds_exactly_the_resources(&identity, &sources) {
            return Err(BundleOffloadError::ResourceSetMismatch);
        }
        let resources = identity.resource_ids();
        proof {
            ascending_keys_are_distinct(resources@);
        }
        let barrier = match ResourceBarrier::new(resources.as_slice()) {
            Ok(barrier) => barrier,
            Err(e) => {
                return Err(BundleOffloadError::Barrier(e));
            },
        };
        let offload = BundleOffload {
            identity,
            key,
            generation,
            mode,
            barrier,
            sources: Some(sources),
            staged: KeyMap::new(),
        };
        Ok(offload)
    }

    pub fn start(&mut self) -> (r: BundleOffloadState)
        ensures
            final(self)@ == (OffloadView { barrier: old(self)@.barrier.started(), ..old(self)@ }),
            r == offload_state(final(self)@.barrier.state),
            old(self)@.wf() ==> final(self)@.wf(),
    {
        let state = self.barrier.start();
        BundleOffloadState::from_barrier(state)
    }

    /// Reports the staged pin of one resource, or its failure.
    pub fn complete(
        &mut self,
        resource: LogicalResourceId,
        result: Result<P, BundleResourceFailure>,
    ) -> (r: Result<OffloadTransition<S, P>, BundleOffloadError>)
        ensures
            (final(self)@, offload_answer(r)) == match result {
                Ok(pin) => old(self)@.completed(resource, pin),
                Err(failure) => old(self)@.failed(failure),
            },
            old(self)@.wf() ==> final(self)@.wf(),
    {
        let pin = match result {
            Ok(pin) => pin,
            Err(failure) => {
                return self.abort(failure);
            },
        };
        if self.barrier.is_pending(resource) {
            self.staged.insert(resource, pin);
        }
        let update = match self.barrier.succeed(resource) {
            Ok(update) => update,
            Err(e) => {
                return Err(BundleOffloadError::Barrier(e));
            },
        };
        match update {
            BarrierUpdate::Pending => Ok(OffloadTransition::Pending),
            BarrierUpdate::Complete => {
                let mut resources: KeyMap<LogicalResourceId, P> = KeyMap::new();
                std::mem::swap(&mut self.staged, &mut resources);
                let sources = self.sources.take();
                let retained_sources = match self.mode {
                    OffloadMode::Mirror => sources,
                    OffloadMode::Move => None,
                };
                Ok(
                    OffloadTransition::Commit(
                        BundleCommit {
                            identity: self.identity.clone(),
                            key: self.key,
                            generation: self.generation,
                            resources,
                            retained_sources,
                        },
                    ),
                )
            },
            BarrierUpdate::Settled(state) => Ok(
                OffloadTransition::Settled(BundleOffloadState::from_barrier(state)),
            ),
            BarrierUpdate::Aborted => Err(BundleOffloadError::InvalidBarrierTransition),
        }
    }

    /// Reports that one resource failed.
    pub fn fail(&mut self, resource: LogicalResourceId, failed_blocks: Option<Vec<BlockId>>) -> (r:
        Result<OffloadTransition<S, P>, BundleOffloadError>)
        ensures
            (final(self)@, offload_answer(r)) == old(self)@.failed(
                (BundleResourceFailure { resource, failed_blocks }),
            ),
            old(self)@.wf() ==> final(self)@.wf(),
    {
        self.abort(BundleResourceFailure::new(resource, failed_blocks))
    }

    fn abort(&mut self, failure: BundleResourceFailure) -> (r: Result<
        OffloadTransition<S, P>,
        BundleOffloadError,
    >)
        ensures
            (final(self)@, offload_answer(r)) == old(self)@.failed(failure),
            old(self)@.wf() ==> final(self)@.wf(),
    {
        let update = match self.barrier.fail(failure.resource) {
            Ok(update) => update,
            Err(e) => {
                return Err(BundleOffloadError::Barrier(e));
            },
        };
        match update {
            BarrierUpdate::Aborted => {
                self.staged = KeyMap::new();
                let retained_sources = match self.sources.take() {
                    Some(sources) => sources,
                    None => KeyMap::new(),
                };
                Ok(OffloadTransition::Abort(BundleAbort { failure, retained_sources }))
            },
            BarrierUpdate::Pending => Ok(OffloadTransition::Pending),
            BarrierUpdate::Settled(state) => Ok(
                OffloadTransition::Settled(BundleOffloadState::from_barrier(state)),
            ),
            BarrierUpdate::Complete => Err(BundleOffloadError::InvalidBarrierTransition),
        }
    }
}

/// A transaction commits only with a pin for exactly every resource of its identity, under the key
/// and generation it was opened with; a mirrored source set comes back whole, a moved one not.
pub proof fn offload_commits_only_complete_bundles<S, P>(
    offload: OffloadView<S, P>,
    resource: LogicalResourceId,
    pin: P,
)
    requires
        offload.wf(),
        offload.completed(resource, pin).1 matches Ok(OffloadTransitionView::Commit(_)),
    ensures
        offload.completed(resource, pin).1 matches Ok(OffloadTransitionView::Commit(commit)) && {
            &&& commit.resources.dom() == offload.identity.id_set()
            &&& commit.key == offload.key
            &&& commit.generation == offload.generation
            &&& commit.retained_sources == (if offload.mode == OffloadMode::Mirror {
                offload.sources
            } else {
                None
            })
        },
        offload.completed(resource, pin).0.barrier.state == BarrierState::Complete,
{
    let staged = offload.staging(resource, pin);
    assert(staged.dom() =~= offload.identity.id_set()) by {
        assert forall|r: LogicalResourceId|
            offload.identity.id_set().contains(r) implies staged.dom().contains(r) by {
            if r != resource {
                assert(!offload.barrier.pending.remove(resource).contains(r));
                assert(offload.barrier.expected.difference(offload.barrier.pending).contains(r));
            }
        }
    }
}

/// A failed resource of a running transaction hands every source pin back and commits nothing.
pub proof fn offload_abort_retains_every_source<S, P>(
    offload: OffloadView<S, P>,
    failure: BundleResourceFailure,
)
    requires
        offload.wf(),
        offload.barrier.state == BarrierState::Transferring,
        offload.barrier.pending.contains(failure.resource),
    ensures
        offload.failed(failure).1 matches Ok(OffloadTransitionView::Abort(abort)) && {
            &&& abort.failure == failure
            &&& Some(abort.retained_sources) == offload.sources
            &&& abort.retained_sources.dom() == offload.identity.id_set()
        },
        offload.failed(failure).0.barrier.state == BarrierState::Aborted,
        offload.failed(failure).0.staged == Map::<LogicalResourceId, P>::empty(),
{
}

/// Once a transaction has committed or aborted, no later report commits or aborts it again.
pub proof fn settled_offload_never_commits_again<S, P>(
    offload: OffloadView<S, P>,
    resource: LogicalResourceId,
    pin: P,
    failure: BundleResourceFailure,
)
    requires
        offload.wf(),
        offload.barrier.settled(),
    ensures
        offload.completed(resource, pin).0 == offload,
        offload.failed(failure).0 == offload,
        !(offload.completed(resource, pin).1 matches Ok(OffloadTransitionView::Commit(_))),
        !(offload.failed(failure).1 matches Ok(OffloadTransitionView::Abort(_))),
{
}

/// The pin that a resource is committed with is the one it first reported: a pending resource
/// stages the pin of its report, every other staged pin stays, and a second report changes nothing.
pub proof fn the_first_staged_pin_is_kept<S, P>(
    offload: OffloadView<S, P>,
    resource: LogicalResourceId,
    pin: P,
    other: LogicalResourceId,
)
    requires
        offload.wf(),
        offload.barrier.state == BarrierState::Transferring,
        offload.barrier.expected.contains(resource),
        offload.barrier.expected.contains(other),
        other != resource,
    ensures
        ({
            let (after, answer) = offload.completed(resource, pin);
            let first = offload.barrier.pending.contains(resource);
            &&& match answer {
                Ok(OffloadTransitionView::Pending) => {
                    &&& first ==> after.staged.contains_key(resource) && after.staged[resource]
                        == pin
                    &&& !first ==> after.staged == offload.staged
                    &&& after.staged.contains_key(other) <==> offload.staged.contains_key(other)
                    &&& after.staged.contains_key(other) ==> after.staged[other]
                        == offload.staged[other]
                    &&& after.sources == offload.sources
                },
                Ok(OffloadTransitionView::Commit(commit)) => {
                    &&& first
                    &&& commit.resources[resource] == pin
                    &&& commit.resources[other] == offload.staged[other]
                    &&& commit.identity == offload.identity
                },
                _ => false,
            }
            &&& (answer is Ok && answer->Ok_0 is Commit) <==> offload.barrier.pending
                == set![resource]
            &&& after.identity == offload.identity
            &&& after.key == offload.key
            &&& after.generation == offload.generation
            &&& after.mode == offload.mode
        }),
{
    crate::bundle::barrier::running_barriers_count_each_resource_once(
        offload.barrier,
        resource,
        other,
    );
}

/// A transaction is committed exactly where its barrier is complete, and the other states are told
/// apart in the same way.
pub proof fn offload_states_follow_the_barrier(state: BarrierState)
    ensures
        offload_state(state) is Prepared <==> state is Prepared,
        offload_state(state) is Transferring <==> state is Transferring,
        offload_state(state) is Committed <==> state is Complete,
        offload_state(state) is Aborted <==> state is Aborted,
{
}

/// A failure of a resource that has reported its success already is ignored, and a report on a
/// transaction that is not started is refused.
pub proof fn late_and_early_failures_abort_nothing<S, P>(
    offload: OffloadView<S, P>,
    failure: BundleResourceFailure,
)
    requires
        offload.wf(),
        offload.barrier.expected.contains(failure.resource),
    ensures
        offload.barrier.state is Transferring && !offload.barrier.pending.contains(failure.resource)
            ==> offload.failed(failure) == (
            offload,
            Ok::<OffloadTransitionView<S, P>, BundleOffloadError>(OffloadTransitionView::Pending),
        ),
        offload.barrier.state is Prepared ==> offload.failed(failure) == (
            offload,
            Err::<OffloadTransitionView<S, P>, BundleOffloadError>(
                BundleOffloadError::Barrier(BarrierError::NotStarted),
            ),
        ),
{
}

} // verus!
