//! The all-resource completion barrier behind bundle transactions.

use crate::ids::LogicalResourceId;
use crate::ordered::{distinct_up_to, KeySet};
use vstd::prelude::*;

verus! {

/// Where a barrier stands.
#[derive(Clone, Copy, Debug, PartialEq, Eq, Structural)]
pub enum BarrierState {
    Prepared,
    Transferring,
    Complete,
    Aborted,
}

/// What one report does to a barrier.
#[derive(Clone, Copy, Debug, PartialEq, Eq, Structural)]
pub enum BarrierUpdate {
    Pending,
    Complete,
    Aborted,
    Settled(BarrierState),
}

/// Why a barrier cannot be made, or does not take a report.
#[derive(Clone, Copy, Debug, PartialEq, Eq, Structural)]
pub enum BarrierError {
    /// A transaction needs at least one resource.
    EmptyResources,
    DuplicateResource,
    NotStarted,
    UnexpectedResource { resource: LogicalResourceId },
}

/// The mathematical content of a [`ResourceBarrier`].
pub struct BarrierView {
    pub expected: Set<LogicalResourceId>,
    pub pending: Set<LogicalResourceId>,
    pub state: BarrierState,
}

impl BarrierView {
    /// What every reachable barrier keeps: only expected resources are pending, all of them before
    /// the start, some while transferring, and none once the barrier has settled.
    pub open spec fn wf(self) -> bool {
        &&& self.pending.subset_of(self.expected)
        &&& self.state == BarrierState::Prepared ==> self.pending == self.expected
        &&& self.state == BarrierState::Transferring ==> self.pending != Set::<
            LogicalResourceId,
        >::empty()
        &&& self.settled() ==> self.pending == Set::<LogicalResourceId>::empty()
        &&& self.expected != Set::<LogicalResourceId>::empty()
    }

    pub open spec fn settled(self) -> bool {
        self.state == BarrierState::Complete || self.state == BarrierState::Aborted
    }

    pub open spec fn started(self) -> BarrierView {
        if self.state == BarrierState::Prepared {
            BarrierView { state: BarrierState::Transferring, ..self }
        } else {
            self
        }
    }

    /// What one success makes of the barrier, and what it is answered.
    pub open spec fn succeeded(self, resource: LogicalResourceId) -> (
        BarrierView,
        Result<BarrierUpdate, BarrierError>,
    ) {
        let rest = self.pending.remove(resource);
        if !self.expected.contains(resource) {
            (self, Err(BarrierError::UnexpectedResource { resource }))
        } else if self.state == BarrierState::Prepared {
            (self, Err(BarrierError::NotStarted))
        } else if self.settled() {
            (self, Ok(BarrierUpdate::Settled(self.state)))
        } else if !self.pending.contains(resource) {
            (self, Ok(BarrierUpdate::Pending))
        } else if rest == Set::<LogicalResourceId>::empty() {
            (
                BarrierView { pending: rest, state: BarrierState::Complete, ..self },
                Ok(BarrierUpdate::Complete),
            )
        } else {
            (BarrierView { pending: rest, ..self }, Ok(BarrierUpdate::Pending))
        }
    }

    /// What one failure makes of the barrier, and what it is answered.
    pub open spec fn failed(self, resource: LogicalResourceId) -> (
        BarrierView,
        Result<BarrierUpdate, BarrierError>,
    ) {
        if !self.expected.contains(resource) {
            (self, Err(BarrierError::UnexpectedResource { resource }))
        } else if self.state == BarrierState::Prepared {
            (self, Err(BarrierError::NotStarted))
        } else if self.settled() {
            (self, Ok(BarrierUpdate::Settled(self.state)))
        } else if !self.pending.contains(resource) {
            (self, Ok(BarrierUpdate::Pending))
        } else {
            (
                BarrierView {
                    pending: Set::empty(),
                    state: BarrierState::Aborted,
                    ..self
                },
                Ok(BarrierUpdate::Aborted),
            )
        }
    }

    /// The barrier after a run of successes.
    pub open spec fn after_successes(self, resources: Seq<LogicalResourceId>) -> BarrierView
        decreases resources.len(),
    {
        if resources.len() == 0 {
            self
        } else {
            self.after_successes(resources.drop_last()).succeeded(resources.last()).0
        }
    }
}

/// Tracks which of a bundle's resources have finished.
#[derive(Debug)]
pub struct ResourceBarrier {
    expected: KeySet<LogicalResourceId>,
    pending: KeySet<LogicalResourceId>,
    state: BarrierState,
}

impl View for ResourceBarrier {
    type V = BarrierView;

    closed spec fn view(&self) -> BarrierView {
        BarrierView {
            expected: self.expected@,
            pending: self.pending@,
            state: self.state,
        }
    }
}

impl ResourceBarrier {
    pub fn new(resources: &[LogicalResourceId]) -> (r: Result<Self, BarrierError>)
        ensures
            match r {
                Ok(barrier) => {
                    &&& resources@.len() > 0
                    &&& distinct_up_to(resources@, resources@.len() as int)
                    &&& barrier@ == (BarrierView {
                        expected: resources@.to_set(),
                        pending: resources@.to_set(),
                        state: BarrierState::Prepared,
                    })
                    &&& barrier@.wf()
                },
                Err(e) => e == if resources@.len() == 0 {
                    BarrierError::EmptyResources
                } else {
                    BarrierError::DuplicateResource
                } && (resources@.len() == 0 || !distinct_up_to(
                    resources@,
                    resources@.len() as int,
                )),
            },
    {
        if resources.len() == 0 {
            return Err(BarrierError::EmptyResources);
        }
        let (expected, distinct) = KeySet::from_keys(resources);
        if !distinct {
            return Err(BarrierError::DuplicateResource);
        }
        let (pending, _) = KeySet::from_keys(resources);
        proof {
            assert(resources@.to_set().contains(resources@[0]));
        }
        Ok(ResourceBarrier { expected, pending, state: BarrierState::Prepared })
    }

    pub fn start(&mut self) -> (r: BarrierState)
        ensures
            final(self)@ == old(self)@.started(),
            r == final(self)@.state,
            old(self)@.wf() ==> final(self)@.wf(),
    {
        if self.state == BarrierState::Prepared {
            self.state = BarrierState::Transferring;
        }
        self.state
    }

    pub fn is_pending(&self, resource: LogicalResourceId) -> (r: bool)
        ensures
            r == self@.pending.contains(resource),
    {
        self.pending.contains(&resource)
    }

    pub fn state(&self) -> (r: BarrierState)
        ensures
            r == self@.state,
    {
        self.state
    }

    pub fn succeed(&mut self, resource: LogicalResourceId) -> (r: Result<
        BarrierUpdate,
        BarrierError,
    >)
        ensures
            (final(self)@, r) == old(self)@.succeeded(resource),
            old(self)@.wf() ==> final(self)@.wf(),
    {
        match self.require_expected(resource) {
            Ok(()) => {},
            Err(e) => {
                return Err(e);
            },
        }
        match self.state {
            BarrierState::Prepared => Err(BarrierError::NotStarted),
            BarrierState::Transferring => {
                if !self.pending.remove(&resource) {
                    assert(self.pending@ =~= old(self).pending@);
                    return Ok(BarrierUpdate::Pending);
                }
                if self.pending.is_empty() {
                    self.state = BarrierState::Complete;
                    Ok(BarrierUpdate::Complete)
                } else {
                    Ok(BarrierUpdate::Pending)
                }
            },
            settled => Ok(BarrierUpdate::Settled(settled)),
        }
    }

    pub fn fail(&mut self, resource: LogicalResourceId) -> (r: Result<BarrierUpdate, BarrierError>)
        ensures
            (final(self)@, r) == old(self)@.failed(resource),
            old(self)@.wf() ==> final(self)@.wf(),
    {
        match self.require_expected(resource) {
            Ok(()) => {},
            Err(e) => {
                return Err(e);
            },
        }
        match self.state {
            BarrierState::Prepared => Err(BarrierError::NotStarted),
            BarrierState::Transferring => {
                if self.pending.contains(&resource) {
                    self.state = BarrierState::Aborted;
                    self.pending = KeySet::new();
                    Ok(BarrierUpdate::Aborted)
                } else {
                    Ok(BarrierUpdate::Pending)
                }
            },
            settled => Ok(BarrierUpdate::Settled(settled)),
        }
    }

    fn require_expected(&self, resource: LogicalResourceId) -> (r: Result<(), BarrierError>)
        ensures
            r == if self@.expected.contains(resource) {
                Ok::<(), BarrierError>(())
            } else {
                Err(BarrierError::UnexpectedResource { resource })
            },
    {
        if self.expected.contains(&resource) {
            Ok(())
        } else {
            Err(BarrierError::UnexpectedResource { resource })
        }
    }
}

/// A settled barrier never changes again: every later success or failure of one of its resources
/// is told the state it settled in.
pub proof fn settled_barriers_stay_settled(barrier: BarrierView, resource: LogicalResourceId)
    requires
        barrier.wf(),
        barrier.settled(),
        barrier.expected.contains(resource),
    ensures
        barrier.started() == barrier,
        barrier.succeeded(resource) == (
            barrier,
            Ok::<BarrierUpdate, BarrierError>(BarrierUpdate::Settled(barrier.state)),
        ),
        barrier.failed(resource) == (
            barrier,
            Ok::<BarrierUpdate, BarrierError>(BarrierUpdate::Settled(barrier.state)),
        ),
{
}

/// A started barrier with no failure completes exactly when every expected resource has succeeded,
/// in whatever order and however often each of them reports.
pub proof fn barrier_completes_exactly_when_all_resources_succeeded(
    barrier: BarrierView,
    successes: Seq<LogicalResourceId>,
)
    requires
        barrier.wf(),
        barrier.state == BarrierState::Transferring,
        barrier.pending == barrier.expected,
    ensures
        barrier.after_successes(successes).wf(),
        barrier.after_successes(successes).expected == barrier.expected,
        barrier.after_successes(successes).pending == barrier.expected.difference(
            successes.to_set(),
        ),
        barrier.after_successes(successes).state == if barrier.expected.subset_of(
            successes.to_set(),
        ) {
            BarrierState::Complete
        } else {
            BarrierState::Transferring
        },
    decreases successes.len(),
{
    let after = barrier.after_successes(successes);
    if successes.len() == 0 {
        assert(after.pending =~= barrier.expected.difference(successes.to_set()));
        if barrier.expected.subset_of(successes.to_set()) {
            assert(barrier.expected =~= Set::<LogicalResourceId>::empty());
        }
    } else {
        let rest = successes.drop_last();
        let last = successes.last();
        barrier_completes_exactly_when_all_resources_succeeded(barrier, rest);
        let before = barrier.after_successes(rest);
        assert forall|r: LogicalResourceId|
            successes.to_set().contains(r) <==> rest.to_set().contains(r) || r == last by {
            if successes.contains(r) {
                let i = choose|i: int| 0 <= i < successes.len() && successes[i] == r;
                if i < rest.len() {
                    assert(rest[i] == r);
                }
            }
            if rest.contains(r) {
                let i = choose|i: int| 0 <= i < rest.len() && rest[i] == r;
                assert(successes[i] == r);
            }
            assert(successes[successes.len() - 1] == last);
        }
        assert(after.pending =~= barrier.expected.difference(successes.to_set()));
        let empty = Set::<LogicalResourceId>::empty();
        if barrier.expected.subset_of(rest.to_set()) {
            assert(before.pending =~= empty);
            assert(after == before);
            assert(barrier.expected.subset_of(successes.to_set()));
        } else {
            assert(before.state == BarrierState::Transferring);
            if barrier.expected.subset_of(successes.to_set()) {
                assert(after.pending =~= empty);
                assert(before.pending.remove(last) =~= empty);
                assert(before.pending != empty);
                assert(before.pending.contains(last));
            } else {
                assert(after.pending != empty) by {
                    let r = choose|r: LogicalResourceId|
                        barrier.expected.contains(r) && !successes.to_set().contains(r);
                    assert(after.pending.contains(r));
                }
                assert(before.pending.contains(last) ==> after.pending
                    =~= before.pending.remove(last));
            }
        }
    }
}

/// A running barrier counts each resource once: the first success of a pending resource takes it
/// off the list, the last one completes the barrier, and a first failure aborts it; a resource that
/// has reported already changes nothing.
pub proof fn running_barriers_count_each_resource_once(
    barrier: BarrierView,
    resource: LogicalResourceId,
    other: LogicalResourceId,
)
    requires
        barrier.wf(),
        barrier.state == BarrierState::Transferring,
        barrier.expected.contains(resource),
    ensures
        ({
            let (after, update) = barrier.succeeded(resource);
            let (aborted, abort) = barrier.failed(resource);
            let waiting = barrier.pending.contains(resource);
            &&& after.expected == barrier.expected
            &&& after.pending.contains(other) <==> barrier.pending.contains(other) && other
                != resource
            &&& update == Ok::<BarrierUpdate, BarrierError>(
                BarrierUpdate::Complete,
            ) <==> barrier.pending == set![resource]
            &&& update == Ok::<BarrierUpdate, BarrierError>(
                BarrierUpdate::Pending,
            ) <==> barrier.pending != set![resource]
            &&& after.state is Complete <==> barrier.pending == set![resource]
            &&& !waiting ==> after == barrier && aborted == barrier && abort == Ok::<
                BarrierUpdate,
                BarrierError,
            >(BarrierUpdate::Pending)
            &&& waiting ==> aborted.state is Aborted && abort == Ok::<BarrierUpdate, BarrierError>(
                BarrierUpdate::Aborted,
            ) && !aborted.pending.contains(other)
        }),
{
    let empty = Set::<LogicalResourceId>::empty();
    let rest = barrier.pending.remove(resource);
    if barrier.pending == set![resource] {
        assert(rest =~= empty);
        assert(barrier.pending.contains(resource));
    }
    if barrier.pending.contains(resource) && rest == empty {
        assert(barrier.pending =~= rest.insert(resource));
        assert(barrier.pending =~= set![resource]);
    }
    if !barrier.pending.contains(resource) {
        assert(set![resource].contains(resource));
    }
}

/// A report on a barrier that is not started, or of a resource that is not waited for, is refused
/// and changes nothing; starting a barrier leaves what it waits for.
pub proof fn unfit_reports_change_nothing(barrier: BarrierView, resource: LogicalResourceId)
    requires
        barrier.wf(),
    ensures
        !barrier.expected.contains(resource) ==> {
            &&& barrier.succeeded(resource) == (
                barrier,
                Err::<BarrierUpdate, BarrierError>(BarrierError::UnexpectedResource { resource }),
            )
            &&& barrier.failed(resource) == barrier.succeeded(resource)
        },
        barrier.expected.contains(resource) && barrier.state is Prepared ==> {
            &&& barrier.succeeded(resource) == (
                barrier,
                Err::<BarrierUpdate, BarrierError>(BarrierError::NotStarted),
            )
            &&& barrier.failed(resource) == barrier.succeeded(resource)
        },
        barrier.started().pending == barrier.pending,
        barrier.started().expected == barrier.expected,
        barrier.state is Prepared ==> barrier.started().state is Transferring,
        !(barrier.state is Prepared) ==> barrier.started() == barrier,
{
}

} // verus!
