//! One outcome for all copies that load a bundle.

use crate::bundle::barrier::{BarrierState, BarrierUpdate};
use crate::bundle::onboard::{BundleOnboard, OnboardTransition, OnboardTransitionView, OnboardView};
use crate::ids::{BlockId, LogicalResourceId};
use crate::lists::copy_block_ids;
use crate::offload::status::{ActionFailure, ActionStatus, StatusView};
use crate::onboard::plan::ResourceOnboard;
use vstd::prelude::*;

verus! {

/// A copy that could not be started.
#[derive(Debug)]
pub struct DispatchFailure {
    pub resource: LogicalResourceId,
    pub destination_block_ids: Vec<BlockId>,
}

/// A copy that was started, and whether it succeeded.
#[derive(Debug)]
pub struct CompletedResource {
    pub resource: LogicalResourceId,
    pub destination_block_ids: Vec<BlockId>,
    pub succeeded: bool,
}

/// Copies that are being started one after the other; the first that fails to start is the last.
#[derive(Debug)]
pub struct DispatchBatch {
    waiting: Vec<ResourceOnboard>,
    next: usize,
    failed: bool,
}

impl DispatchBatch {
    pub closed spec fn copies(&self) -> Seq<ResourceOnboard> {
        self.waiting@
    }

    /// The copies that were started.
    pub closed spec fn started(&self) -> nat {
        self.next as nat
    }

    /// Whether the copy after those failed to start.
    pub closed spec fn stopped(&self) -> bool {
        self.failed
    }

    pub open spec fn wf(&self) -> bool {
        &&& self.started() <= self.copies().len()
        &&& self.stopped() ==> self.started() < self.copies().len()
    }

    pub fn new(resources: Vec<ResourceOnboard>) -> (r: Self)
        ensures
            r.wf(),
            r.copies() == resources@,
            r.started() == 0,
            !r.stopped(),
    {
        DispatchBatch { waiting: resources, next: 0, failed: false }
    }

    /// The next copy to start, while none has failed.
    pub fn next(&self) -> (r: Option<&ResourceOnboard>)
        requires
            self.wf(),
        ensures
            r is Some <==> !self.stopped() && self.started() < self.copies().len(),
            r is Some ==> *r->Some_0 == self.copies()[self.started() as int],
    {
        if self.failed || self.next >= self.waiting.len() {
            None
        } else {
            Some(&self.waiting[self.next])
        }
    }

    /// Reports whether the next copy was started.
    pub fn report(&mut self, started: bool)
        requires
            old(self).wf(),
        ensures
            final(self).wf(),
            final(self).copies() == old(self).copies(),
            if old(self).stopped() || old(self).started() == old(self).copies().len() {
                *final(self) == *old(self)
            } else if started {
                final(self).started() == old(self).started() + 1 && !final(self).stopped()
            } else {
                final(self).started() == old(self).started() && final(self).stopped()
            },
    {
        if self.failed || self.next >= self.waiting.len() {
            return ;
        }
        if started {
            self.next = self.next + 1;
        } else {
            self.failed = true;
        }
    }

    /// The copy that failed to start, where one did.
    pub fn failure(&self) -> (r: Option<DispatchFailure>)
        requires
            self.wf(),
        ensures
            r is Some <==> self.stopped(),
            r is Some ==> {
                let copy = self.copies()[self.started() as int];
                &&& r->Some_0.resource == copy.resource
                &&& r->Some_0.destination_block_ids@ == copy.destination_block_ids@
            },
    {
        if self.failed {
            let copy = &self.waiting[self.next];
            Some(
                DispatchFailure {
                    resource: copy.resource,
                    destination_block_ids: copy_block_ids(copy.destination_block_ids.as_slice()),
                },
            )
        } else {
            None
        }
    }
}

/// The failure of one resource with its blocks.
pub open spec fn resource_failed(resource: LogicalResourceId, blocks: Seq<BlockId>) -> StatusView {
    StatusView::Resource(resource, Some(blocks))
}

/// The outcome of copies that stand for themselves: the failure to start one, else the first copy
/// that failed, else success.
pub fn fold_resource_onboard(
    dispatch_failure: Option<DispatchFailure>,
    completed: &[CompletedResource],
) -> (r: ActionStatus)
    ensures
        match dispatch_failure {
            Some(failure) => r@ == resource_failed(
                failure.resource,
                failure.destination_block_ids@,
            ),
            None => {
                ||| r@ is Complete && forall|i: int|
                    0 <= i < completed@.len() ==> (#[trigger] completed@[i]).succeeded
                ||| exists|at: int|
                    {
                        &&& 0 <= at < completed@.len()
                        &&& !(#[trigger] completed@[at]).succeeded
                        &&& forall|i: int|
                            0 <= i < at ==> (#[trigger] completed@[i]).succeeded
                        &&& r@ == resource_failed(
                            completed@[at].resource,
                            completed@[at].destination_block_ids@,
                        )
                    }
            },
        },
{
    if let Some(failure) = dispatch_failure {
        return ActionStatus::Failed(
            ActionFailure::Resource {
                resource: failure.resource,
                block_ids: Some(failure.destination_block_ids),
            },
        );
    }
    let mut at: usize = 0;
    while at < completed.len()
        invariant
            at <= completed@.len(),
            dispatch_failure is None,
            forall|i: int| 0 <= i < at ==> (#[trigger] completed@[i]).succeeded,
        decreases completed@.len() - at,
    {
        let copy = &completed[at];
        if !copy.succeeded {
            let block_ids = copy_block_ids(copy.destination_block_ids.as_slice());
            let r = ActionStatus::Failed(
                ActionFailure::Resource { resource: copy.resource, block_ids: Some(block_ids) },
            );
            assert(!completed@[at as int].succeeded);
            return r;
        }
        at = at + 1;
    }
    ActionStatus::Complete
}

/// What one failed resource makes of the transaction.
pub open spec fn after_failure<R>(onboard: OnboardView<R>, resource: LogicalResourceId) -> OnboardView<
    R,
> {
    let (barrier, update) = onboard.barrier.failed(resource);
    OnboardView {
        barrier,
        reservations: if update == Ok::<BarrierUpdate, crate::bundle::barrier::BarrierError>(
            BarrierUpdate::Aborted,
        ) {
            None
        } else {
            onboard.reservations
        },
        ..onboard
    }
}

/// What one finished copy makes of the transaction and of the outcome so far.
pub open spec fn fold_one<R>(
    onboard: OnboardView<R>,
    outcome: StatusView,
    copy: CompletedResource,
) -> (OnboardView<R>, StatusView) {
    let failed = resource_failed(copy.resource, copy.destination_block_ids@);
    if copy.succeeded {
        let (after, answer) = onboard.completed(copy.resource);
        (
            after,
            match answer {
                Ok(OnboardTransitionView::Visible(_)) => StatusView::Complete,
                Ok(_) => outcome,
                Err(_) => failed,
            },
        )
    } else {
        let (_, update) = onboard.barrier.failed(copy.resource);
        (
            after_failure(onboard, copy.resource),
            match update {
                Ok(BarrierUpdate::Aborted) => failed,
                Ok(_) => outcome,
                Err(_) => failed,
            },
        )
    }
}

/// What the first finished copies make of the transaction and of the outcome.
pub open spec fn fold_up_to<R>(
    onboard: OnboardView<R>,
    outcome: StatusView,
    completed: Seq<CompletedResource>,
    end: int,
) -> (OnboardView<R>, StatusView)
    decreases end,
{
    if end <= 0 {
        (onboard, outcome)
    } else {
        let (before, so_far) = fold_up_to(onboard, outcome, completed, end - 1);
        fold_one(before, so_far, completed[end - 1])
    }
}

/// The outcome of loading a bundle: a failed copy aborts it, the last success makes it visible.
pub fn fold_bundle_onboard<R>(
    transaction: &mut BundleOnboard<R>,
    dispatch_failure: Option<DispatchFailure>,
    completed: &[CompletedResource],
) -> (r: ActionStatus)
    ensures
        (final(transaction)@, r@) == match dispatch_failure {
            Some(failure) => fold_up_to(
                after_failure(old(transaction)@, failure.resource),
                resource_failed(failure.resource, failure.destination_block_ids@),
                completed@,
                completed@.len() as int,
            ),
            None => fold_up_to(
                old(transaction)@,
                StatusView::Complete,
                completed@,
                completed@.len() as int,
            ),
        },
        old(transaction)@.wf() ==> final(transaction)@.wf(),
{
    let mut outcome = ActionStatus::Complete;
    let ghost mut start = transaction@;
    let ghost mut first = StatusView::Complete;
    if let Some(failure) = dispatch_failure {
        let blocks = copy_block_ids(failure.destination_block_ids.as_slice());
        outcome =
        ActionStatus::Failed(
            ActionFailure::Resource { resource: failure.resource, block_ids: Some(blocks) },
        );
        proof {
            first = resource_failed(failure.resource, failure.destination_block_ids@);
            start = after_failure(start, failure.resource);
        }
        let _ = transaction.fail(failure.resource, Some(failure.destination_block_ids));
        assert(transaction@ == start);
    }
    let mut at: usize = 0;
    while at < completed.len()
        invariant
            at <= completed@.len(),
            (transaction@, outcome@) == fold_up_to(start, first, completed@, at as int),
            old(transaction)@.wf() ==> transaction@.wf(),
        decreases completed@.len() - at,
    {
        let copy = &completed[at];
        let ghost before = transaction@;
        let transition = if copy.succeeded {
            transaction.complete(copy.resource)
        } else {
            transaction.fail(
                copy.resource,
                Some(copy_block_ids(copy.destination_block_ids.as_slice())),
            )
        };
        match transition {
            Ok(OnboardTransition::Visible(_)) => {
                outcome = ActionStatus::Complete;
            },
            Ok(OnboardTransition::Aborted(failure)) => {
                let block_ids = match failure.failed_blocks() {
                    Some(blocks) => Some(copy_block_ids(blocks)),
                    None => None,
                };
                outcome =
                ActionStatus::Failed(
                    ActionFailure::Resource { resource: failure.resource(), block_ids },
                );
            },
            Ok(_) => {},
            Err(_) => {
                let blocks = copy_block_ids(copy.destination_block_ids.as_slice());
                outcome =
                ActionStatus::Failed(
                    ActionFailure::Resource { resource: copy.resource, block_ids: Some(blocks) },
                );
            },
        }
        assert((transaction@, outcome@) == fold_one(
            before,
            fold_up_to(start, first, completed@, at as int).1,
            completed@[at as int],
        ));
        at = at + 1;
    }
    outcome
}

/// Loading a bundle reports a failure exactly when its transaction aborted, whatever the order in
/// which its copies finish; in particular one that became visible reports success.
pub proof fn outcome_follows_the_barrier<R>(
    onboard: OnboardView<R>,
    completed: Seq<CompletedResource>,
    end: int,
)
    requires
        onboard.wf(),
        onboard.barrier.state == BarrierState::Transferring,
        0 <= end <= completed.len(),
        forall|i: int|
            0 <= i < completed.len() ==> onboard.barrier.expected.contains(
                (#[trigger] completed[i]).resource,
            ),
    ensures
        ({
            let (after, outcome) = fold_up_to(onboard, StatusView::Complete, completed, end);
            &&& after.wf()
            &&& after.barrier.expected == onboard.barrier.expected
            &&& after.barrier.state != BarrierState::Prepared
            &&& after.barrier.state == BarrierState::Aborted ==> outcome.failed()
            &&& after.barrier.state != BarrierState::Aborted ==> outcome is Complete
        }),
    decreases end,
{
    if end > 0 {
        outcome_follows_the_barrier(onboard, completed, end - 1);
        assert(onboard.barrier.expected.contains(completed[end - 1].resource));
    }
}

/// A copy that could not be started fails the load with its own blocks, whatever becomes of the
/// copies that were started before it.
pub proof fn a_failed_dispatch_fails_the_load<R>(
    onboard: OnboardView<R>,
    resource: LogicalResourceId,
    blocks: Seq<BlockId>,
    completed: Seq<CompletedResource>,
    end: int,
)
    requires
        onboard.wf(),
        onboard.barrier.state == BarrierState::Transferring,
        onboard.barrier.expected.contains(resource),
        onboard.barrier.pending.contains(resource),
        0 <= end <= completed.len(),
        forall|i: int|
            0 <= i < completed.len() ==> onboard.barrier.expected.contains(
                (#[trigger] completed[i]).resource,
            ),
    ensures
        ({
            let failed = resource_failed(resource, blocks);
            let (after, outcome) = fold_up_to(
                after_failure(onboard, resource),
                failed,
                completed,
                end,
            );
            &&& outcome == failed
            &&& after.barrier.state == BarrierState::Aborted
            &&& after.barrier.expected == onboard.barrier.expected
            &&& after.reservations is None
        }),
    decreases end,
{
    if end > 0 {
        a_failed_dispatch_fails_the_load(onboard, resource, blocks, completed, end - 1);
        assert(onboard.barrier.expected.contains(completed[end - 1].resource));
    }
}

/// A load reports its first failed copy, with the blocks that copy was to fill, whatever becomes of
/// the copies after it; the bundle then never becomes visible.
pub proof fn the_first_failed_copy_is_reported<R>(
    onboard: OnboardView<R>,
    completed: Seq<CompletedResource>,
    at: int,
    end: int,
)
    requires
        onboard.wf(),
        onboard.barrier.state == BarrierState::Transferring,
        onboard.barrier.pending == onboard.barrier.expected,
        0 <= at < end <= completed.len(),
        forall|i: int|
            0 <= i < completed.len() ==> onboard.barrier.expected.contains(
                (#[trigger] completed[i]).resource,
            ),
        forall|i: int, j: int|
            0 <= i < j < completed.len() ==> (#[trigger] completed[i]).resource != (
            #[trigger] completed[j]).resource,
        !completed[at].succeeded,
        forall|i: int| 0 <= i < at ==> (#[trigger] completed[i]).succeeded,
    ensures
        ({
            let (after, outcome) = fold_up_to(onboard, StatusView::Complete, completed, end);
            &&& outcome == StatusView::Resource(
                completed[at].resource,
                Some(completed[at].destination_block_ids@),
            )
            &&& after.barrier.state is Aborted
            &&& after.barrier.expected == onboard.barrier.expected
            &&& after.reservations is None
        }),
    decreases end,
{
    if end > at + 1 {
        the_first_failed_copy_is_reported(onboard, completed, at, end - 1);
        assert(onboard.barrier.expected.contains(completed[end - 1].resource));
    } else {
        arrived_copies_are_counted(onboard, completed, at, at);
        assert(onboard.barrier.expected.contains(completed[at].resource));
    }
}

/// A load whose copies all arrive, one for each resource, becomes visible and reports success.
pub proof fn a_load_of_every_resource_becomes_visible<R>(
    onboard: OnboardView<R>,
    completed: Seq<CompletedResource>,
)
    requires
        onboard.wf(),
        onboard.barrier.state == BarrierState::Transferring,
        onboard.barrier.pending == onboard.barrier.expected,
        completed.len() > 0,
        forall|i: int|
            0 <= i < completed.len() ==> (#[trigger] completed[i]).succeeded
                && onboard.barrier.expected.contains(completed[i].resource),
        forall|i: int, j: int|
            0 <= i < j < completed.len() ==> (#[trigger] completed[i]).resource != (
            #[trigger] completed[j]).resource,
        forall|resource: LogicalResourceId| #[trigger]
            onboard.barrier.expected.contains(resource) ==> exists|i: int|
                0 <= i < completed.len() && (#[trigger] completed[i]).resource == resource,
    ensures
        ({
            let (after, outcome) = fold_up_to(
                onboard,
                StatusView::Complete,
                completed,
                completed.len() as int,
            );
            outcome is Complete && after.barrier.state is Complete && after.reservations is None
        }),
{
    let n = completed.len() as int;
    let last = completed[n - 1].resource;
    arrived_copies_are_counted(onboard, completed, n - 1, n - 1);
    let before = fold_up_to(onboard, StatusView::Complete, completed, n - 1).0;
    assert forall|resource: LogicalResourceId| before.barrier.pending.contains(
        resource,
    ) implies resource == last by {
        assert(onboard.barrier.expected.contains(resource));
        let i = choose|i: int|
            0 <= i < completed.len() && (#[trigger] completed[i]).resource == resource;
        assert(completed[i].resource == resource);
        assert(i >= n - 1);
    }
    assert(before.barrier.pending.remove(last) =~= Set::<LogicalResourceId>::empty());
    assert(completed[n - 1].succeeded);
}

proof fn arrived_copies_are_counted<R>(
    onboard: OnboardView<R>,
    completed: Seq<CompletedResource>,
    end: int,
    next: int,
)
    requires
        onboard.wf(),
        onboard.barrier.state == BarrierState::Transferring,
        onboard.barrier.pending == onboard.barrier.expected,
        0 <= end <= next < completed.len(),
        forall|i: int|
            0 <= i < completed.len() ==> onboard.barrier.expected.contains(
                (#[trigger] completed[i]).resource,
            ),
        forall|i: int, j: int|
            0 <= i < j < completed.len() ==> (#[trigger] completed[i]).resource != (
            #[trigger] completed[j]).resource,
        forall|i: int| 0 <= i < end ==> (#[trigger] completed[i]).succeeded,
    ensures
        ({
            let (after, outcome) = fold_up_to(onboard, StatusView::Complete, completed, end);
            &&& outcome is Complete
            &&& after.barrier.state == BarrierState::Transferring
            &&& after.barrier.expected == onboard.barrier.expected
            &&& after.barrier.pending.contains(completed[next].resource)
            &&& forall|resource: LogicalResourceId| #[trigger]
                after.barrier.pending.contains(resource) <==> onboard.barrier.expected.contains(
                    resource,
                ) && forall|i: int|
                    0 <= i < end ==> (#[trigger] completed[i]).resource != resource
        }),
    decreases end,
{
    assert(onboard.barrier.expected.contains(completed[next].resource));
    if end > 0 {
        arrived_copies_are_counted(onboard, completed, end - 1, next);
        let before = fold_up_to(onboard, StatusView::Complete, completed, end - 1).0;
        let copy = completed[end - 1];
        assert(copy.resource != completed[next].resource);
        assert(before.barrier.pending.contains(copy.resource)) by {
            assert(onboard.barrier.expected.contains(copy.resource));
        }
        let rest = before.barrier.pending.remove(copy.resource);
        assert(rest.contains(completed[next].resource));
        let after = fold_up_to(onboard, StatusView::Complete, completed, end).0;
        assert forall|resource: LogicalResourceId| #[trigger]
            after.barrier.pending.contains(resource) <==> onboard.barrier.expected.contains(
                resource,
            ) && forall|i: int|
                0 <= i < end ==> (#[trigger] completed[i]).resource != resource by {
            assert(before.barrier.pending.contains(resource)
                <==> onboard.barrier.expected.contains(resource) && forall|i: int|
                0 <= i < end - 1 ==> (#[trigger] completed[i]).resource != resource);
            if resource == copy.resource {
                assert(completed[end - 1].resource == resource);
            }
        }
    }
}

} // verus!
