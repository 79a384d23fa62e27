//! One verdict for all children of a bundle, given only when every child is done.

use crate::offload::status::{optional_status, ActionFailure, ActionStatus, StatusView};
use crate::positive::PositiveUsize;
use vstd::prelude::*;

verus! {

/// The mathematical content of a [`BundleChildDrain`].
pub struct DrainView {
    pub remaining: nat,
    pub terminal: Option<StatusView>,
}

/// The verdict after one more child reports: the first report stands, except that a failure takes
/// the place of a success.
pub open spec fn merged(terminal: Option<StatusView>, candidate: Option<StatusView>) -> Option<
    StatusView,
> {
    match (terminal, candidate) {
        (_, None) => terminal,
        (None, Some(_)) => candidate,
        (Some(StatusView::Complete), Some(status)) => if status.failed() {
            candidate
        } else {
            terminal
        },
        _ => terminal,
    }
}

impl DrainView {
    /// What one more finished child makes of the drain, and the verdict where it was the last.
    pub open spec fn finished(self, candidate: Option<StatusView>) -> (
        DrainView,
        Option<StatusView>,
    ) {
        let terminal = merged(self.terminal, candidate);
        if self.remaining == 0 {
            (DrainView { terminal, ..self }, None)
        } else if self.remaining > 1 {
            (DrainView { remaining: (self.remaining - 1) as nat, terminal }, None)
        } else {
            (
                DrainView { remaining: 0, terminal: None },
                Some(
                    match terminal {
                        Some(status) => status,
                        None => StatusView::AllBlocks,
                    },
                ),
            )
        }
    }

    /// The drain after several children.
    pub open spec fn after(self, candidates: Seq<Option<StatusView>>) -> DrainView
        decreases candidates.len(),
    {
        if candidates.len() == 0 {
            self
        } else {
            self.after(candidates.drop_last()).finished(candidates.last()).0
        }
    }
}

/// Counts the children of a bundle that are still under way.
#[derive(Debug)]
pub struct BundleChildDrain {
    remaining: usize,
    terminal: Option<ActionStatus>,
}

impl View for BundleChildDrain {
    type V = DrainView;

    closed spec fn view(&self) -> DrainView {
        DrainView {
            remaining: self.remaining as nat,
            terminal: optional_status(self.terminal),
        }
    }
}

impl BundleChildDrain {
    pub fn new(child_count: PositiveUsize) -> (r: Self)
        ensures
            r@ == (DrainView { remaining: child_count@, terminal: None }),
    {
        BundleChildDrain { remaining: child_count.get(), terminal: None }
    }

    /// Reports one finished child; gives the verdict once, with the last child.
    pub fn finish_child(&mut self, candidate: Option<ActionStatus>) -> (r: Option<ActionStatus>)
        ensures
            (final(self)@, optional_status(r)) == old(self)@.finished(optional_status(candidate)),
    {
        if let Some(candidate) = candidate {
            let replace = match &self.terminal {
                None => true,
                Some(ActionStatus::Complete) => match &candidate {
                    ActionStatus::Failed(_) => true,
                    _ => false,
                },
                Some(_) => false,
            };
            if replace {
                self.terminal = Some(candidate);
            }
        }
        if self.remaining == 0 {
            return None;
        }
        self.remaining = self.remaining - 1;
        if self.remaining != 0 {
            return None;
        }
        match self.terminal.take() {
            Some(status) => Some(status),
            None => Some(ActionStatus::Failed(ActionFailure::AllBlocks)),
        }
    }
}

/// The verdict that some reports lead to: a failure where there is one, else a success where there
/// is one, else none.
pub open spec fn verdict(candidates: Seq<Option<StatusView>>) -> Option<StatusView>
    decreases candidates.len(),
{
    if candidates.len() == 0 {
        None
    } else {
        merged(verdict(candidates.drop_last()), candidates.last())
    }
}

/// The verdict on a bundle comes exactly with its last child, and never twice: before that every
/// report is answered with nothing, and so is every report after it.
pub proof fn verdict_waits_for_every_child(
    drain: DrainView,
    candidates: Seq<Option<StatusView>>,
    last: Option<StatusView>,
)
    requires
        drain.terminal is None,
        drain.remaining > 0,
    ensures
        candidates.len() + 1 < drain.remaining ==> drain.after(candidates).finished(last).1 is None,
        candidates.len() + 1 == drain.remaining ==> drain.after(candidates).finished(last).1
            == Some(
            match merged(verdict(candidates), last) {
                Some(status) => status,
                None => StatusView::AllBlocks,
            },
        ),
        candidates.len() >= drain.remaining ==> drain.after(candidates).finished(last).1 is None,
{
    counted(drain, candidates);
}

proof fn counted(drain: DrainView, candidates: Seq<Option<StatusView>>)
    requires
        drain.terminal is None,
        drain.remaining > 0,
    ensures
        candidates.len() < drain.remaining ==> drain.after(candidates) == (DrainView {
            remaining: (drain.remaining - candidates.len()) as nat,
            terminal: verdict(candidates),
        }),
        candidates.len() >= drain.remaining ==> drain.after(candidates).remaining == 0,
    decreases candidates.len(),
{
    if candidates.len() > 0 {
        counted(drain, candidates.drop_last());
    }
}

/// One failed child fails the bundle, whatever the others report and in whatever order.
pub proof fn one_failure_fails_the_bundle(candidates: Seq<Option<StatusView>>, at: int)
    requires
        0 <= at < candidates.len(),
        candidates[at] is Some,
        candidates[at]->Some_0.failed(),
        forall|i: int|
            0 <= i < candidates.len() && #[trigger] candidates[i] is Some
                ==> !(candidates[i]->Some_0 is Pending),
    ensures
        verdict(candidates) is Some,
        verdict(candidates)->Some_0.failed(),
    decreases candidates.len(),
{
    let rest = candidates.drop_last();
    assert forall|i: int| 0 <= i < rest.len() && #[trigger] rest[i] is Some implies !(
    rest[i]->Some_0 is Pending) by {
        assert(candidates[i] is Some);
    }
    if at < rest.len() {
        assert(rest[at] == candidates[at]);
        one_failure_fails_the_bundle(rest, at);
    } else {
        never_pending(rest);
    }
}

proof fn never_pending(candidates: Seq<Option<StatusView>>)
    requires
        forall|i: int|
            0 <= i < candidates.len() && #[trigger] candidates[i] is Some
                ==> !(candidates[i]->Some_0 is Pending),
    ensures
        verdict(candidates) is Some ==> !(verdict(candidates)->Some_0 is Pending),
    decreases candidates.len(),
{
    if candidates.len() > 0 {
        let rest = candidates.drop_last();
        assert forall|i: int| 0 <= i < rest.len() && #[trigger] rest[i] is Some implies !(
        rest[i]->Some_0 is Pending) by {
            assert(candidates[i] is Some);
        }
        never_pending(rest);
        assert(candidates[candidates.len() - 1] == candidates.last());
    }
}

/// The verdict on a bundle is the first failure among the reports, where there is one.
pub proof fn the_first_failure_is_the_verdict(candidates: Seq<Option<StatusView>>, at: int)
    requires
        0 <= at < candidates.len(),
        candidates[at] is Some,
        candidates[at]->Some_0 is AllBlocks || candidates[at]->Some_0 is Partial
            || candidates[at]->Some_0 is Resource,
        forall|i: int|
            0 <= i < at && #[trigger] candidates[i] is Some ==> candidates[i]->Some_0 is Complete,
    ensures
        verdict(candidates) == candidates[at],
    decreases candidates.len(),
{
    let rest = candidates.drop_last();
    if at < rest.len() {
        assert forall|i: int|
            0 <= i < at && #[trigger] rest[i] is Some implies rest[i]->Some_0 is Complete by {
            assert(rest[i] == candidates[i]);
        }
        assert(rest[at] == candidates[at]);
        the_first_failure_is_the_verdict(rest, at);
    } else {
        assert forall|i: int|
            0 <= i < rest.len() && #[trigger] rest[i] is Some implies rest[i]->Some_0
                is Complete by {
            assert(rest[i] == candidates[i]);
        }
        successes_make_a_success(rest);
    }
}

/// Where every report is a success or says nothing, the verdict is a success exactly if there is
/// one.
pub proof fn successes_make_a_success(candidates: Seq<Option<StatusView>>)
    requires
        forall|i: int|
            0 <= i < candidates.len() && #[trigger] candidates[i] is Some
                ==> candidates[i]->Some_0 is Complete,
    ensures
        verdict(candidates) is None <==> forall|i: int|
            0 <= i < candidates.len() ==> #[trigger] candidates[i] is None,
        verdict(candidates) is Some ==> verdict(candidates)->Some_0 is Complete,
    decreases candidates.len(),
{
    if candidates.len() > 0 {
        let rest = candidates.drop_last();
        assert forall|i: int| 0 <= i < rest.len() && #[trigger] rest[i] is Some implies rest[i]->Some_0
            is Complete by {
            assert(rest[i] == candidates[i]);
        }
        successes_make_a_success(rest);
        assert(candidates.last() == candidates[candidates.len() - 1]);
        if verdict(candidates) is None {
            assert forall|i: int| 0 <= i < candidates.len() implies #[trigger] candidates[i]
                is None by {
                if i < rest.len() {
                    assert(rest[i] == candidates[i]);
                }
            }
        }
        if forall|i: int| 0 <= i < candidates.len() ==> #[trigger] candidates[i] is None {
            assert forall|i: int| 0 <= i < rest.len() implies #[trigger] rest[i] is None by {
                assert(rest[i] == candidates[i]);
            }
        }
    }
}

} // verus!
