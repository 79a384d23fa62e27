//! How an action on some blocks ended.

use crate::ids::{BlockId, LogicalResourceId};
use vstd::prelude::*;

verus! {

/// What of an action failed.
#[allow(inconsistent_fields)]
#[derive(Debug, PartialEq, Eq)]
pub enum ActionFailure {
    /// Nothing of the request was saved.
    AllBlocks,
    /// These blocks were not saved.
    Partial { block_ids: Vec<BlockId> },
    /// A resource of a bundle was not saved, and so none of the bundle.
    Resource { resource: LogicalResourceId, block_ids: Option<Vec<BlockId>> },
}

/// How an action stands.
#[derive(Debug, PartialEq, Eq)]
pub enum ActionStatus {
    Pending,
    Complete,
    Failed(ActionFailure),
}

/// The mathematical content of an [`ActionStatus`].
pub enum StatusView {
    Pending,
    Complete,
    AllBlocks,
    Partial(Seq<BlockId>),
    Resource(LogicalResourceId, Option<Seq<BlockId>>),
}

/// The content of an optional list of blocks.
pub open spec fn optional_blocks(blocks: Option<Vec<BlockId>>) -> Option<Seq<BlockId>> {
    match blocks {
        Some(blocks) => Some(blocks@),
        None => None,
    }
}

impl View for ActionStatus {
    type V = StatusView;

    open spec fn view(&self) -> StatusView {
        match self {
            ActionStatus::Pending => StatusView::Pending,
            ActionStatus::Complete => StatusView::Complete,
            ActionStatus::Failed(ActionFailure::AllBlocks) => StatusView::AllBlocks,
            ActionStatus::Failed(ActionFailure::Partial { block_ids }) => StatusView::Partial(
                block_ids@,
            ),
            ActionStatus::Failed(ActionFailure::Resource { resource, block_ids }) => {
                StatusView::Resource(*resource, optional_blocks(*block_ids))
            },
        }
    }
}

impl StatusView {
    pub open spec fn failed(self) -> bool {
        self is AllBlocks || self is Partial || self is Resource
    }
}

/// The content of an optional status.
pub open spec fn optional_status(status: Option<ActionStatus>) -> Option<StatusView> {
    match status {
        Some(status) => Some(status@),
        None => None,
    }
}

/// How a transfer stands.
#[derive(Clone, Copy, Debug, PartialEq, Eq, Structural)]
pub enum TransferStatus {
    Evaluating,
    Queued,
    Transferring,
    Complete,
    Cancelled,
    Failed,
}

/// What a transfer with these failed blocks amounts to.
pub open spec fn projected(status: TransferStatus, failed_blocks: Seq<BlockId>) -> StatusView {
    if status != TransferStatus::Failed {
        StatusView::Complete
    } else if failed_blocks.len() == 0 {
        StatusView::AllBlocks
    } else {
        StatusView::Partial(failed_blocks)
    }
}

/// What a transfer that is over amounts to. A cancelled save is a drained one: what has landed
/// stays. Only a failure is reported as one, with its blocks where they are known.
pub fn project_offload_status(status: TransferStatus, failed_blocks: Vec<BlockId>) -> (r:
    ActionStatus)
    ensures
        r@ == projected(status, failed_blocks@),
{
    match status {
        TransferStatus::Failed => {
            if failed_blocks.len() == 0 {
                ActionStatus::Failed(ActionFailure::AllBlocks)
            } else {
                ActionStatus::Failed(ActionFailure::Partial { block_ids: failed_blocks })
            }
        },
        _ => ActionStatus::Complete,
    }
}

/// A save is over with a failure exactly where its transfer failed: it then names the blocks that
/// failed, or all of the request where they are not known. A cancelled one is drained, not failed.
pub proof fn only_failed_transfers_fail_a_save(status: TransferStatus, failed_blocks: Seq<BlockId>)
    ensures
        projected(status, failed_blocks).failed() <==> status is Failed,
        status is Cancelled ==> projected(status, failed_blocks) is Complete,
        projected(status, failed_blocks) is AllBlocks <==> status is Failed && failed_blocks.len()
            == 0,
        projected(status, failed_blocks) matches StatusView::Partial(blocks) ==> blocks
            == failed_blocks && blocks.len() > 0,
        !(projected(status, failed_blocks) is Pending),
{
}

} // verus!
