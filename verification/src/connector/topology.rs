//! How a resource is spread over workers, and what capacity that makes.

use crate::connector::layout::LayoutConfig;
use crate::p2p::integrity::ParallelismMode;
use vstd::prelude::*;

verus! {

/// A layout without heads cannot be split by them: every worker holds the same data.
pub fn resolve_parallelism(configured: ParallelismMode, layout: &LayoutConfig) -> (r:
    ParallelismMode)
    ensures
        r == resolved_mode(configured, *layout),
{
    if layout.num_heads.is_none() {
        ParallelismMode::ReplicatedData
    } else {
        configured
    }
}

/// The mode that a layout allows.
pub open spec fn resolved_mode(configured: ParallelismMode, layout: LayoutConfig) -> ParallelismMode {
    if layout.num_heads is None {
        ParallelismMode::ReplicatedData
    } else {
        configured
    }
}

/// Whether workers need a collective: where several of them hold the same data.
pub fn collective_required(parallelism: ParallelismMode, worker_count: usize) -> (r: bool)
    ensures
        r == (parallelism == ParallelismMode::ReplicatedData && worker_count > 1),
{
    parallelism == ParallelismMode::ReplicatedData && worker_count > 1
}

/// Why a group of workers cannot be set up.
#[derive(Clone, Copy, Debug, PartialEq, Eq, Structural)]
pub enum TopologyError {
    /// There are no workers to configure tiers for.
    NoWorkers,
    /// The capacity of all workers together does not fit its counter.
    CapacityOverflow { per_worker_blocks: usize, worker_count: usize },
    /// A collective is needed, but none can be set up.
    CollectiveUnavailable { worker_count: usize },
}

/// The workers that a collective is to be set up for, where one is needed.
pub fn build_collective_bootstrap(
    parallelism: ParallelismMode,
    worker_count: usize,
    available: bool,
) -> (r: Result<Option<usize>, TopologyError>)
    ensures
        r == if !(parallelism == ParallelismMode::ReplicatedData && worker_count > 1) {
            Ok::<Option<usize>, TopologyError>(None)
        } else if available {
            Ok(Some(worker_count))
        } else {
            Err(TopologyError::CollectiveUnavailable { worker_count })
        },
{
    if !collective_required(parallelism, worker_count) {
        return Ok(None);
    }
    if available {
        Ok(Some(worker_count))
    } else {
        Err(TopologyError::CollectiveUnavailable { worker_count })
    }
}

/// The blocks that a tier of some workers holds.
pub open spec fn tier_blocks(
    per_worker_blocks: usize,
    parallelism: ParallelismMode,
    worker_count: usize,
) -> Result<usize, TopologyError> {
    if worker_count == 0 {
        Err(TopologyError::NoWorkers)
    } else if parallelism == ParallelismMode::TensorParallel {
        Ok(per_worker_blocks)
    } else if per_worker_blocks * worker_count <= usize::MAX {
        Ok((per_worker_blocks * worker_count) as usize)
    } else {
        Err(TopologyError::CapacityOverflow { per_worker_blocks, worker_count })
    }
}

/// The blocks that a tier holds in all. A sharded block takes one slot on every worker; of a
/// replicated block there is one copy, so that the workers' slots add up.
pub fn logical_tier_block_count(
    per_worker_blocks: usize,
    parallelism: ParallelismMode,
    worker_count: usize,
) -> (r: Result<usize, TopologyError>)
    ensures
        r == tier_blocks(per_worker_blocks, parallelism, worker_count),
{
    if worker_count == 0 {
        return Err(TopologyError::NoWorkers);
    }
    match parallelism {
        ParallelismMode::TensorParallel => Ok(per_worker_blocks),
        ParallelismMode::ReplicatedData => match per_worker_blocks.checked_mul(worker_count) {
            Some(blocks) => Ok(blocks),
            None => Err(TopologyError::CapacityOverflow { per_worker_blocks, worker_count }),
        },
    }
}

/// A layout that is not split by heads is replicated however it is configured; any other is spread
/// as configured.
pub proof fn headless_layouts_are_replicated(configured: ParallelismMode, layout: LayoutConfig)
    ensures
        layout.num_heads is None ==> resolved_mode(configured, layout) is ReplicatedData,
        layout.num_heads is Some ==> resolved_mode(configured, layout) == configured,
{
}

/// Sharded blocks do not gain from more workers, of which each holds a part of every block; of
/// replicated blocks each further worker adds its own.
pub proof fn workers_add_capacity_for_replicated_blocks(
    per_worker_blocks: usize,
    worker_count: usize,
    parallelism: ParallelismMode,
)
    requires
        0 < worker_count < usize::MAX,
    ensures
        tier_blocks(per_worker_blocks, parallelism, 1) == Ok::<usize, TopologyError>(
            per_worker_blocks,
        ),
        tier_blocks(per_worker_blocks, parallelism, 0) is Err,
        parallelism is TensorParallel ==> tier_blocks(per_worker_blocks, parallelism, worker_count)
            == tier_blocks(per_worker_blocks, parallelism, 1),
        ({
            let now = tier_blocks(per_worker_blocks, parallelism, worker_count);
            let more = tier_blocks(per_worker_blocks, parallelism, (worker_count + 1) as usize);
            &&& parallelism is ReplicatedData && more is Ok ==> now is Ok && more->Ok_0
                == now->Ok_0 + per_worker_blocks
            &&& now is Ok && now->Ok_0 + per_worker_blocks <= usize::MAX ==> more is Ok
        }),
{
    let (blocks, workers) = (per_worker_blocks as int, worker_count as int);
    assert(blocks * (workers + 1) == blocks * workers + blocks) by (nonlinear_arith);
    assert(blocks * 1 == blocks);
}

} // verus!
