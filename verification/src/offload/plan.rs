//! Whether a planned bundle offload is complete and ends where it says.

use crate::bundle::admission::{offload_ids, BundleOffloadPlan, ResourceOffload};
use crate::ids::{BlockId, BundleKey, LogicalResourceId, SequenceHash};
use crate::manifest::IdentityView;
use crate::ordered::{firsts, occurs_before, KeyMap, KeySet};
use crate::policy::dependency::ResourceLineage;
use crate::remote::search::{expected_block_count, expected_blocks};
use vstd::prelude::*;

verus! {

/// Why an offload is not started.
#[derive(Clone, Copy, Debug, PartialEq, Eq, Structural)]
pub enum OffloadPlanError {
    NoResources,
    IncompatibleKey,
    EmptyResource { resource: LogicalResourceId },
    DuplicateResource { resource: LogicalResourceId },
    /// No engine moves blocks of the resource.
    NotConfigured { resource: LogicalResourceId },
    /// The identity does not have the resource.
    AbsentResource { resource: LogicalResourceId },
    BlockCountOverflow { resource: LogicalResourceId },
    BlockCount {
        resource: LogicalResourceId,
        boundary_tokens: u64,
        expected: usize,
        actual: usize,
    },
    /// The last block is not the one that names the bundle.
    BoundaryHash { resource: LogicalResourceId },
}

/// What is wrong with the child at a place of a plan, given those before it.
pub open spec fn child_fault(
    identity: IdentityView,
    key: BundleKey,
    resources: Seq<ResourceOffload>,
    supported: Set<LogicalResourceId>,
    at: int,
) -> Option<OffloadPlanError> {
    let resource = resources[at].resource;
    let blocks = resources[at].blocks@;
    let expected = expected_blocks(identity.requirement(resource), key.boundary_tokens);
    if blocks.len() == 0 {
        Some(OffloadPlanError::EmptyResource { resource })
    } else if occurs_before(offload_ids(resources), at, resource) {
        Some(OffloadPlanError::DuplicateResource { resource })
    } else if !supported.contains(resource) {
        Some(OffloadPlanError::NotConfigured { resource })
    } else if !identity.id_set().contains(resource) {
        Some(OffloadPlanError::AbsentResource { resource })
    } else if expected > usize::MAX {
        Some(OffloadPlanError::BlockCountOverflow { resource })
    } else if blocks.len() != expected {
        Some(
            OffloadPlanError::BlockCount {
                resource,
                boundary_tokens: key.boundary_tokens,
                expected: expected as usize,
                actual: blocks.len() as usize,
            },
        )
    } else if blocks.last().0 != key.boundary_hash {
        Some(OffloadPlanError::BoundaryHash { resource })
    } else {
        None
    }
}

/// Whether a plan is refused with this error.
pub open spec fn plan_refused(
    identity: IdentityView,
    key: BundleKey,
    resources: Seq<ResourceOffload>,
    supported: Set<LogicalResourceId>,
    e: OffloadPlanError,
) -> bool {
    if resources.len() == 0 {
        e == OffloadPlanError::NoResources
    } else if !key.compatible(identity) {
        e == OffloadPlanError::IncompatibleKey
    } else {
        exists|at: int|
            {
                &&& 0 <= at < resources.len()
                &&& #[trigger] child_fault(identity, key, resources, supported, at) == Some(e)
                &&& forall|i: int|
                    0 <= i < at ==> #[trigger] child_fault(
                        identity,
                        key,
                        resources,
                        supported,
                        i,
                    ) is None
            }
    }
}

/// Whether every child of a plan fits.
pub open spec fn plan_fits(
    identity: IdentityView,
    key: BundleKey,
    resources: Seq<ResourceOffload>,
    supported: Set<LogicalResourceId>,
) -> bool {
    &&& resources.len() > 0
    &&& key.compatible(identity)
    &&& forall|i: int|
        0 <= i < resources.len() ==> #[trigger] child_fault(
            identity,
            key,
            resources,
            supported,
            i,
        ) is None
}

/// Copies a list of source blocks.
fn copy_blocks(blocks: &[(SequenceHash, BlockId)]) -> (r: Vec<(SequenceHash, BlockId)>)
    ensures
        r@ == blocks@,
{
    let mut copy: Vec<(SequenceHash, BlockId)> = Vec::new();
    let mut at: usize = 0;
    while at < blocks.len()
        invariant
            at <= blocks@.len(),
            copy@ == blocks@.subrange(0, at as int),
        decreases blocks@.len() - at,
    {
        copy.push(blocks[at]);
        at = at + 1;
        assert(copy@ =~= blocks@.subrange(0, at as int));
    }
    assert(copy@ =~= blocks@);
    copy
}

/// Source blocks by resource.
pub type SourceBlocks = KeyMap<LogicalResourceId, Vec<(SequenceHash, BlockId)>>;

/// Checks every child of a plan and gathers its source blocks.
pub fn validate_bundle_offload(
    plan: &BundleOffloadPlan,
    supported: &KeySet<LogicalResourceId>,
) -> (r: Result<SourceBlocks, OffloadPlanError>)
    ensures
        match r {
            Ok(sources) => {
                &&& plan_fits(plan.identity@, plan.key, plan.resources@, supported@)
                &&& sources@.dom() == offload_ids(plan.resources@).to_set()
                &&& forall|i: int|
                    0 <= i < plan.resources@.len() ==> sources@[(
                    #[trigger] plan.resources@[i]).resource]@ == plan.resources@[i].blocks@
            },
            Err(e) => plan_refused(plan.identity@, plan.key, plan.resources@, supported@, e),
        },
{
    let ghost ids = offload_ids(plan.resources@);
    if plan.resources.len() == 0 {
        return Err(OffloadPlanError::NoResources);
    }
    if !plan.key.is_compatible_with(&plan.identity) {
        return Err(OffloadPlanError::IncompatibleKey);
    }
    let mut sources: SourceBlocks = KeyMap::new();
    let mut at: usize = 0;
    while at < plan.resources.len()
        invariant
            at <= plan.resources@.len(),
            plan.resources@.len() > 0,
            plan.key.compatible(plan.identity@),
            ids == offload_ids(plan.resources@),
            forall|i: int|
                0 <= i < at ==> #[trigger] child_fault(
                    plan.identity@,
                    plan.key,
                    plan.resources@,
                    supported@,
                    i,
                ) is None,
            forall|resource: LogicalResourceId| #[trigger]
                sources@.contains_key(resource) <==> occurs_before(ids, at as int, resource),
            forall|i: int|
                0 <= i < at ==> sources@[(#[trigger] plan.resources@[i]).resource]@
                    == plan.resources@[i].blocks@,
        decreases plan.resources@.len() - at,
    {
        let child = &plan.resources[at];
        let resource = child.resource;
        let count: usize = child.blocks.len();
        let ghost fault = child_fault(
            plan.identity@,
            plan.key,
            plan.resources@,
            supported@,
            at as int,
        );
        if count == 0 {
            let e = OffloadPlanError::EmptyResource { resource };
            assert(fault == Some(e));
            return Err(e);
        }
        let ghost before = sources@;
        if sources.contains_key(&resource) {
            let e = OffloadPlanError::DuplicateResource { resource };
            assert(fault == Some(e));
            return Err(e);
        }
        sources.insert(resource, copy_blocks(child.blocks.as_slice()));
        if !supported.contains(&resource) {
            let e = OffloadPlanError::NotConfigured { resource };
            assert(fault == Some(e));
            return Err(e);
        }
        let requirement = match plan.identity.requirement(resource) {
            Some(requirement) => requirement,
            None => {
                let e = OffloadPlanError::AbsentResource { resource };
                assert(fault == Some(e));
                return Err(e);
            },
        };
        proof {
            let i = plan.identity@.member_is_listed(resource);
            assert(crate::manifest::requirement_fits(
                plan.identity@.resources[i],
                plan.identity@.alignment_tokens,
            ));
        }
        let wanted: u64 = expected_block_count(&requirement, plan.key.boundary_tokens);
        if wanted > usize::MAX as u64 {
            let e = OffloadPlanError::BlockCountOverflow { resource };
            assert(fault == Some(e));
            return Err(e);
        }
        let expected: usize = wanted as usize;
        if count != expected {
            let e = OffloadPlanError::BlockCount {
                resource,
                boundary_tokens: plan.key.boundary_tokens,
                expected,
                actual: count,
            };
            assert(fault == Some(e));
            return Err(e);
        }
        if child.blocks[count - 1].0 != plan.key.boundary_hash {
            let e = OffloadPlanError::BoundaryHash { resource };
            assert(fault == Some(e));
            return Err(e);
        }
        assert(fault is None);
        proof {
            assert forall|r: LogicalResourceId| #[trigger]
                sources@.contains_key(r) <==> occurs_before(ids, at + 1, r) by {
                assert(sources@.contains_key(r) <==> before.contains_key(r) || r == resource);
                if occurs_before(ids, at as int, r) {
                    let i = choose|i: int| 0 <= i < at && #[trigger] ids[i] == r;
                    assert(ids[i] == r);
                }
                if occurs_before(ids, at + 1, r) {
                    let i = choose|i: int| 0 <= i < at + 1 && #[trigger] ids[i] == r;
                    if i < at {
                        assert(occurs_before(ids, at as int, r));
                    }
                }
                assert(ids[at as int] == resource);
            }
            assert forall|i: int| 0 <= i < at + 1 implies sources@[(
            #[trigger] plan.resources@[i]).resource]@ == plan.resources@[i].blocks@ by {
                if i < at {
                    assert(ids[i] == plan.resources@[i].resource);
                    assert(occurs_before(ids, at as int, ids[i]));
                    assert(before.contains_key(ids[i]));
                }
            }
        }
        at = at + 1;
    }
    proof {
        assert forall|r: LogicalResourceId| sources@.dom().contains(r) <==> ids.to_set().contains(
            r,
        ) by {
            assert(sources@.contains_key(r) <==> occurs_before(ids, at as int, r));
            assert(ids.contains(r) <==> ids.to_set().contains(r));
        }
        assert(sources@.dom() =~= ids.to_set());
    }
    Ok(sources)
}

/// The lineage of each child: the hashes of its blocks, under the role the identity gives it.
pub fn plan_lineages(plan: &BundleOffloadPlan) -> (r: Vec<ResourceLineage>)
    requires
        forall|i: int|
            0 <= i < plan.resources@.len() ==> plan.identity@.id_set().contains(
                (#[trigger] plan.resources@[i]).resource,
            ),
    ensures
        r@.len() == plan.resources@.len(),
        forall|i: int|
            0 <= i < r@.len() ==> {
                &&& (#[trigger] r@[i]).resource == plan.resources@[i].resource
                &&& r@[i].role == plan.identity@.requirement(plan.resources@[i].resource).role
                &&& r@[i].hashes@ == firsts(plan.resources@[i].blocks@)
            },
{
    let mut lineages: Vec<ResourceLineage> = Vec::new();
    let mut at: usize = 0;
    while at < plan.resources.len()
        invariant
            at <= plan.resources@.len(),
            lineages@.len() == at,
            forall|i: int|
                0 <= i < plan.resources@.len() ==> plan.identity@.id_set().contains(
                    (#[trigger] plan.resources@[i]).resource,
                ),
            forall|i: int|
                0 <= i < at ==> {
                    &&& (#[trigger] lineages@[i]).resource == plan.resources@[i].resource
                    &&& lineages@[i].role == plan.identity@.requirement(
                        plan.resources@[i].resource,
                    ).role
                    &&& lineages@[i].hashes@ == firsts(plan.resources@[i].blocks@)
                },
        decreases plan.resources@.len() - at,
    {
        let child = &plan.resources[at];
        let requirement = plan.identity.requirement(child.resource).unwrap();
        let hashes = hashes_of(child.blocks.as_slice());
        lineages.push(ResourceLineage { resource: child.resource, role: requirement.role, hashes });
        at = at + 1;
    }
    lineages
}

/// The hashes of some source blocks.
pub fn hashes_of(blocks: &[(SequenceHash, BlockId)]) -> (r: Vec<SequenceHash>)
    ensures
        r@ == firsts(blocks@),
{
    let mut hashes: Vec<SequenceHash> = Vec::new();
    let mut at: usize = 0;
    while at < blocks.len()
        invariant
            at <= blocks@.len(),
            hashes@ == firsts(blocks@).subrange(0, at as int),
        decreases blocks@.len() - at,
    {
        hashes.push(blocks[at].0);
        at = at + 1;
        assert(hashes@ =~= firsts(blocks@).subrange(0, at as int));
    }
    assert(hashes@ =~= firsts(blocks@));
    hashes
}

/// A plan fits exactly if it is one of the manifest and has at least one child, every child is of a
/// resource of its own that the identity has and an engine moves, ends with the hash that names the
/// bundle, and covers the prefix: a history all of it, a capsule with one block.
pub proof fn fitting_plans_cover_the_prefix(
    identity: IdentityView,
    key: BundleKey,
    resources: Seq<ResourceOffload>,
    supported: Set<LogicalResourceId>,
)
    requires
        identity.wf(),
        identity.aligned(key.boundary_tokens),
        key.boundary_tokens <= usize::MAX,
    ensures
        plan_fits(identity, key, resources, supported) <==> {
            &&& resources.len() > 0
            &&& key.manifest == identity.manifest
            &&& forall|i: int|
                0 <= i < resources.len() ==> {
                    let blocks = (#[trigger] resources[i]).blocks@;
                    let requirement = identity.requirement(resources[i].resource);
                    &&& blocks.len() > 0
                    &&& supported.contains(resources[i].resource)
                    &&& identity.id_set().contains(resources[i].resource)
                    &&& blocks[blocks.len() - 1].0 == key.boundary_hash
                    &&& requirement.role is PrefixHistory ==> blocks.len()
                        * requirement.native_block_tokens == key.boundary_tokens
                    &&& requirement.role is BoundaryCapsule ==> blocks.len() == 1
                }
            &&& forall|i: int, j: int|
                0 <= i < j < resources.len() ==> (#[trigger] resources[i]).resource != (
                #[trigger] resources[j]).resource
        },
{
    let ids = offload_ids(resources);
    let apart = forall|i: int, j: int|
        0 <= i < j < resources.len() ==> (#[trigger] resources[i]).resource != (
        #[trigger] resources[j]).resource;
    let covers = |i: int|
        {
            let blocks = resources[i].blocks@;
            let requirement = identity.requirement(resources[i].resource);
            &&& blocks.len() > 0
            &&& supported.contains(resources[i].resource)
            &&& identity.id_set().contains(resources[i].resource)
            &&& blocks[blocks.len() - 1].0 == key.boundary_hash
            &&& requirement.role is PrefixHistory ==> blocks.len()
                * requirement.native_block_tokens == key.boundary_tokens
            &&& requirement.role is BoundaryCapsule ==> blocks.len() == 1
        };
    assert forall|i: int| 0 <= i < resources.len() implies (#[trigger] child_fault(
        identity,
        key,
        resources,
        supported,
        i,
    ) is None <==> covers(i) && !occurs_before(ids, i, resources[i].resource)) by {
        let resource = resources[i].resource;
        if identity.id_set().contains(resource) {
            let at = identity.member_is_listed(resource);
            let requirement = identity.resources[at];
            crate::manifest::aligned_boundaries_end_every_block(identity, key.boundary_tokens, at);
            let native = requirement.native_block_tokens as int;
            let tokens = key.boundary_tokens as int;
            let count = resources[i].blocks@.len() as int;
            assert(crate::manifest::requirement_fits(requirement, identity.alignment_tokens));
            assert(count == tokens / native <==> count * native == tokens) by (nonlinear_arith)
                requires
                    native > 0,
                    tokens % native == 0,
            ;
            assert(tokens / native <= tokens) by (nonlinear_arith)
                requires
                    native > 0,
                    tokens >= 0,
            ;
        }
    }
    if plan_fits(identity, key, resources, supported) {
        assert forall|i: int| 0 <= i < resources.len() implies #[trigger] covers(i) by {
            assert(child_fault(identity, key, resources, supported, i) is None);
        }
        assert forall|i: int| 0 <= i < resources.len() implies ({
            let blocks = (#[trigger] resources[i]).blocks@;
            let requirement = identity.requirement(resources[i].resource);
            &&& blocks.len() > 0
            &&& supported.contains(resources[i].resource)
            &&& identity.id_set().contains(resources[i].resource)
            &&& blocks[blocks.len() - 1].0 == key.boundary_hash
            &&& requirement.role is PrefixHistory ==> blocks.len()
                * requirement.native_block_tokens == key.boundary_tokens
            &&& requirement.role is BoundaryCapsule ==> blocks.len() == 1
        }) by {
            assert(covers(i));
        }
        assert forall|i: int, j: int| 0 <= i < j < resources.len() implies (
        #[trigger] resources[i]).resource != (#[trigger] resources[j]).resource by {
            assert(child_fault(identity, key, resources, supported, j) is None);
            assert(ids[i] == resources[i].resource);
        }
    }
    if apart && forall|i: int| 0 <= i < resources.len() ==> #[trigger] covers(i) {
        assert forall|i: int| 0 <= i < resources.len() implies #[trigger] child_fault(
            identity,
            key,
            resources,
            supported,
            i,
        ) is None by {
            assert(covers(i));
            if occurs_before(ids, i, resources[i].resource) {
                let j = choose|j: int| 0 <= j < i && #[trigger] ids[j] == resources[i].resource;
                assert(resources[j].resource == resources[i].resource);
            }
        }
    }
    if forall|i: int|
        0 <= i < resources.len() ==> {
            let blocks = (#[trigger] resources[i]).blocks@;
            let requirement = identity.requirement(resources[i].resource);
            &&& blocks.len() > 0
            &&& supported.contains(resources[i].resource)
            &&& identity.id_set().contains(resources[i].resource)
            &&& blocks[blocks.len() - 1].0 == key.boundary_hash
            &&& requirement.role is PrefixHistory ==> blocks.len()
                * requirement.native_block_tokens == key.boundary_tokens
            &&& requirement.role is BoundaryCapsule ==> blocks.len() == 1
        } {
        assert forall|i: int| 0 <= i < resources.len() implies #[trigger] covers(i) by {
            assert(resources[i].blocks@.len() > 0);
        }
    }
}

/// A plan that fits is never refused.
pub proof fn fitting_plans_are_not_refused(
    identity: IdentityView,
    key: BundleKey,
    resources: Seq<ResourceOffload>,
    supported: Set<LogicalResourceId>,
    e: OffloadPlanError,
)
    requires
        plan_refused(identity, key, resources, supported, e),
    ensures
        !plan_fits(identity, key, resources, supported),
        e is NoResources <==> resources.len() == 0,
        resources.len() > 0 ==> (e is IncompatibleKey <==> key.manifest != identity.manifest),
{
}

} // verus!
