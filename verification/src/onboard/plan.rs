//! Which blocks are copied where when a bundle is loaded.

use crate::bundle::index::{BlockPin, BundleLease, LeaseView, PinnedBlock};
use crate::bundle::onboard::{BundleOnboard, BundleOnboardError};
use crate::ids::{BlockId, BundleKey, LogicalResourceId, SequenceHash};
use crate::manifest::{CacheIdentity, IdentityView, ResourceRequirement, ResourceRole};
use crate::ordered::{
    distinct_up_to, first_repeat, firsts, occurs_before, pairs_map, KeyMap, KeySet,
};
use vstd::prelude::*;

verus! {

/// One resource's copy from the lower tier to the upper one.
#[derive(Debug, PartialEq, Eq)]
pub struct ResourceOnboard {
    pub resource: LogicalResourceId,
    pub source_block_ids: Vec<BlockId>,
    pub destination_block_ids: Vec<BlockId>,
}

/// The mathematical content of a [`ResourceOnboard`].
pub struct TransferView {
    pub resource: LogicalResourceId,
    pub sources: Seq<BlockId>,
    pub destinations: Seq<BlockId>,
}

impl View for ResourceOnboard {
    type V = TransferView;

    open spec fn view(&self) -> TransferView {
        TransferView {
            resource: self.resource,
            sources: self.source_block_ids@,
            destinations: self.destination_block_ids@,
        }
    }
}

/// Where one resource is to be loaded: the blocks of the request, from its start.
#[derive(Debug)]
pub struct ResourceDestination {
    pub resource: LogicalResourceId,
    pub block_ids: Vec<BlockId>,
}

/// The copies that load one bundle.
#[derive(Debug)]
pub struct BundleOnboardPlan {
    pub identity: CacheIdentity,
    pub key: BundleKey,
    pub resources: Vec<ResourceOnboard>,
}

/// Why a load is not started.
#[derive(Clone, Copy, Debug, PartialEq, Eq, Structural)]
pub enum OnboardPlanError {
    NoResources,
    DuplicateResource { resource: LogicalResourceId },
    /// Sources and destinations do not pair up.
    Shape { resource: LogicalResourceId, sources: usize, destinations: usize },
    /// No block manager serves the resource.
    NotConfigured { resource: LogicalResourceId },
    /// The bundle is not held locally.
    NotCommitted,
    MissingLease { resource: LogicalResourceId },
    /// The planned sources are not the leased blocks.
    SourceMismatch { resource: LogicalResourceId },
    DuplicateDestination { resource: LogicalResourceId },
    /// There is not one destination for each resource.
    DestinationCount,
    /// The search has no lease yet.
    NoLease,
    BoundaryOverflow,
    MissingDestination { resource: LogicalResourceId },
    /// The blocks from `first` up to `end` are not all there.
    Uncovered { resource: LogicalResourceId, first: usize, end: usize },
}

/// The resources of some copies.
pub open spec fn transfer_ids(resources: Seq<ResourceOnboard>) -> Seq<LogicalResourceId> {
    Seq::new(resources.len(), |i: int| resources[i].resource)
}

/// What is wrong with the copy at a place, given those before it.
pub open spec fn transfer_fault(
    resources: Seq<ResourceOnboard>,
    managed: Set<LogicalResourceId>,
    at: int,
) -> Option<OnboardPlanError> {
    let transfer = resources[at]@;
    let resource = transfer.resource;
    if occurs_before(transfer_ids(resources), at, resource) {
        Some(OnboardPlanError::DuplicateResource { resource })
    } else if transfer.sources.len() == 0 || transfer.sources.len()
        != transfer.destinations.len() {
        Some(
            OnboardPlanError::Shape {
                resource,
                sources: transfer.sources.len() as usize,
                destinations: transfer.destinations.len() as usize,
            },
        )
    } else if !managed.contains(resource) {
        Some(OnboardPlanError::NotConfigured { resource })
    } else {
        None
    }
}

/// Whether checking some copies can give this.
pub open spec fn transfers_checked(
    resources: Seq<ResourceOnboard>,
    managed: Set<LogicalResourceId>,
    r: Result<(), OnboardPlanError>,
) -> bool {
    match r {
        Ok(()) => resources.len() > 0 && forall|i: int|
            0 <= i < resources.len() ==> #[trigger] transfer_fault(
                resources,
                managed,
                i,
            ) is None,
        Err(e) => if resources.len() == 0 {
            e == OnboardPlanError::NoResources
        } else {
            exists|at: int|
                {
                    &&& 0 <= at < resources.len()
                    &&& #[trigger] transfer_fault(resources, managed, at) == Some(e)
                    &&& forall|i: int|
                        0 <= i < at ==> #[trigger] transfer_fault(
                            resources,
                            managed,
                            i,
                        ) is None
                }
        },
    }
}

/// Checks that copies are of distinct resources, pair up, and can be served.
pub fn validate_resource_transfers(
    resources: &[ResourceOnboard],
    managed: &KeySet<LogicalResourceId>,
) -> (r: Result<(), OnboardPlanError>)
    ensures
        transfers_checked(resources@, managed@, r),
{
    if resources.len() == 0 {
        return Err(OnboardPlanError::NoResources);
    }
    let ghost ids = transfer_ids(resources@);
    let mut seen: KeySet<LogicalResourceId> = KeySet::new();
    let mut at: usize = 0;
    while at < resources.len()
        invariant
            at <= resources@.len(),
            resources@.len() > 0,
            ids == transfer_ids(resources@),
            forall|i: int|
                0 <= i < at ==> #[trigger] transfer_fault(resources@, managed@, i) is None,
            forall|r: LogicalResourceId| #[trigger]
                seen@.contains(r) <==> occurs_before(ids, at as int, r),
        decreases resources@.len() - at,
    {
        let transfer = &resources[at];
        let resource = transfer.resource;
        let ghost before = seen@;
        let ghost fault = transfer_fault(resources@, managed@, at as int);
        if !seen.insert(resource) {
            let e = OnboardPlanError::DuplicateResource { resource };
            assert(fault == Some(e));
            return Err(e);
        }
        let sources: usize = transfer.source_block_ids.len();
        let destinations: usize = transfer.destination_block_ids.len();
        if sources == 0 || sources != destinations {
            let e = OnboardPlanError::Shape { resource, sources, destinations };
            assert(fault == Some(e));
            return Err(e);
        }
        if !managed.contains(&resource) {
            let e = OnboardPlanError::NotConfigured { resource };
            assert(fault == Some(e));
            return Err(e);
        }
        assert(fault is None);
        proof {
            occurrence_grows(ids, at as int);
            assert forall|r: LogicalResourceId| #[trigger]
                seen@.contains(r) <==> occurs_before(ids, at + 1, r) by {
                assert(seen@.contains(r) <==> before.contains(r) || r == resource);
                assert(ids[at as int] == resource);
                assert(occurs_before(ids, at + 1, r) <==> occurs_before(ids, at as int, r) || r
                    == ids[at as int]);
            }
        }
        at = at + 1;
    }
    Ok(())
}

/// A key stands before the next place exactly if it stood before this one or stands here.
pub proof fn occurrence_grows<K>(keys: Seq<K>, at: int)
    requires
        0 <= at < keys.len(),
    ensures
        forall|k: K| #[trigger]
            occurs_before(keys, at + 1, k) <==> occurs_before(keys, at, k) || k == keys[at],
{
    assert forall|k: K| #[trigger]
        occurs_before(keys, at + 1, k) <==> occurs_before(keys, at, k) || k == keys[at] by {
        if occurs_before(keys, at, k) {
            let i = choose|i: int| 0 <= i < at && #[trigger] keys[i] == k;
            assert(keys[i] == k);
        }
        if occurs_before(keys, at + 1, k) {
            let i = choose|i: int| 0 <= i < at + 1 && #[trigger] keys[i] == k;
            if i < at {
                assert(keys[i] == k);
            }
        }
    }
}

/// Leased blocks by resource.
pub type SourceLeases<H> = KeyMap<LogicalResourceId, Vec<PinnedBlock<H>>>;

/// Whether some pins are pins on the same blocks as others, had by sharing those.
pub open spec fn pins_shared<H: BlockPin>(
    pins: Seq<PinnedBlock<H>>,
    shared: Seq<PinnedBlock<H>>,
) -> bool {
    &&& shared.len() == pins.len()
    &&& forall|i: int| 0 <= i < pins.len() ==> (#[trigger] pins[i]).shared_as(shared[i])
}

/// The places of some pinned blocks.
pub open spec fn pin_ids<H>(pins: Seq<PinnedBlock<H>>) -> Seq<BlockId> {
    Seq::new(pins.len(), |i: int| pins[i].block_id)
}

/// The hashes of some pinned blocks.
pub open spec fn pin_hashes<H>(pins: Seq<PinnedBlock<H>>) -> Seq<SequenceHash> {
    Seq::new(pins.len(), |i: int| pins[i].sequence_hash)
}

/// Adds the hashes of pinned blocks to a list.
fn push_hashes<H>(hashes: &mut Vec<SequenceHash>, pins: &[PinnedBlock<H>])
    ensures
        final(hashes)@ == old(hashes)@ + pin_hashes(pins@),
{
    let mut at: usize = 0;
    assert(hashes@ =~= old(hashes)@ + pin_hashes(pins@).subrange(0, 0));
    while at < pins.len()
        invariant
            at <= pins@.len(),
            hashes@ == old(hashes)@ + pin_hashes(pins@).subrange(0, at as int),
        decreases pins@.len() - at,
    {
        hashes.push(pins[at].sequence_hash);
        at = at + 1;
        assert(hashes@ =~= old(hashes)@ + pin_hashes(pins@).subrange(0, at as int));
    }
    assert(pin_hashes(pins@).subrange(0, at as int) =~= pin_hashes(pins@));
}

/// Whether the places of pinned blocks are these.
fn pins_are<H>(pins: &[PinnedBlock<H>], ids: &[BlockId]) -> (r: bool)
    ensures
        r == (pin_ids(pins@) == ids@),
{
    if pins.len() != ids.len() {
        return false;
    }
    let mut at: usize = 0;
    while at < pins.len()
        invariant
            at <= pins@.len(),
            pins@.len() == ids@.len(),
            forall|i: int| 0 <= i < at ==> (#[trigger] pins@[i]).block_id == ids@[i],
        decreases pins@.len() - at,
    {
        if pins[at].block_id != ids[at] {
            assert(pin_ids(pins@)[at as int] != ids@[at as int]);
            return false;
        }
        at = at + 1;
    }
    assert(pin_ids(pins@) =~= ids@);
    true
}

/// The hashes of the leased blocks behind the first copies, in their order.
pub open spec fn leased_hashes<H>(
    lease: Map<LogicalResourceId, Vec<PinnedBlock<H>>>,
    resources: Seq<ResourceOnboard>,
    end: int,
) -> Seq<SequenceHash>
    decreases end,
{
    if end <= 0 {
        Seq::empty()
    } else {
        leased_hashes(lease, resources, end - 1) + pin_hashes(
            lease[resources[end - 1].resource]@,
        )
    }
}

/// What is wrong with the sources of the copy at a place, given those before it.
pub open spec fn source_fault<H>(
    lease: Map<LogicalResourceId, Vec<PinnedBlock<H>>>,
    resources: Seq<ResourceOnboard>,
    at: int,
) -> Option<OnboardPlanError> {
    let resource = resources[at].resource;
    if !lease.contains_key(resource) || occurs_before(transfer_ids(resources), at, resource) {
        Some(OnboardPlanError::MissingLease { resource })
    } else if pin_ids(lease[resource]@) != resources[at]@.sources {
        Some(OnboardPlanError::SourceMismatch { resource })
    } else {
        None
    }
}

/// Takes from a lease the blocks that a plan copies from, which must be exactly the leased ones.
pub fn acquire_bundle_sources<H>(
    plan: &BundleOnboardPlan,
    leased: Option<BundleLease<Vec<PinnedBlock<H>>>>,
) -> (r: Result<(SourceLeases<H>, Vec<SequenceHash>), OnboardPlanError>)
    ensures
        match leased {
            None => r == Err::<(SourceLeases<H>, Vec<SequenceHash>), OnboardPlanError>(
                OnboardPlanError::NotCommitted,
            ),
            Some(lease) => {
                let held = lease@.resources;
                match r {
                    Ok((leases, hashes)) => {
                        &&& forall|i: int|
                            0 <= i < plan.resources@.len() ==> #[trigger] source_fault(
                                held,
                                plan.resources@,
                                i,
                            ) is None
                        &&& leases@.dom() == transfer_ids(plan.resources@).to_set()
                        &&& forall|resource: LogicalResourceId| #[trigger]
                            leases@.contains_key(resource) ==> leases@[resource] == held[resource]
                        &&& hashes@ == leased_hashes(
                            held,
                            plan.resources@,
                            plan.resources@.len() as int,
                        )
                    },
                    Err(e) => exists|at: int|
                        {
                            &&& 0 <= at < plan.resources@.len()
                            &&& #[trigger] source_fault(held, plan.resources@, at) == Some(e)
                            &&& forall|i: int|
                                0 <= i < at ==> #[trigger] source_fault(
                                    held,
                                    plan.resources@,
                                    i,
                                ) is None
                        },
                }
            },
        },
{
    let lease = match leased {
        Some(lease) => lease,
        None => {
            return Err(OnboardPlanError::NotCommitted);
        },
    };
    let ghost held = lease@.resources;
    let ghost ids = transfer_ids(plan.resources@);
    let mut left = lease.into_resources();
    let mut leases: SourceLeases<H> = KeyMap::new();
    let mut hashes: Vec<SequenceHash> = Vec::new();
    let mut at: usize = 0;
    while at < plan.resources.len()
        invariant
            at <= plan.resources@.len(),
            ids == transfer_ids(plan.resources@),
            leased is Some && leased->Some_0@.resources == held,
            hashes@ == leased_hashes(held, plan.resources@, at as int),
            forall|i: int|
                0 <= i < at ==> #[trigger] source_fault(held, plan.resources@, i) is None,
            forall|r: LogicalResourceId| #[trigger]
                leases@.contains_key(r) <==> occurs_before(ids, at as int, r),
            forall|r: LogicalResourceId| #[trigger]
                leases@.contains_key(r) ==> leases@[r] == held[r],
            forall|r: LogicalResourceId| #[trigger]
                left@.contains_key(r) <==> held.contains_key(r) && !occurs_before(
                    ids,
                    at as int,
                    r,
                ),
            forall|r: LogicalResourceId| #[trigger] left@.contains_key(r) ==> left@[r] == held[r],
        decreases plan.resources@.len() - at,
    {
        let transfer = &plan.resources[at];
        let resource = transfer.resource;
        let ghost fault = source_fault(held, plan.resources@, at as int);
        let ghost left_before = left@;
        let ghost leases_before = leases@;
        assert(left_before.contains_key(resource) <==> held.contains_key(resource)
            && !occurs_before(ids, at as int, resource));
        let pins = match left.remove(&resource) {
            Some(pins) => pins,
            None => {
                let e = OnboardPlanError::MissingLease { resource };
                assert(fault == Some(e));
                return Err(e);
            },
        };
        if !pins_are(pins.as_slice(), transfer.source_block_ids.as_slice()) {
            let e = OnboardPlanError::SourceMismatch { resource };
            assert(fault == Some(e));
            return Err(e);
        }
        assert(fault is None);
        push_hashes(&mut hashes, pins.as_slice());
        leases.insert(resource, pins);
        proof {
            occurrence_grows(ids, at as int);
            assert(ids[at as int] == resource);
            assert forall|r: LogicalResourceId| #[trigger]
                leases@.contains_key(r) <==> occurs_before(ids, at + 1, r) by {
                assert(leases@.contains_key(r) <==> leases_before.contains_key(r) || r == resource);
            }
            assert forall|r: LogicalResourceId| #[trigger]
                left@.contains_key(r) <==> held.contains_key(r) && !occurs_before(
                    ids,
                    at + 1,
                    r,
                ) by {
                assert(left@.contains_key(r) <==> left_before.contains_key(r) && r != resource);
            }
            assert forall|r: LogicalResourceId| #[trigger]
                leases@.contains_key(r) implies leases@[r] == held[r] by {
                assert(leases_before.contains_key(r) || r == resource);
            }
            assert forall|r: LogicalResourceId| #[trigger] left@.contains_key(r) implies left@[r]
                == held[r] by {
                assert(left_before.contains_key(r));
            }
        }
        at = at + 1;
    }
    proof {
        assert forall|r: LogicalResourceId| leases@.dom().contains(r) <==> ids.to_set().contains(
            r,
        ) by {
            assert(leases@.contains_key(r) <==> occurs_before(ids, at as int, r));
            assert(ids.contains(r) <==> ids.to_set().contains(r));
        }
        assert(leases@.dom() =~= ids.to_set());
    }
    Ok((leases, hashes))
}

/// The first native block that is loaded: the one that holds the next token to compute. A capsule
/// is one object.
pub open spec fn first_block(requirement: ResourceRequirement, computed_tokens: usize) -> int {
    match requirement.role {
        ResourceRole::PrefixHistory => computed_tokens as int
            / requirement.native_block_tokens as int,
        ResourceRole::BoundaryCapsule => 0,
    }
}

/// The end of the native blocks that are loaded: the boundary, rounded up.
pub open spec fn end_block(requirement: ResourceRequirement, boundary_tokens: usize) -> int {
    match requirement.role {
        ResourceRole::PrefixHistory => (boundary_tokens + requirement.native_block_tokens - 1)
            / (requirement.native_block_tokens as int),
        ResourceRole::BoundaryCapsule => 1,
    }
}

/// What is wrong with the range of one resource.
pub open spec fn range_fault<H>(
    requirement: ResourceRequirement,
    computed_tokens: usize,
    boundary_tokens: usize,
    lease: Map<LogicalResourceId, Vec<PinnedBlock<H>>>,
    destinations: Map<LogicalResourceId, Vec<BlockId>>,
) -> Option<OnboardPlanError> {
    let resource = requirement.resource;
    let first = first_block(requirement, computed_tokens);
    let end = end_block(requirement, boundary_tokens);
    if !destinations.contains_key(resource) {
        Some(OnboardPlanError::MissingDestination { resource })
    } else if !lease.contains_key(resource) {
        Some(OnboardPlanError::MissingLease { resource })
    } else if first >= end || lease[resource]@.len() < end || destinations[resource]@.len() < end {
        Some(
            OnboardPlanError::Uncovered { resource, first: first as usize, end: end as usize },
        )
    } else {
        None
    }
}

/// The leased blocks that are loaded for one resource.
pub open spec fn loaded_pins<H>(
    requirement: ResourceRequirement,
    computed_tokens: usize,
    boundary_tokens: usize,
    lease: Map<LogicalResourceId, Vec<PinnedBlock<H>>>,
) -> Seq<PinnedBlock<H>> {
    lease[requirement.resource]@.subrange(
        first_block(requirement, computed_tokens),
        end_block(requirement, boundary_tokens),
    )
}

/// The copy of one resource.
pub open spec fn planned_transfer<H>(
    requirement: ResourceRequirement,
    computed_tokens: usize,
    boundary_tokens: usize,
    lease: Map<LogicalResourceId, Vec<PinnedBlock<H>>>,
    destinations: Map<LogicalResourceId, Vec<BlockId>>,
) -> TransferView {
    TransferView {
        resource: requirement.resource,
        sources: pin_ids(loaded_pins(requirement, computed_tokens, boundary_tokens, lease)),
        destinations: destinations[requirement.resource]@.subrange(
            first_block(requirement, computed_tokens),
            end_block(requirement, boundary_tokens),
        ),
    }
}

/// The hashes of the blocks that are loaded for the first resources.
pub open spec fn loaded_hashes<H>(
    requirements: Seq<ResourceRequirement>,
    computed_tokens: usize,
    boundary_tokens: usize,
    lease: Map<LogicalResourceId, Vec<PinnedBlock<H>>>,
    end: int,
) -> Seq<SequenceHash>
    decreases end,
{
    if end <= 0 {
        Seq::empty()
    } else {
        loaded_hashes(requirements, computed_tokens, boundary_tokens, lease, end - 1)
            + pin_hashes(
            loaded_pins(requirements[end - 1], computed_tokens, boundary_tokens, lease),
        )
    }
}

/// A search's lease turned into copies, with the blocks to keep leased while they run.
#[derive(Debug)]
pub struct SearchedPlan<H> {
    pub plan: BundleOnboardPlan,
    pub leases: SourceLeases<H>,
    pub inflight_hashes: Vec<SequenceHash>,
}

/// Destinations paired with their resources.
pub open spec fn destination_pairs(destinations: Seq<ResourceDestination>) -> Seq<
    (LogicalResourceId, Vec<BlockId>),
> {
    Seq::new(destinations.len(), |i: int| (destinations[i].resource, destinations[i].block_ids))
}

/// Whether planning the load of a leased bundle can give this.
pub open spec fn searched_plan_made<H: BlockPin>(
    identity: IdentityView,
    leased: Option<LeaseView<Vec<PinnedBlock<H>>>>,
    computed_tokens: usize,
    destinations: Seq<ResourceDestination>,
    r: Result<SearchedPlan<H>, OnboardPlanError>,
) -> bool {
    let pairs = destination_pairs(destinations);
    let ids = firsts(pairs);
    let map = pairs_map(pairs);
    let requirements = identity.resources;
    if !distinct_up_to(ids, ids.len() as int) {
        exists|at: int| #[trigger]
            first_repeat(ids, at) && r == Err::<SearchedPlan<H>, OnboardPlanError>(
                OnboardPlanError::DuplicateDestination { resource: ids[at] },
            )
    } else if destinations.len() != requirements.len() {
        r == Err::<SearchedPlan<H>, OnboardPlanError>(OnboardPlanError::DestinationCount)
    } else if leased is None {
        r == Err::<SearchedPlan<H>, OnboardPlanError>(OnboardPlanError::NoLease)
    } else if leased->Some_0.key.boundary_tokens > usize::MAX {
        r == Err::<SearchedPlan<H>, OnboardPlanError>(OnboardPlanError::BoundaryOverflow)
    } else {
        let held = leased->Some_0.resources;
        let boundary = leased->Some_0.key.boundary_tokens as usize;
        match r {
            Ok(searched) => {
                &&& forall|i: int|
                    0 <= i < requirements.len() ==> range_fault(
                        #[trigger] requirements[i],
                        computed_tokens,
                        boundary,
                        held,
                        map,
                    ) is None
                &&& searched.plan.identity@ == identity
                &&& searched.plan.key == leased->Some_0.key
                &&& searched.plan.resources@.len() == requirements.len()
                &&& forall|i: int|
                    0 <= i < requirements.len() ==> (
                    #[trigger] searched.plan.resources@[i])@ == planned_transfer(
                        requirements[i],
                        computed_tokens,
                        boundary,
                        held,
                        map,
                    )
                &&& searched.leases@.dom() == identity.id_set()
                &&& forall|i: int|
                    0 <= i < requirements.len() ==> pins_shared(
                        loaded_pins(
                            #[trigger] requirements[i],
                            computed_tokens,
                            boundary,
                            held,
                        ),
                        searched.leases@[requirements[i].resource]@,
                    )
                &&& searched.inflight_hashes@ == loaded_hashes(
                    requirements,
                    computed_tokens,
                    boundary,
                    held,
                    requirements.len() as int,
                )
            },
            Err(e) => exists|at: int|
                {
                    &&& 0 <= at < requirements.len()
                    &&& range_fault(
                        #[trigger] requirements[at],
                        computed_tokens,
                        boundary,
                        held,
                        map,
                    ) == Some(e)
                    &&& forall|i: int|
                        0 <= i < at ==> range_fault(
                            #[trigger] requirements[i],
                            computed_tokens,
                            boundary,
                            held,
                            map,
                        ) is None
                },
        }
    }
}

/// Plans the load of a leased bundle: for each resource the native blocks from the first one that
/// is not computed yet up to the boundary.
pub fn searched_bundle_plan<H: BlockPin>(
    identity: &CacheIdentity,
    leased: Option<&BundleLease<Vec<PinnedBlock<H>>>>,
    computed_tokens: usize,
    destinations: Vec<ResourceDestination>,
) -> (r: Result<SearchedPlan<H>, OnboardPlanError>)
    ensures
        searched_plan_made(
            identity@,
            match leased {
                Some(lease) => Some(lease@),
                None => None,
            },
            computed_tokens,
            destinations@,
            r,
        ),
{
    let ghost pairs = destination_pairs(destinations@);
    let ghost ids = firsts(pairs);
    let ghost given = destinations@;
    let count: usize = destinations.len();
    let listed = pair_destinations(destinations);
    assert(listed@ =~= pairs);
    let targets = match KeyMap::from_entries(listed) {
        Ok(targets) => targets,
        Err(resource) => {
            proof {
                let at = choose|at: int| #[trigger]
                    first_repeat(ids, at) && pairs[at].0 == resource;
                assert(first_repeat(ids, at) && ids[at] == resource);
                let i = choose|i: int| 0 <= i < at && #[trigger] ids[i] == ids[at];
                assert(ids[i] == ids[at]);
            }
            return Err(OnboardPlanError::DuplicateDestination { resource });
        },
    };
    let requirements = identity.resources();
    if count != requirements.len() {
        return Err(OnboardPlanError::DestinationCount);
    }
    let lease = match leased {
        Some(lease) => lease,
        None => {
            return Err(OnboardPlanError::NoLease);
        },
    };
    let key = *lease.key();
    if key.boundary_tokens > usize::MAX as u64 {
        return Err(OnboardPlanError::BoundaryOverflow);
    }
    let boundary: usize = key.boundary_tokens as usize;
    let held = lease.resources();
    let mut resources: Vec<ResourceOnboard> = Vec::new();
    let mut leases: SourceLeases<H> = KeyMap::new();
    let mut inflight_hashes: Vec<SequenceHash> = Vec::new();
    let mut at: usize = 0;
    while at < requirements.len()
        invariant
            at <= requirements@.len(),
            requirements@ == identity@.resources,
            identity@.wf(),
            resources@.len() == at,
            given == destinations@,
            pairs == destination_pairs(given),
            ids == firsts(pairs),
            distinct_up_to(ids, ids.len() as int),
            given.len() == requirements@.len(),
            targets@ == pairs_map(pairs),
            held@ == lease@.resources,
            key == lease@.key,
            boundary == key.boundary_tokens,
            leased is Some && *leased->Some_0 == *lease,
            forall|i: int|
                0 <= i < at ==> range_fault(
                    #[trigger] requirements@[i],
                    computed_tokens,
                    boundary,
                    held@,
                    targets@,
                ) is None,
            forall|i: int|
                0 <= i < at ==> (#[trigger] resources@[i])@ == planned_transfer(
                    requirements@[i],
                    computed_tokens,
                    boundary,
                    held@,
                    targets@,
                ),
            forall|r: LogicalResourceId| #[trigger]
                leases@.contains_key(r) <==> occurs_before(identity@.ids(), at as int, r),
            forall|i: int|
                0 <= i < at ==> pins_shared(
                    loaded_pins(#[trigger] requirements@[i], computed_tokens, boundary, held@),
                    leases@[requirements@[i].resource]@,
                ),
            inflight_hashes@ == loaded_hashes(
                requirements@,
                computed_tokens,
                boundary,
                held@,
                at as int,
            ),
        decreases requirements@.len() - at,
    {
        let requirement = requirements[at];
        let resource = requirement.resource;
        let ghost fault = range_fault(requirement, computed_tokens, boundary, held@, targets@);
        assert(crate::manifest::requirement_fits(
            identity@.resources[at as int],
            identity@.alignment_tokens,
        ));
        let (first, end) = native_range(&requirement, computed_tokens, boundary);
        let destination = match targets.get(&resource) {
            Some(destination) => destination,
            None => {
                let e = OnboardPlanError::MissingDestination { resource };
                assert(fault == Some(e));
                return Err(e);
            },
        };
        let source = match held.get(&resource) {
            Some(source) => source,
            None => {
                let e = OnboardPlanError::MissingLease { resource };
                assert(fault == Some(e));
                return Err(e);
            },
        };
        if first >= end || source.len() < end || destination.len() < end {
            let e = OnboardPlanError::Uncovered { resource, first, end };
            assert(fault == Some(e));
            return Err(e);
        }
        assert(fault is None);
        let pins = pins_between(source.as_slice(), first, end);
        proof {
            let whole = loaded_pins(requirement, computed_tokens, boundary, held@);
            assert(pins_shared(whole, pins@));
            assert forall|i: int| 0 <= i < whole.len() implies pins@[i].block_id == whole[i].block_id
                && pins@[i].sequence_hash == whole[i].sequence_hash by {
                assert(whole[i].shared_as(pins@[i]));
            }
            assert(pin_ids(pins@) =~= pin_ids(whole));
            assert(pin_hashes(pins@) =~= pin_hashes(whole));
        }
        let source_block_ids = ids_of_pins(pins.as_slice());
        let destination_block_ids = ids_between(destination.as_slice(), first, end);
        push_hashes(&mut inflight_hashes, pins.as_slice());
        resources.push(ResourceOnboard { resource, source_block_ids, destination_block_ids });
        let ghost leases_before = leases@;
        leases.insert(resource, pins);
        proof {
            occurrence_grows(identity@.ids(), at as int);
            crate::ordered::ascending_keys_are_distinct(identity@.ids());
            assert(identity@.ids()[at as int] == resource);
            assert forall|r: LogicalResourceId| #[trigger]
                leases@.contains_key(r) <==> occurs_before(identity@.ids(), at + 1, r) by {
                assert(leases@.contains_key(r) <==> leases_before.contains_key(r) || r == resource);
            }
            assert forall|i: int| 0 <= i < at + 1 implies pins_shared(
                loaded_pins(#[trigger] requirements@[i], computed_tokens, boundary, held@),
                leases@[requirements@[i].resource]@,
            ) by {
                if i < at {
                    assert(identity@.ids()[i] == requirements@[i].resource);
                    assert(identity@.ids()[i] != identity@.ids()[at as int]);
                }
            }
        }
        at = at + 1;
    }
    proof {
        let all = identity@.ids();
        assert forall|r: LogicalResourceId| leases@.dom().contains(r) <==> all.to_set().contains(
            r,
        ) by {
            assert(leases@.contains_key(r) <==> occurs_before(all, at as int, r));
            assert(all.contains(r) <==> all.to_set().contains(r));
        }
        assert(leases@.dom() =~= identity@.id_set());
    }
    Ok(
        SearchedPlan {
            plan: BundleOnboardPlan { identity: identity.clone(), key, resources },
            leases,
            inflight_hashes,
        },
    )
}

fn pair_destinations(destinations: Vec<ResourceDestination>) -> (r: Vec<
    (LogicalResourceId, Vec<BlockId>),
>)
    ensures
        r@ == destination_pairs(destinations@),
{
    let ghost given = destinations@;
    let mut pairs: Vec<(LogicalResourceId, Vec<BlockId>)> = Vec::new();
    for destination in iter: destinations.into_iter()
        invariant
            iter.seq() == given,
            pairs@.len() == iter.index(),
            forall|i: int|
                0 <= i < pairs@.len() ==> #[trigger] pairs@[i] == (
                    given[i].resource,
                    given[i].block_ids,
                ),
    {
        pairs.push((destination.resource, destination.block_ids));
    }
    assert(pairs@ =~= destination_pairs(given));
    pairs
}

/// The native blocks that are loaded for one resource.
fn native_range(requirement: &ResourceRequirement, computed_tokens: usize, boundary: usize) -> (r: (
    usize,
    usize,
))
    requires
        requirement.native_block_tokens > 0,
    ensures
        r.0 == first_block(*requirement, computed_tokens),
        r.1 == end_block(*requirement, boundary),
{
    match requirement.role {
        ResourceRole::PrefixHistory => {
            let native: u64 = requirement.native_block_tokens;
            let first: u64 = computed_tokens as u64 / native;
            let whole: u64 = boundary as u64 / native;
            let rest: u64 = boundary as u64 % native;
            proof {
                let (b, n) = (boundary as int, native as int);
                assert(b == n * (b / n) + b % n && 0 <= b % n < n && 0 <= b / n <= b)
                    by (nonlinear_arith)
                    requires
                        b >= 0,
                        n > 0,
                ;
                let (q, m) = (b / n, b % n);
                assert((b + n - 1) / n == if m == 0 {
                    q
                } else {
                    q + 1
                }) by {
                    if m == 0 {
                        assert((n * q + n - 1) / n == q) by (nonlinear_arith)
                            requires
                                n > 0,
                        ;
                    } else {
                        assert((n * q + m + n - 1) / n == q + 1) by (nonlinear_arith)
                            requires
                                n > 0,
                                1 <= m < n,
                        ;
                    }
                }
                if m > 0 {
                    assert(q + 1 <= b) by (nonlinear_arith)
                        requires
                            b == n * q + m,
                            n >= 1,
                            m >= 1,
                            q >= 0,
                    ;
                }
                assert(computed_tokens as int / n <= computed_tokens) by (nonlinear_arith)
                    requires
                        n > 0,
                        computed_tokens >= 0,
                ;
            }
            let end: u64 = if rest == 0 {
                whole
            } else {
                whole + 1
            };
            (first as usize, end as usize)
        },
        ResourceRole::BoundaryCapsule => (0, 1),
    }
}

/// Shares the pins from one place up to another.
fn pins_between<H: BlockPin>(pins: &[PinnedBlock<H>], first: usize, end: usize) -> (r: Vec<
    PinnedBlock<H>,
>)
    requires
        first <= end <= pins@.len(),
    ensures
        pins_shared(pins@.subrange(first as int, end as int), r@),
{
    let mut part: Vec<PinnedBlock<H>> = Vec::new();
    let mut at: usize = first;
    while at < end
        invariant
            first <= at <= end <= pins@.len(),
            pins_shared(pins@.subrange(first as int, at as int), part@),
        decreases end - at,
    {
        let ghost done = pins@.subrange(first as int, at as int);
        let ghost listed = part@;
        let pin = pins[at].share();
        part.push(pin);
        at = at + 1;
        proof {
            let more = pins@.subrange(first as int, at as int);
            assert forall|i: int| 0 <= i < more.len() implies (#[trigger] more[i]).shared_as(
                part@[i],
            ) by {
                if i < done.len() {
                    assert(done[i] == more[i]);
                    assert(listed[i] == part@[i]);
                }
            }
        }
    }
    part
}

/// The blocks from one place up to another.
fn ids_between(ids: &[BlockId], first: usize, end: usize) -> (r: Vec<BlockId>)
    requires
        first <= end <= ids@.len(),
    ensures
        r@ == ids@.subrange(first as int, end as int),
{
    let mut part: Vec<BlockId> = Vec::new();
    let mut at: usize = first;
    while at < end
        invariant
            first <= at <= end <= ids@.len(),
            part@ == ids@.subrange(first as int, at as int),
        decreases end - at,
    {
        part.push(ids[at]);
        at = at + 1;
        assert(part@ =~= ids@.subrange(first as int, at as int));
    }
    part
}

/// The places of some pins.
fn ids_of_pins<H>(pins: &[PinnedBlock<H>]) -> (r: Vec<BlockId>)
    ensures
        r@ == pin_ids(pins@),
{
    let mut ids: Vec<BlockId> = Vec::new();
    let mut at: usize = 0;
    while at < pins.len()
        invariant
            at <= pins@.len(),
            ids@ == pin_ids(pins@).subrange(0, at as int),
        decreases pins@.len() - at,
    {
        ids.push(pins[at].block_id);
        at = at + 1;
        assert(ids@ =~= pin_ids(pins@).subrange(0, at as int));
    }
    assert(ids@ =~= pin_ids(pins@));
    ids
}

/// The destinations of some copies, in order.
pub open spec fn all_destinations(resources: Seq<ResourceOnboard>) -> Seq<BlockId>
    decreases resources.len(),
{
    if resources.len() == 0 {
        Seq::empty()
    } else {
        all_destinations(resources.drop_last()) + resources.last()@.destinations
    }
}

/// The blocks that copies fill, in order.
pub fn destination_blocks(resources: &[ResourceOnboard]) -> (r: Vec<BlockId>)
    ensures
        r@ == all_destinations(resources@),
{
    let mut blocks: Vec<BlockId> = Vec::new();
    let mut at: usize = 0;
    assert(resources@.subrange(0, 0) =~= Seq::<ResourceOnboard>::empty());
    while at < resources.len()
        invariant
            at <= resources@.len(),
            blocks@ == all_destinations(resources@.subrange(0, at as int)),
        decreases resources@.len() - at,
    {
        let ghost before = blocks@;
        let destinations = &resources[at].destination_block_ids;
        let mut next: usize = 0;
        assert(before + destinations@.subrange(0, 0) =~= before);
        while next < destinations.len()
            invariant
                next <= destinations@.len(),
                blocks@ == before + destinations@.subrange(0, next as int),
            decreases destinations@.len() - next,
        {
            blocks.push(destinations[next]);
            next = next + 1;
            assert(blocks@ =~= before + destinations@.subrange(0, next as int));
        }
        proof {
            assert(destinations@.subrange(0, next as int) =~= destinations@);
            let more = resources@.subrange(0, at + 1);
            assert(more.drop_last() =~= resources@.subrange(0, at as int));
            assert(more.last() == resources@[at as int]);
        }
        at = at + 1;
    }
    assert(resources@.subrange(0, at as int) =~= resources@);
    blocks
}

/// Starts copies that stand for themselves: checks them and lists what they fill.
pub fn start_resource_onboard(
    resources: &[ResourceOnboard],
    managed: &KeySet<LogicalResourceId>,
) -> (r: Result<Vec<BlockId>, OnboardPlanError>)
    ensures
        match r {
            Ok(blocks) => transfers_checked(resources@, managed@, Ok(())) && blocks@
                == all_destinations(resources@),
            Err(e) => transfers_checked(resources@, managed@, Err(e)),
        },
{
    match validate_resource_transfers(resources, managed) {
        Ok(()) => Ok(destination_blocks(resources)),
        Err(e) => Err(e),
    }
}

/// Opens and starts the transaction that makes a loaded bundle visible.
pub fn start_bundle_onboard<H>(plan: &BundleOnboardPlan, leases: SourceLeases<H>) -> (r: Result<
    (BundleOnboard<Vec<PinnedBlock<H>>>, Vec<BlockId>),
    BundleOnboardError,
>)
    ensures
        match r {
            Ok((transaction, blocks)) => {
                &&& plan.key.compatible(plan.identity@)
                &&& leases@.dom() == plan.identity@.id_set()
                &&& plan.identity@.resources.len() > 0
                &&& transaction@.wf()
                &&& transaction@.key == plan.key
                &&& transaction@.barrier.expected == plan.identity@.id_set()
                &&& transaction@.barrier.pending == plan.identity@.id_set()
                &&& transaction@.barrier.state
                    == crate::bundle::barrier::BarrierState::Transferring
                &&& transaction@.reservations == Some(leases@)
                &&& blocks@ == all_destinations(plan.resources@)
            },
            Err(BundleOnboardError::IncompatibleKey) => !plan.key.compatible(plan.identity@),
            Err(BundleOnboardError::ResourceSetMismatch) => plan.key.compatible(plan.identity@)
                && leases@.dom() != plan.identity@.id_set(),
            Err(e) => {
                &&& plan.key.compatible(plan.identity@)
                &&& leases@.dom() == plan.identity@.id_set()
                &&& plan.identity@.resources.len() == 0
                &&& e == BundleOnboardError::Barrier(
                    crate::bundle::barrier::BarrierError::EmptyResources,
                )
            },
        },
{
    let mut transaction = match BundleOnboard::new(plan.identity.clone(), plan.key, leases) {
        Ok(transaction) => transaction,
        Err(e) => {
            return Err(e);
        },
    };
    transaction.start();
    Ok((transaction, destination_blocks(plan.resources.as_slice())))
}

/// Every copy of a searched plan pairs sources with destinations, block for block.
pub proof fn searched_transfers_pair_up<H>(
    requirement: ResourceRequirement,
    computed_tokens: usize,
    boundary_tokens: usize,
    lease: Map<LogicalResourceId, Vec<PinnedBlock<H>>>,
    destinations: Map<LogicalResourceId, Vec<BlockId>>,
)
    requires
        requirement.native_block_tokens > 0,
        range_fault(requirement, computed_tokens, boundary_tokens, lease, destinations) is None,
    ensures
        ({
            let transfer = planned_transfer(
                requirement,
                computed_tokens,
                boundary_tokens,
                lease,
                destinations,
            );
            transfer.sources.len() > 0 && transfer.sources.len() == transfer.destinations.len()
        }),
{
    assert(first_block(requirement, computed_tokens) >= 0) by (nonlinear_arith)
        requires
            requirement.native_block_tokens > 0,
            requirement.role == ResourceRole::PrefixHistory ==> first_block(
                requirement,
                computed_tokens,
            ) == computed_tokens as int / requirement.native_block_tokens as int,
            requirement.role == ResourceRole::BoundaryCapsule ==> first_block(
                requirement,
                computed_tokens,
            ) == 0,
            requirement.role == ResourceRole::PrefixHistory || requirement.role
                == ResourceRole::BoundaryCapsule,
    ;
}

/// Every copy of a history puts a block at its own place of the request: for each `k` there is one
/// place whose leased block is the `k`-th source and whose block of the request is the `k`-th
/// destination. The places run, in order, from the block that holds the next token to compute up
/// to the one that holds the last token before the boundary, and exactly those leased blocks are
/// kept. A capsule is its one block.
pub proof fn loaded_blocks_keep_their_places<H: BlockPin>(
    identity: IdentityView,
    lease: LeaseView<Vec<PinnedBlock<H>>>,
    computed_tokens: usize,
    destinations: Seq<ResourceDestination>,
    searched: SearchedPlan<H>,
    i: int,
    d: int,
    k: int,
)
    requires
        identity.wf(),
        searched_plan_made(identity, Some(lease), computed_tokens, destinations, Ok(searched)),
        0 <= i < identity.resources.len(),
        0 <= d < destinations.len(),
        destinations[d].resource == identity.resources[i].resource,
        0 <= k < searched.plan.resources@[i].source_block_ids@.len(),
    ensures
        ({
            let resource = identity.resources[i].resource;
            let history = identity.resources[i].role is PrefixHistory;
            let native = identity.resources[i].native_block_tokens as int;
            let held = lease.resources[resource]@;
            let into = destinations[d].block_ids@;
            let copy = searched.plan.resources@[i];
            let kept = searched.leases@[resource]@;
            let place = if history {
                computed_tokens as int / native + k
            } else {
                0
            };
            &&& copy.resource == resource
            &&& 0 <= place < held.len()
            &&& place < into.len()
            &&& k < copy.destination_block_ids@.len()
            &&& k < kept.len()
            &&& copy.source_block_ids@[k] == held[place].block_id
            &&& copy.destination_block_ids@[k] == into[place]
            &&& kept[k].block_id == held[place].block_id
            &&& kept[k].sequence_hash == held[place].sequence_hash
        }),
{
    let requirement = identity.resources[i];
    let boundary = lease.key.boundary_tokens as usize;
    planned_copy(identity, lease, computed_tokens, destinations, searched, i, d);
    let first = first_block(requirement, computed_tokens);
    let pins = loaded_pins(requirement, computed_tokens, boundary, lease.resources);
    let kept = searched.leases@[requirement.resource]@;
    assert(pins[k] == lease.resources[requirement.resource]@[first + k]);
    assert(pins[k].shared_as(kept[k]));
    assert(pin_ids(pins)[k] == pins[k].block_id);
}

/// What is loaded of a history starts with the block that holds the next token to compute and ends
/// with the one that holds the last token before the boundary; of a capsule it is one block. There
/// is a source, a destination and a kept block for each.
pub proof fn loaded_blocks_reach_the_boundary<H: BlockPin>(
    identity: IdentityView,
    lease: LeaseView<Vec<PinnedBlock<H>>>,
    computed_tokens: usize,
    destinations: Seq<ResourceDestination>,
    searched: SearchedPlan<H>,
    i: int,
    d: int,
)
    requires
        identity.wf(),
        searched_plan_made(identity, Some(lease), computed_tokens, destinations, Ok(searched)),
        0 <= i < identity.resources.len(),
        0 <= d < destinations.len(),
        destinations[d].resource == identity.resources[i].resource,
    ensures
        ({
            let native = identity.resources[i].native_block_tokens as int;
            let copy = searched.plan.resources@[i];
            let loaded = copy.source_block_ids@.len() as int;
            let end = computed_tokens as int / native + loaded;
            &&& searched.plan.key == lease.key
            &&& loaded > 0
            &&& copy.destination_block_ids@.len() == loaded
            &&& searched.leases@[identity.resources[i].resource]@.len() == loaded
            &&& identity.resources[i].role is PrefixHistory ==> (end - 1) * native
                < lease.key.boundary_tokens && lease.key.boundary_tokens <= end * native
            &&& identity.resources[i].role is BoundaryCapsule ==> loaded == 1
        }),
{
    let requirement = identity.resources[i];
    let native = requirement.native_block_tokens as int;
    let boundary = lease.key.boundary_tokens as int;
    planned_copy(identity, lease, computed_tokens, destinations, searched, i, d);
    let end = end_block(requirement, lease.key.boundary_tokens as usize);
    if requirement.role is PrefixHistory {
        assert((end - 1) * native < boundary && boundary <= end * native) by (nonlinear_arith)
            requires
                native > 0,
                end == (boundary + native - 1) / native,
        ;
        let loaded = searched.plan.resources@[i].source_block_ids@.len() as int;
        assert(computed_tokens as int / native + loaded == end);
    }
}

proof fn planned_copy<H: BlockPin>(
    identity: IdentityView,
    lease: LeaseView<Vec<PinnedBlock<H>>>,
    computed_tokens: usize,
    destinations: Seq<ResourceDestination>,
    searched: SearchedPlan<H>,
    i: int,
    d: int,
)
    requires
        identity.wf(),
        searched_plan_made(identity, Some(lease), computed_tokens, destinations, Ok(searched)),
        0 <= i < identity.resources.len(),
        0 <= d < destinations.len(),
        destinations[d].resource == identity.resources[i].resource,
    ensures
        ({
            let requirement = identity.resources[i];
            let boundary = lease.key.boundary_tokens as usize;
            let first = first_block(requirement, computed_tokens);
            let end = end_block(requirement, boundary);
            let pins = loaded_pins(requirement, computed_tokens, boundary, lease.resources);
            let copy = searched.plan.resources@[i];
            let kept = searched.leases@[requirement.resource]@;
            &&& boundary == lease.key.boundary_tokens
            &&& requirement.native_block_tokens > 0
            &&& searched.plan.key == lease.key
            &&& 0 <= first < end
            &&& end <= lease.resources[requirement.resource]@.len()
            &&& end <= destinations[d].block_ids@.len()
            &&& copy.resource == requirement.resource
            &&& copy.source_block_ids@ == pin_ids(pins)
            &&& pins.len() == end - first
            &&& copy.destination_block_ids@ == destinations[d].block_ids@.subrange(first, end)
            &&& pins_shared(pins, kept)
        }),
{
    let pairs = destination_pairs(destinations);
    let map = pairs_map(pairs);
    let requirement = identity.resources[i];
    let native = requirement.native_block_tokens as int;
    let boundary = lease.key.boundary_tokens as usize;
    assert(crate::manifest::requirement_fits(requirement, identity.alignment_tokens));
    assert(firsts(pairs).len() == destinations.len());
    crate::ordered::pairs_map_holds_the_pairs(pairs);
    assert(pairs[d] == (destinations[d].resource, destinations[d].block_ids));
    assert(map[pairs[d].0] == pairs[d].1);
    assert(map[requirement.resource] == destinations[d].block_ids);
    assert(range_fault(requirement, computed_tokens, boundary, lease.resources, map) is None);
    assert(computed_tokens as int / native >= 0) by (nonlinear_arith)
        requires
            native > 0,
            computed_tokens >= 0,
    ;
    let planned = planned_transfer(
        requirement,
        computed_tokens,
        boundary,
        lease.resources,
        map,
    );
    let copy = searched.plan.resources@[i];
    assert(copy@ == planned);
    assert(copy@.sources == copy.source_block_ids@);
    assert(copy@.destinations == copy.destination_block_ids@);
}

/// The hashes kept in flight are those of the blocks that are loaded, and no others.
pub proof fn inflight_hashes_are_those_of_the_loaded_blocks<H: BlockPin>(
    identity: IdentityView,
    lease: LeaseView<Vec<PinnedBlock<H>>>,
    computed_tokens: usize,
    destinations: Seq<ResourceDestination>,
    searched: SearchedPlan<H>,
    hash: SequenceHash,
)
    requires
        searched_plan_made(identity, Some(lease), computed_tokens, destinations, Ok(searched)),
    ensures
        searched.inflight_hashes@.contains(hash) <==> exists|i: int, k: int|
            {
                let kept = searched.leases@[identity.resources[i].resource]@;
                0 <= i < identity.resources.len() && 0 <= k < kept.len()
                    && #[trigger] searched.leases@[identity.resources[i].resource]@[k].sequence_hash
                    == hash
            },
{
    assert(firsts(destination_pairs(destinations)).len() == destinations.len());
    loaded_hashes_gather(identity, lease, computed_tokens, searched, identity.resources.len() as int, hash);
}

proof fn loaded_hashes_gather<H: BlockPin>(
    identity: IdentityView,
    lease: LeaseView<Vec<PinnedBlock<H>>>,
    computed_tokens: usize,
    searched: SearchedPlan<H>,
    end: int,
    hash: SequenceHash,
)
    requires
        0 <= end <= identity.resources.len(),
        forall|i: int|
            0 <= i < identity.resources.len() ==> pins_shared(
                loaded_pins(
                    #[trigger] identity.resources[i],
                    computed_tokens,
                    lease.key.boundary_tokens as usize,
                    lease.resources,
                ),
                searched.leases@[identity.resources[i].resource]@,
            ),
    ensures
        loaded_hashes(
            identity.resources,
            computed_tokens,
            lease.key.boundary_tokens as usize,
            lease.resources,
            end,
        ).contains(hash) <==> exists|i: int, k: int|
            {
                let kept = searched.leases@[identity.resources[i].resource]@;
                0 <= i < end && 0 <= k < kept.len()
                    && #[trigger] searched.leases@[identity.resources[i].resource]@[k].sequence_hash
                    == hash
            },
    decreases end,
{
    if end > 0 {
        let boundary = lease.key.boundary_tokens as usize;
        let requirement = identity.resources[end - 1];
        let before = loaded_hashes(
            identity.resources,
            computed_tokens,
            boundary,
            lease.resources,
            end - 1,
        );
        let pins = loaded_pins(requirement, computed_tokens, boundary, lease.resources);
        let kept = searched.leases@[requirement.resource]@;
        let all = before + pin_hashes(pins);
        loaded_hashes_gather(identity, lease, computed_tokens, searched, end - 1, hash);
        assert(pins_shared(pins, kept));
        assert forall|k: int| 0 <= k < pins.len() implies #[trigger] pin_hashes(pins)[k]
            == kept[k].sequence_hash by {
            assert(pins[k].shared_as(kept[k]));
        }
        if all.contains(hash) {
            let at = choose|at: int| 0 <= at < all.len() && all[at] == hash;
            if at < before.len() {
                assert(before[at] == hash);
                assert(before.contains(hash));
            } else {
                assert(pin_hashes(pins)[at - before.len()] == hash);
                assert(searched.leases@[identity.resources[end - 1].resource]@[at
                    - before.len()].sequence_hash == hash);
            }
        }
        if exists|i: int, k: int|
            {
                let kept = searched.leases@[identity.resources[i].resource]@;
                0 <= i < end && 0 <= k < kept.len()
                    && #[trigger] searched.leases@[identity.resources[i].resource]@[k].sequence_hash
                    == hash
            } {
            let (i, k) = choose|i: int, k: int|
                {
                    let kept = searched.leases@[identity.resources[i].resource]@;
                    0 <= i < end && 0 <= k < kept.len()
                        && #[trigger] searched.leases@[identity.resources[i].resource]@[k].sequence_hash
                        == hash
                };
            if i < end - 1 {
                assert(before.contains(hash));
                let at = choose|at: int| 0 <= at < before.len() && before[at] == hash;
                assert(all[at] == hash);
            } else {
                assert(pin_hashes(pins)[k] == hash);
                assert(all[before.len() + k] == hash);
            }
        }
    }
}

/// A load is planned wherever each resource has one destination and both the lease and the request
/// reach up to the boundary, and no load is refused for anything else.
pub proof fn covered_loads_are_planned<H: BlockPin>(
    identity: IdentityView,
    lease: LeaseView<Vec<PinnedBlock<H>>>,
    computed_tokens: usize,
    destinations: Seq<ResourceDestination>,
    r: Result<SearchedPlan<H>, OnboardPlanError>,
)
    requires
        identity.wf(),
        searched_plan_made(identity, Some(lease), computed_tokens, destinations, r),
        lease.key.boundary_tokens <= usize::MAX,
        computed_tokens < lease.key.boundary_tokens,
        destinations.len() == identity.resources.len(),
        forall|i: int|
            0 <= i < destinations.len() ==> (#[trigger] destinations[i]).resource
                == identity.resources[i].resource,
    ensures
        r is Ok <==> forall|i: int|
            0 <= i < identity.resources.len() ==> {
                let native = (#[trigger] identity.resources[i]).native_block_tokens as int;
                let history = identity.resources[i].role is PrefixHistory;
                let resource = identity.resources[i].resource;
                let held = lease.resources[resource]@.len();
                let into = destinations[i].block_ids@.len();
                &&& lease.resources.contains_key(resource)
                &&& history ==> held * native >= lease.key.boundary_tokens && into * native
                    >= lease.key.boundary_tokens
                &&& !history ==> held > 0 && into > 0
            },
{
    let pairs = destination_pairs(destinations);
    let ids = firsts(pairs);
    let map = pairs_map(pairs);
    let boundary = lease.key.boundary_tokens as usize;
    assert(ids =~= identity.ids());
    crate::ordered::ascending_keys_are_distinct(identity.ids());
    crate::ordered::pairs_map_holds_the_pairs(pairs);
    assert forall|i: int| 0 <= i < identity.resources.len() implies ({
        let native = (#[trigger] identity.resources[i]).native_block_tokens as int;
        let history = identity.resources[i].role is PrefixHistory;
        let resource = identity.resources[i].resource;
        let held = lease.resources[resource]@.len();
        let into = destinations[i].block_ids@.len();
        range_fault(
            identity.resources[i],
            computed_tokens,
            boundary,
            lease.resources,
            map,
        ) is None <==> {
            &&& lease.resources.contains_key(resource)
            &&& history ==> held * native >= lease.key.boundary_tokens && into * native
                >= lease.key.boundary_tokens
            &&& !history ==> held > 0 && into > 0
        }
    }) by {
        let requirement = identity.resources[i];
        let native = requirement.native_block_tokens as int;
        let held = lease.resources[requirement.resource]@.len() as int;
        let into = destinations[i].block_ids@.len() as int;
        assert(pairs[i] == (destinations[i].resource, destinations[i].block_ids));
        assert(map[pairs[i].0] == pairs[i].1);
        assert(ids[i] == requirement.resource);
        assert(occurs_before(ids, pairs.len() as int, requirement.resource));
        assert(map.contains_key(requirement.resource));
        if requirement.role is PrefixHistory {
            let first = first_block(requirement, computed_tokens);
            let end = end_block(requirement, boundary);
            assert(first < end) by (nonlinear_arith)
                requires
                    native > 0,
                    computed_tokens < boundary,
                    first == computed_tokens as int / native,
                    end == (boundary + native - 1) / native,
            ;
            assert(held >= end <==> held * native >= boundary) by (nonlinear_arith)
                requires
                    native > 0,
                    end == (boundary + native - 1) / native,
            ;
            assert(into >= end <==> into * native >= boundary) by (nonlinear_arith)
                requires
                    native > 0,
                    end == (boundary + native - 1) / native,
            ;
        }
    }
}

/// The blocks that copies fill are their destinations, one copy after the other.
pub proof fn filled_blocks_are_the_destinations(resources: Seq<ResourceOnboard>, block: BlockId)
    ensures
        all_destinations(resources).contains(block) <==> exists|i: int|
            0 <= i < resources.len() && (#[trigger] resources[i]).destination_block_ids@.contains(
                block,
            ),
    decreases resources.len(),
{
    if resources.len() > 0 {
        let rest = resources.drop_last();
        let before = all_destinations(rest);
        let last = resources.last().destination_block_ids@;
        let all = before + last;
        filled_blocks_are_the_destinations(rest, block);
        if all.contains(block) {
            let at = choose|at: int| 0 <= at < all.len() && all[at] == block;
            if at < before.len() {
                assert(before[at] == block);
                let i = choose|i: int|
                    0 <= i < rest.len() && (#[trigger] rest[i]).destination_block_ids@.contains(
                        block,
                    );
                assert(resources[i].destination_block_ids@.contains(block));
            } else {
                assert(last[at - before.len()] == block);
                assert(resources[resources.len() - 1].destination_block_ids@.contains(block));
            }
        }
        if exists|i: int|
            0 <= i < resources.len() && (#[trigger] resources[i]).destination_block_ids@.contains(
                block,
            ) {
            let i = choose|i: int|
                0 <= i < resources.len()
                    && (#[trigger] resources[i]).destination_block_ids@.contains(block);
            if i < rest.len() {
                assert(rest[i].destination_block_ids@.contains(block));
                let at = choose|at: int| 0 <= at < before.len() && before[at] == block;
                assert(all[at] == block);
            } else {
                let at = choose|at: int| 0 <= at < last.len() && last[at] == block;
                assert(all[before.len() + at] == block);
            }
        }
    }
}

/// Copies are accepted exactly if there is at least one, each is of a resource of its own that a
/// block manager serves, and each pairs at least one source with as many destinations.
pub proof fn accepted_copies_pair_up(
    resources: Seq<ResourceOnboard>,
    managed: Set<LogicalResourceId>,
    r: Result<(), OnboardPlanError>,
)
    requires
        transfers_checked(resources, managed, r),
    ensures
        r is Ok <==> {
            &&& resources.len() > 0
            &&& forall|i: int|
                0 <= i < resources.len() ==> {
                    let copy = #[trigger] resources[i];
                    &&& copy.source_block_ids@.len() > 0
                    &&& copy.source_block_ids@.len() == copy.destination_block_ids@.len()
                    &&& managed.contains(copy.resource)
                }
            &&& forall|i: int, j: int|
                0 <= i < j < resources.len() ==> (#[trigger] resources[i]).resource != (
                #[trigger] resources[j]).resource
        },
{
    let ids = transfer_ids(resources);
    if r is Ok {
        assert forall|i: int| 0 <= i < resources.len() implies ({
            let copy = #[trigger] resources[i];
            &&& copy.source_block_ids@.len() > 0
            &&& copy.source_block_ids@.len() == copy.destination_block_ids@.len()
            &&& managed.contains(copy.resource)
        }) by {
            assert(transfer_fault(resources, managed, i) is None);
        }
        assert forall|i: int, j: int| 0 <= i < j < resources.len() implies (
        #[trigger] resources[i]).resource != (#[trigger] resources[j]).resource by {
            assert(transfer_fault(resources, managed, j) is None);
            assert(ids[i] == resources[i].resource);
        }
    } else if resources.len() > 0 {
        let e = r->Err_0;
        let at = choose|at: int|
            {
                &&& 0 <= at < resources.len()
                &&& #[trigger] transfer_fault(resources, managed, at) == Some(e)
                &&& forall|i: int|
                    0 <= i < at ==> #[trigger] transfer_fault(resources, managed, i) is None
            };
        assert(resources[at].resource == ids[at]);
        if occurs_before(ids, at, ids[at]) {
            let i = choose|i: int| 0 <= i < at && #[trigger] ids[i] == ids[at];
            assert(resources[i].resource == resources[at].resource);
        }
    }
}

/// A copy has its sources in the lease exactly if the lease holds its resource, no earlier copy is
/// of that resource, and its sources are the leased blocks, one for one.
pub proof fn acquired_sources_are_the_leased_blocks<H>(
    lease: Map<LogicalResourceId, Vec<PinnedBlock<H>>>,
    resources: Seq<ResourceOnboard>,
    at: int,
)
    requires
        0 <= at < resources.len(),
    ensures
        source_fault(lease, resources, at) is None <==> {
            let sources = resources[at].source_block_ids@;
            let held = lease[resources[at].resource]@;
            &&& lease.contains_key(resources[at].resource)
            &&& forall|i: int|
                0 <= i < at ==> (#[trigger] resources[i]).resource != resources[at].resource
            &&& sources.len() == held.len()
            &&& forall|k: int|
                0 <= k < sources.len() ==> #[trigger] sources[k] == held[k].block_id
        },
{
    let ids = transfer_ids(resources);
    let resource = resources[at].resource;
    let sources = resources[at].source_block_ids@;
    let held = lease[resource]@;
    if occurs_before(ids, at, resource) {
        let i = choose|i: int| 0 <= i < at && #[trigger] ids[i] == resource;
        assert(resources[i].resource == resource);
    } else {
        assert forall|i: int| 0 <= i < at implies (#[trigger] resources[i]).resource
            != resource by {
            assert(ids[i] == resources[i].resource);
        }
    }
    if pin_ids(held) == sources {
        assert forall|k: int| 0 <= k < sources.len() implies #[trigger] sources[k]
            == held[k].block_id by {
            assert(pin_ids(held)[k] == held[k].block_id);
        }
    }
    if sources.len() == held.len() && forall|k: int|
        0 <= k < sources.len() ==> #[trigger] sources[k] == held[k].block_id {
        assert(pin_ids(held) =~= sources);
    }
}

/// The hashes of acquired sources are those of the leased blocks, and no others.
pub proof fn acquired_hashes_are_the_leased_ones<H>(
    lease: Map<LogicalResourceId, Vec<PinnedBlock<H>>>,
    resources: Seq<ResourceOnboard>,
    end: int,
    hash: SequenceHash,
)
    requires
        0 <= end <= resources.len(),
    ensures
        leased_hashes(lease, resources, end).contains(hash) <==> exists|i: int, k: int|
            0 <= i < end && 0 <= k < lease[resources[i].resource]@.len()
                && #[trigger] lease[resources[i].resource]@[k].sequence_hash == hash,
    decreases end,
{
    if end > 0 {
        acquired_hashes_are_the_leased_ones(lease, resources, end - 1, hash);
        let before = leased_hashes(lease, resources, end - 1);
        let pins = lease[resources[end - 1].resource]@;
        let all = before + pin_hashes(pins);
        if all.contains(hash) {
            let at = choose|at: int| 0 <= at < all.len() && all[at] == hash;
            if at < before.len() {
                assert(before[at] == hash);
                assert(before.contains(hash));
            } else {
                assert(pin_hashes(pins)[at - before.len()] == hash);
                assert(lease[resources[end - 1].resource]@[at - before.len()].sequence_hash
                    == hash);
            }
        }
        if exists|i: int, k: int|
            0 <= i < end && 0 <= k < lease[resources[i].resource]@.len()
                && #[trigger] lease[resources[i].resource]@[k].sequence_hash == hash {
            let (i, k) = choose|i: int, k: int|
                0 <= i < end && 0 <= k < lease[resources[i].resource]@.len()
                    && #[trigger] lease[resources[i].resource]@[k].sequence_hash == hash;
            if i < end - 1 {
                assert(before.contains(hash));
                let at = choose|at: int| 0 <= at < before.len() && before[at] == hash;
                assert(all[at] == hash);
            } else {
                assert(pin_hashes(pins)[k] == hash);
                assert(all[before.len() + k] == hash);
            }
        }
    }
}

} // verus!
