//! Validation of what the workers registered, and what capacity each resource gets.

use crate::connector::layout::{LayoutConfig, ResourceTierConfig, WorkerCacheConfig, WorkerView};
use crate::connector::policy::{admission_planned, AdmissionPlanError, ResourceAdmissionPlan};
use crate::connector::topology::{resolve_parallelism, resolved_mode};
use crate::ids::{CacheManifestId, LogicalResourceId};
use crate::manifest::{CacheIdentity, IdentityView, ResourceRequirement, ResourceRole};
use crate::message::{part_views, MessagePart, PartView};
use crate::onboard::plan::occurrence_grows;
use crate::ordered::{ascending, ascending_keys_are_distinct, occurs_before, KeyMap};
use crate::p2p::integrity::ParallelismMode;
use crate::policy::resource::InactiveBackendConfig;
use vstd::prelude::*;

verus! {

/// Why layouts do not fit a manifest.
#[allow(inconsistent_fields)]
#[derive(Clone, Copy, Debug, PartialEq, Eq, Structural)]
pub enum GeometryError {
    ManifestMismatch,
    /// The identity and the layouts do not have the same resources.
    ResourceSets,
    NoCanonicalHistory,
    PrimaryNotCanonical { primary: LogicalResourceId, canonical: LogicalResourceId },
    /// The block size of the canonical history does not fit.
    CanonicalSizeOverflow { resource: LogicalResourceId },
    NativeSizeOverflow { resource: LogicalResourceId },
    BlockSize { resource: LogicalResourceId, physical: usize, native: usize },
    /// A history's blocks are not runs of canonical blocks.
    NotProjectable { resource: LogicalResourceId, native: usize, canonical: usize },
}

impl GeometryError {
    /// What the error is shown as.
    pub open spec fn parts(self) -> Seq<PartView> {
        match self {
            GeometryError::ManifestMismatch => seq![
                PartView::Text("worker cache manifest id does not match its registered cache identity"@),
            ],
            GeometryError::ResourceSets => seq![
                PartView::Text("cache identity and registered worker layouts have different resource sets"@),
            ],
            GeometryError::NoCanonicalHistory => seq![
                PartView::Text("cache identity has no canonical prefix history"@),
            ],
            GeometryError::PrimaryNotCanonical { primary, canonical } => seq![
                PartView::Text("primary resource "@),
                PartView::Resource(primary),
                PartView::Text(" is not canonical prefix history "@),
                PartView::Resource(canonical),
            ],
            GeometryError::CanonicalSizeOverflow { .. } => seq![
                PartView::Text("canonical prefix history native block size does not fit usize"@),
            ],
            GeometryError::NativeSizeOverflow { .. } => seq![
                PartView::Text("manifest native block size does not fit usize"@),
            ],
            GeometryError::BlockSize { resource, physical, native } => seq![
                PartView::Text("resource "@),
                PartView::Resource(resource),
                PartView::Text(" physical block size "@),
                PartView::Number(physical as int),
                PartView::Text(" does not match manifest native block size "@),
                PartView::Number(native as int),
            ],
            GeometryError::NotProjectable { resource, native, canonical } => seq![
                PartView::Text("prefix history "@),
                PartView::Resource(resource),
                PartView::Text(" native block size "@),
                PartView::Number(native as int),
                PartView::Text(" is not projectable from canonical size "@),
                PartView::Number(canonical as int),
            ],
        }
    }

    /// The message, part by part.
    pub fn message(self) -> (r: Vec<MessagePart>)
        ensures
            part_views(r@) == self.parts(),
    {
        let parts = match self {
            GeometryError::ManifestMismatch => vec![
                MessagePart::Text("worker cache manifest id does not match its registered cache identity"),
            ],
            GeometryError::ResourceSets => vec![
                MessagePart::Text("cache identity and registered worker layouts have different resource sets"),
            ],
            GeometryError::NoCanonicalHistory => vec![
                MessagePart::Text("cache identity has no canonical prefix history"),
            ],
            GeometryError::PrimaryNotCanonical { primary, canonical } => vec![
                MessagePart::Text("primary resource "),
                MessagePart::Resource(primary),
                MessagePart::Text(" is not canonical prefix history "),
                MessagePart::Resource(canonical),
            ],
            GeometryError::CanonicalSizeOverflow { .. } => vec![
                MessagePart::Text("canonical prefix history native block size does not fit usize"),
            ],
            GeometryError::NativeSizeOverflow { .. } => vec![
                MessagePart::Text("manifest native block size does not fit usize"),
            ],
            GeometryError::BlockSize { resource, physical, native } => vec![
                MessagePart::Text("resource "),
                MessagePart::Resource(resource),
                MessagePart::Text(" physical block size "),
                MessagePart::Number(physical),
                MessagePart::Text(" does not match manifest native block size "),
                MessagePart::Number(native),
            ],
            GeometryError::NotProjectable { resource, native, canonical } => vec![
                MessagePart::Text("prefix history "),
                MessagePart::Resource(resource),
                MessagePart::Text(" native block size "),
                MessagePart::Number(native),
                MessagePart::Text(" is not projectable from canonical size "),
                MessagePart::Number(canonical),
            ],
        };
        assert(part_views(parts@) =~= self.parts());
        parts
    }
}

/// What is wrong with the layout of one resource.
pub open spec fn block_size_fault(
    requirement: ResourceRequirement,
    canonical: u64,
    layouts: Map<LogicalResourceId, LayoutConfig>,
) -> Option<GeometryError> {
    let resource = requirement.resource;
    let native = requirement.native_block_tokens;
    if native > usize::MAX {
        Some(GeometryError::NativeSizeOverflow { resource })
    } else if layouts[resource].page_size != native {
        Some(
            GeometryError::BlockSize {
                resource,
                physical: layouts[resource].page_size,
                native: native as usize,
            },
        )
    } else if requirement.role == ResourceRole::PrefixHistory && native as int % canonical as int
        != 0 {
        Some(
            GeometryError::NotProjectable {
                resource,
                native: native as usize,
                canonical: canonical as usize,
            },
        )
    } else {
        None
    }
}

/// Whether holding registered layouts against an identity can give this, where `canonical` is the
/// identity's canonical history.
pub open spec fn geometry_held_to(
    identity: IdentityView,
    worker: WorkerView,
    canonical: ResourceRequirement,
    r: Result<(), GeometryError>,
) -> bool {
    if worker.primary != canonical.resource {
        r == Err::<(), GeometryError>(
            GeometryError::PrimaryNotCanonical {
                primary: worker.primary,
                canonical: canonical.resource,
            },
        )
    } else if canonical.native_block_tokens > usize::MAX {
        r == Err::<(), GeometryError>(
            GeometryError::CanonicalSizeOverflow { resource: canonical.resource },
        )
    } else {
        match r {
            Ok(()) => forall|i: int|
                0 <= i < identity.resources.len() ==> block_size_fault(
                    #[trigger] identity.resources[i],
                    canonical.native_block_tokens,
                    worker.resources,
                ) is None,
            Err(e) => exists|at: int|
                {
                    &&& 0 <= at < identity.resources.len()
                    &&& block_size_fault(
                        #[trigger] identity.resources[at],
                        canonical.native_block_tokens,
                        worker.resources,
                    ) == Some(e)
                    &&& forall|i: int|
                        0 <= i < at ==> block_size_fault(
                            #[trigger] identity.resources[i],
                            canonical.native_block_tokens,
                            worker.resources,
                        ) is None
                },
        }
    }
}

/// Whether holding registered layouts against an identity can give this.
pub open spec fn geometry_checked(
    identity: IdentityView,
    worker: WorkerView,
    r: Result<(), GeometryError>,
) -> bool {
    if worker.manifest != Some(identity.manifest) {
        r == Err::<(), GeometryError>(GeometryError::ManifestMismatch)
    } else if worker.resources.dom() != identity.id_set() {
        r == Err::<(), GeometryError>(GeometryError::ResourceSets)
    } else if !identity.has_history() {
        r == Err::<(), GeometryError>(GeometryError::NoCanonicalHistory)
    } else {
        exists|at: int| #[trigger]
            identity.canonical_at(at) && geometry_held_to(
                identity,
                worker,
                identity.resources[at],
                r,
            )
    }
}

/// Checks that layouts have exactly the manifest's resources and block sizes, and that the primary
/// resource is the canonical history.
pub fn validate_manifest_geometry(identity: &CacheIdentity, config: &WorkerCacheConfig) -> (r:
    Result<(), GeometryError>)
    ensures
        geometry_checked(identity@, config@, r),
{
    let same_manifest = match config.manifest {
        Some(manifest) => manifest == identity.manifest(),
        None => false,
    };
    if !same_manifest {
        return Err(GeometryError::ManifestMismatch);
    }
    if !crate::bundle::offload::holds_exactly_the_resources(identity, &config.resources) {
        return Err(GeometryError::ResourceSets);
    }
    let canonical = match identity.canonical_history() {
        Some(canonical) => canonical,
        None => {
            return Err(GeometryError::NoCanonicalHistory);
        },
    };
    let ghost place = choose|at: int| #[trigger]
        identity@.canonical_at(at) && identity@.resources[at] == canonical;
    assert(identity@.canonical_at(place) && identity@.resources[place] == canonical);
    if config.primary != canonical.resource {
        return Err(
            GeometryError::PrimaryNotCanonical {
                primary: config.primary,
                canonical: canonical.resource,
            },
        );
    }
    let base: u64 = canonical.native_block_tokens;
    if base > usize::MAX as u64 {
        return Err(GeometryError::CanonicalSizeOverflow { resource: canonical.resource });
    }
    let requirements = identity.resources();
    proof {
        assert(crate::manifest::requirement_fits(
            identity@.resources[place],
            identity@.alignment_tokens,
        ));
    }
    let mut at: usize = 0;
    while at < requirements.len()
        invariant
            at <= requirements@.len(),
            requirements@ == identity@.resources,
            identity@.wf(),
            base > 0,
            base <= usize::MAX,
            base == canonical.native_block_tokens,
            config.manifest == Some(identity@.manifest),
            config.resources@.dom() == identity@.id_set(),
            identity@.has_history(),
            config.primary == canonical.resource,
            identity@.canonical_at(place),
            identity@.resources[place] == canonical,
            forall|i: int|
                0 <= i < at ==> block_size_fault(
                    #[trigger] requirements@[i],
                    base,
                    config.resources@,
                ) is None,
        decreases requirements@.len() - at,
    {
        let requirement = requirements[at];
        let resource = requirement.resource;
        let ghost fault = block_size_fault(requirements@[at as int], base, config.resources@);
        proof {
            identity@.requirement_is_listed(at as int);
            assert(config.resources@.contains_key(resource));
        }
        let layout = *config.resources.get(&resource).unwrap();
        let native: u64 = requirement.native_block_tokens;
        if native > usize::MAX as u64 {
            let e = GeometryError::NativeSizeOverflow { resource };
            assert(fault == Some(e));
            return Err(e);
        }
        if layout.page_size as u64 != native {
            let e = GeometryError::BlockSize {
                resource,
                physical: layout.page_size,
                native: native as usize,
            };
            assert(fault == Some(e));
            return Err(e);
        }
        if requirement.role == ResourceRole::PrefixHistory && native % base != 0 {
            let e = GeometryError::NotProjectable {
                resource,
                native: native as usize,
                canonical: base as usize,
            };
            assert(fault == Some(e));
            return Err(e);
        }
        assert(fault is None);
        at = at + 1;
    }
    Ok(())
}

/// The blocks that the configured lower tiers could hold of one resource alone.
#[derive(Clone, Copy, Debug, PartialEq, Eq, Structural)]
pub struct TierCapacity {
    pub host: Option<usize>,
    pub disk: Option<usize>,
}

/// Why a resource gets no share of the lower tiers.
#[derive(Clone, Copy, Debug, PartialEq, Eq, Structural)]
pub enum TierError {
    /// The resource has no device blocks.
    ZeroBlocks { resource: LogicalResourceId },
    /// The lower tiers hold no block of the resource.
    NoCapacity { resource: LogicalResourceId },
}

/// The bytes of one block of a layout, where it has blocks.
pub fn block_bytes(layout: &LayoutConfig) -> (r: Option<usize>)
    ensures
        r is Some <==> layout.num_blocks > 0,
        r is Some ==> r->Some_0 == layout.required_bytes as int / layout.num_blocks as int,
{
    if layout.num_blocks == 0 {
        None
    } else {
        Some(layout.required_bytes / layout.num_blocks)
    }
}

/// The share of the lower tiers that one of several resources gets.
pub open spec fn tier_share(capacity: TierCapacity, resources: int) -> ResourceTierConfig {
    ResourceTierConfig {
        host_block_count: match capacity.host {
            Some(blocks) => (blocks as int / resources) as usize,
            None => 0,
        },
        disk_block_count: match capacity.disk {
            Some(blocks) => Some((blocks as int / resources) as usize),
            None => None,
        },
    }
}

/// The capacity of a resource, none where it is not listed.
pub open spec fn capacity_of(
    capacities: Map<LogicalResourceId, TierCapacity>,
    resource: LogicalResourceId,
) -> TierCapacity {
    if capacities.contains_key(resource) {
        capacities[resource]
    } else {
        TierCapacity { host: None, disk: None }
    }
}

/// What keeps one resource from getting a share.
pub open spec fn tier_fault(
    layouts: Map<LogicalResourceId, LayoutConfig>,
    capacities: Map<LogicalResourceId, TierCapacity>,
    resource: LogicalResourceId,
) -> Option<TierError> {
    let share = tier_share(capacity_of(capacities, resource), layouts.len() as int);
    if layouts[resource].num_blocks == 0 {
        Some(TierError::ZeroBlocks { resource })
    } else if share.host_block_count == 0 && (share.disk_block_count is None
        || share.disk_block_count == Some(0usize)) {
        Some(TierError::NoCapacity { resource })
    } else {
        None
    }
}

/// Whether sharing the lower tiers can give this.
pub open spec fn tiers_shared(
    layouts: Map<LogicalResourceId, LayoutConfig>,
    capacities: Map<LogicalResourceId, TierCapacity>,
    r: Result<Map<LogicalResourceId, ResourceTierConfig>, TierError>,
) -> bool {
    match r {
        Ok(tiers) => {
            &&& tiers.dom() == layouts.dom()
            &&& forall|resource: LogicalResourceId| #[trigger]
                tiers.contains_key(resource) ==> {
                    &&& tier_fault(layouts, capacities, resource) is None
                    &&& tiers[resource] == tier_share(
                        capacity_of(capacities, resource),
                        layouts.len() as int,
                    )
                }
        },
        Err(e) => {
            let resource = match e {
                TierError::ZeroBlocks { resource } => resource,
                TierError::NoCapacity { resource } => resource,
            };
            &&& layouts.contains_key(resource)
            &&& tier_fault(layouts, capacities, resource) == Some(e)
            &&& forall|other: LogicalResourceId| #[trigger]
                layouts.contains_key(other) && other.0 < resource.0 ==> tier_fault(
                    layouts,
                    capacities,
                    other,
                ) is None
        },
    }
}

/// Shares the lower tiers equally among the resources. `capacities` holds, for each resource, what
/// the tiers could hold of blocks of its size.
pub fn resource_tiers(
    layouts: &KeyMap<LogicalResourceId, LayoutConfig>,
    capacities: &KeyMap<LogicalResourceId, TierCapacity>,
) -> (r: Result<KeyMap<LogicalResourceId, ResourceTierConfig>, TierError>)
    ensures
        tiers_shared(
            layouts@,
            capacities@,
            match r {
                Ok(tiers) => Ok(tiers@),
                Err(e) => Err(e),
            },
        ),
{
    let count: usize = layouts.len();
    let ids = layouts.keys();
    let mut tiers: KeyMap<LogicalResourceId, ResourceTierConfig> = KeyMap::new();
    let mut at: usize = 0;
    proof {
        ascending_keys_are_distinct(ids@);
        ids@.unique_seq_to_set();
    }
    while at < ids.len()
        invariant
            at <= ids@.len(),
            count == layouts@.len(),
            count == ids@.len(),
            ascending(ids@),
            ids@.to_set() == layouts@.dom(),
            forall|k: LogicalResourceId| #[trigger]
                tiers@.contains_key(k) <==> occurs_before(ids@, at as int, k),
            forall|k: LogicalResourceId| #[trigger]
                tiers@.contains_key(k) ==> {
                    &&& tier_fault(layouts@, capacities@, k) is None
                    &&& tiers@[k] == tier_share(capacity_of(capacities@, k), count as int)
                },
        decreases ids@.len() - at,
    {
        let resource = ids[at];
        let ghost fault = tier_fault(layouts@, capacities@, resource);
        proof {
            assert(ids@.to_set().contains(resource));
            assert forall|other: LogicalResourceId| #[trigger]
                layouts@.contains_key(other) && other.0 < resource.0 implies tier_fault(
                layouts@,
                capacities@,
                other,
            ) is None by {
                assert(ids@.to_set().contains(other));
                let i = choose|i: int| 0 <= i < ids@.len() && ids@[i] == other;
                if i > at {
                    assert(ids@[at as int].0 < ids@[i].0);
                }
                assert(occurs_before(ids@, at as int, other));
                assert(tiers@.contains_key(other));
            }
        }
        let layout = *layouts.get(&resource).unwrap();
        if block_bytes(&layout).is_none() {
            return Err(TierError::ZeroBlocks { resource });
        }
        let capacity = match capacities.get(&resource) {
            Some(capacity) => *capacity,
            None => TierCapacity { host: None, disk: None },
        };
        proof {
            assert(forall|blocks: usize| 0 <= #[trigger] (blocks as int / count as int) <= blocks)
                by (nonlinear_arith)
                requires
                    count > 0,
            ;
        }
        let host_block_count: usize = match capacity.host {
            Some(blocks) => blocks / count,
            None => 0,
        };
        let disk_block_count: Option<usize> = match capacity.disk {
            Some(blocks) => Some(blocks / count),
            None => None,
        };
        let empty_disk = match disk_block_count {
            Some(blocks) => blocks == 0,
            None => true,
        };
        if host_block_count == 0 && empty_disk {
            return Err(TierError::NoCapacity { resource });
        }
        let share = ResourceTierConfig { host_block_count, disk_block_count };
        assert(fault is None);
        let ghost before = tiers@;
        tiers.insert(resource, share);
        proof {
            occurrence_grows(ids@, at as int);
            assert forall|k: LogicalResourceId| #[trigger]
                tiers@.contains_key(k) <==> occurs_before(ids@, at + 1, k) by {
                assert(tiers@.contains_key(k) <==> before.contains_key(k) || k == resource);
            }
            assert forall|k: LogicalResourceId| #[trigger]
                tiers@.contains_key(k) implies {
                &&& tier_fault(layouts@, capacities@, k) is None
                &&& tiers@[k] == tier_share(capacity_of(capacities@, k), count as int)
            } by {
                if k != resource {
                    assert(before.contains_key(k));
                }
            }
        }
        at = at + 1;
    }
    proof {
        assert forall|k: LogicalResourceId|
            tiers@.dom().contains(k) <==> layouts@.dom().contains(k) by {
            assert(tiers@.contains_key(k) <==> occurs_before(ids@, at as int, k));
            assert(ids@.contains(k) <==> ids@.to_set().contains(k));
        }
        assert(tiers@.dom() =~= layouts@.dom());
    }
    Ok(tiers)
}

/// Why resources cannot be planned.
#[derive(Clone, Copy, Debug, PartialEq, Eq, Structural)]
pub enum ResourcePlanError {
    NoWorkers,
    InvalidWorker { rank: usize, primary: LogicalResourceId },
    ManifestMismatch,
    /// A worker registered something else than the first one.
    LayoutMismatch { rank: usize },
    Geometry(GeometryError),
    Tier(TierError),
    Admission(AdmissionPlanError),
}

/// What every worker agrees on, and what follows from it.
#[derive(Debug)]
pub struct ResourcePlan {
    pub primary: LogicalResourceId,
    pub primary_layout: LayoutConfig,
    pub tiers: KeyMap<LogicalResourceId, ResourceTierConfig>,
    pub parallelism: KeyMap<LogicalResourceId, ParallelismMode>,
    pub admission: ResourceAdmissionPlan,
}

/// What is wrong with a worker after the first.
pub open spec fn worker_fault(workers: Seq<WorkerCacheConfig>, rank: int) -> Option<
    ResourcePlanError,
> {
    if !workers[rank]@.valid() {
        Some(
            ResourcePlanError::InvalidWorker {
                rank: rank as usize,
                primary: workers[rank]@.primary,
            },
        )
    } else if workers[rank]@ != workers[0]@ {
        Some(ResourcePlanError::LayoutMismatch { rank: rank as usize })
    } else {
        None
    }
}

/// Whether the workers agree on a valid registration of the expected manifest; otherwise the first
/// reason why not.
pub open spec fn workers_agree(
    workers: Seq<WorkerCacheConfig>,
    expected_manifest: Option<CacheManifestId>,
    r: Result<(), ResourcePlanError>,
) -> bool {
    if workers.len() == 0 {
        r == Err::<(), ResourcePlanError>(ResourcePlanError::NoWorkers)
    } else if !workers[0]@.valid() {
        r == Err::<(), ResourcePlanError>(
            ResourcePlanError::InvalidWorker { rank: 0, primary: workers[0]@.primary },
        )
    } else if workers[0]@.manifest != expected_manifest {
        r == Err::<(), ResourcePlanError>(ResourcePlanError::ManifestMismatch)
    } else {
        match r {
            Ok(()) => forall|rank: int|
                1 <= rank < workers.len() ==> #[trigger] worker_fault(workers, rank) is None,
            Err(e) => exists|rank: int|
                {
                    &&& 1 <= rank < workers.len()
                    &&& #[trigger] worker_fault(workers, rank) == Some(e)
                    &&& forall|i: int|
                        1 <= i < rank ==> #[trigger] worker_fault(workers, i) is None
                },
        }
    }
}

fn check_workers(workers: &[WorkerCacheConfig], expected_manifest: Option<CacheManifestId>) -> (r:
    Result<(), ResourcePlanError>)
    ensures
        workers_agree(workers@, expected_manifest, r),
{
    if workers.len() == 0 {
        return Err(ResourcePlanError::NoWorkers);
    }
    let first = &workers[0];
    if let Err(e) = first.validate() {
        return Err(ResourcePlanError::InvalidWorker { rank: 0, primary: e.primary });
    }
    if first.manifest != expected_manifest {
        return Err(ResourcePlanError::ManifestMismatch);
    }
    let mut rank: usize = 1;
    while rank < workers.len()
        invariant
            1 <= rank <= workers@.len(),
            workers@[0]@.valid(),
            workers@[0]@.manifest == expected_manifest,
            *first == workers@[0],
            forall|i: int| 1 <= i < rank ==> #[trigger] worker_fault(workers@, i) is None,
        decreases workers@.len() - rank,
    {
        let worker = &workers[rank];
        let ghost fault = worker_fault(workers@, rank as int);
        if let Err(e) = worker.validate() {
            let e = ResourcePlanError::InvalidWorker { rank, primary: e.primary };
            assert(fault == Some(e));
            return Err(e);
        }
        if !worker.same_as(first) {
            let e = ResourcePlanError::LayoutMismatch { rank };
            assert(fault == Some(e));
            return Err(e);
        }
        assert(fault is None);
        rank = rank + 1;
    }
    Ok(())
}

/// The content of an optional identity.
pub open spec fn identity_view(identity: Option<&CacheIdentity>) -> Option<IdentityView> {
    match identity {
        Some(identity) => Some(identity@),
        None => None,
    }
}

/// How every resource is spread over the workers.
fn resolve_all(
    layouts: &KeyMap<LogicalResourceId, LayoutConfig>,
    configured: ParallelismMode,
) -> (r: KeyMap<LogicalResourceId, ParallelismMode>)
    ensures
        r@ == modes_of(layouts@, configured),
{
    let ids = layouts.keys();
    let mut modes: KeyMap<LogicalResourceId, ParallelismMode> = KeyMap::new();
    let mut at: usize = 0;
    while at < ids.len()
        invariant
            at <= ids@.len(),
            ids@.to_set() == layouts@.dom(),
            forall|k: LogicalResourceId| #[trigger]
                modes@.contains_key(k) <==> occurs_before(ids@, at as int, k),
            forall|k: LogicalResourceId| #[trigger]
                modes@.contains_key(k) ==> modes@[k] == resolved_mode(configured, layouts@[k]),
        decreases ids@.len() - at,
    {
        let resource = ids[at];
        let ghost before = modes@;
        assert(ids@.to_set().contains(resource));
        let layout = *layouts.get(&resource).unwrap();
        modes.insert(resource, resolve_parallelism(configured, &layout));
        proof {
            occurrence_grows(ids@, at as int);
            assert forall|k: LogicalResourceId| #[trigger]
                modes@.contains_key(k) <==> occurs_before(ids@, at + 1, k) by {
                assert(modes@.contains_key(k) <==> before.contains_key(k) || k == resource);
            }
            assert forall|k: LogicalResourceId| #[trigger]
                modes@.contains_key(k) implies modes@[k] == resolved_mode(
                configured,
                layouts@[k],
            ) by {
                if k != resource {
                    assert(before.contains_key(k));
                }
            }
        }
        at = at + 1;
    }
    proof {
        assert forall|k: LogicalResourceId|
            modes@.dom().contains(k) <==> layouts@.dom().contains(k) by {
            assert(modes@.contains_key(k) <==> occurs_before(ids@, at as int, k));
            assert(ids@.contains(k) <==> ids@.to_set().contains(k));
        }
        assert(modes@ =~= modes_of(layouts@, configured));
    }
    modes
}

/// How every resource is spread over the workers.
pub open spec fn modes_of(
    layouts: Map<LogicalResourceId, LayoutConfig>,
    configured: ParallelismMode,
) -> Map<LogicalResourceId, ParallelismMode> {
    layouts.map_values(|layout: LayoutConfig| resolved_mode(configured, layout))
}

impl ResourcePlan {
    /// Plans the resources of workers that all registered the same, valid layouts.
    pub fn build(
        workers: &[WorkerCacheConfig],
        expected_manifest: Option<CacheManifestId>,
        identity: Option<&CacheIdentity>,
        configured: ParallelismMode,
        capacities: &KeyMap<LogicalResourceId, TierCapacity>,
        inactive: InactiveBackendConfig,
    ) -> (r: Result<Self, ResourcePlanError>)
        ensures
            ({
                let layouts = workers@[0]@.resources;
                let modes = modes_of(layouts, configured);
                let fits = identity is Some ==> geometry_checked(
                    identity->Some_0@,
                    workers@[0]@,
                    Ok(()),
                );
                match r {
                    Ok(plan) => {
                        &&& workers_agree(workers@, expected_manifest, Ok(()))
                        &&& fits
                        &&& plan.primary == workers@[0]@.primary
                        &&& plan.primary_layout == layouts[plan.primary]
                        &&& tiers_shared(layouts, capacities@, Ok(plan.tiers@))
                        &&& plan.parallelism@ == modes
                        &&& admission_planned(
                            identity_view(identity),
                            layouts,
                            modes,
                            workers@.len() as usize,
                            inactive,
                            Ok(plan.admission@),
                        )
                    },
                    Err(ResourcePlanError::Geometry(e)) => {
                        &&& workers_agree(workers@, expected_manifest, Ok(()))
                        &&& identity is Some
                        &&& geometry_checked(identity->Some_0@, workers@[0]@, Err(e))
                    },
                    Err(ResourcePlanError::Tier(e)) => {
                        &&& workers_agree(workers@, expected_manifest, Ok(()))
                        &&& fits
                        &&& tiers_shared(layouts, capacities@, Err(e))
                    },
                    Err(ResourcePlanError::Admission(e)) => {
                        &&& workers_agree(workers@, expected_manifest, Ok(()))
                        &&& fits
                        &&& admission_planned(
                            identity_view(identity),
                            layouts,
                            modes,
                            workers@.len() as usize,
                            inactive,
                            Err(e),
                        )
                    },
                    Err(e) => workers_agree(workers@, expected_manifest, Err(e)),
                }
            }),
    {
        if let Err(e) = check_workers(workers, expected_manifest) {
            return Err(e);
        }
        let config = &workers[0];
        if let Some(identity) = identity {
            if let Err(e) = validate_manifest_geometry(identity, config) {
                return Err(ResourcePlanError::Geometry(e));
            }
        }
        let primary = config.primary;
        let primary_layout = *config.resources.get(&primary).unwrap();
        let tiers = match resource_tiers(&config.resources, capacities) {
            Ok(tiers) => tiers,
            Err(e) => {
                return Err(ResourcePlanError::Tier(e));
            },
        };
        let parallelism = resolve_all(&config.resources, configured);
        let admission = match ResourceAdmissionPlan::build(
            identity,
            &config.resources,
            &parallelism,
            workers.len(),
            inactive,
        ) {
            Ok(admission) => admission,
            Err(e) => {
                return Err(ResourcePlanError::Admission(e));
            },
        };
        Ok(ResourcePlan { primary, primary_layout, tiers, parallelism, admission })
    }
}

/// Layouts fit a manifest exactly if they are registered for it and for its resources, the primary
/// one is the history with the smallest blocks, every layout has its resource's native block size,
/// and the blocks of every history are runs of those of the primary one.
pub proof fn fitting_layouts_have_native_blocks(
    identity: IdentityView,
    worker: WorkerView,
    r: Result<(), GeometryError>,
    at: int,
)
    requires
        geometry_checked(identity, worker, r),
        identity.canonical_at(at),
        forall|i: int|
            0 <= i < identity.resources.len() ==> (
            #[trigger] identity.resources[i]).native_block_tokens <= usize::MAX,
    ensures
        r is Ok <==> {
            &&& worker.manifest == Some(identity.manifest)
            &&& worker.resources.dom() == identity.id_set()
            &&& worker.primary == identity.resources[at].resource
            &&& forall|i: int|
                0 <= i < identity.resources.len() ==> {
                    let requirement = #[trigger] identity.resources[i];
                    &&& worker.resources[requirement.resource].page_size
                        == requirement.native_block_tokens
                    &&& requirement.role is PrefixHistory ==> requirement.native_block_tokens as int
                        % identity.resources[at].native_block_tokens as int == 0
                }
        },
{
    let canonical = identity.resources[at];
    if worker.manifest == Some(identity.manifest) && worker.resources.dom() == identity.id_set() {
        assert(identity.has_history());
        let found = choose|found: int| #[trigger]
            identity.canonical_at(found) && geometry_held_to(
                identity,
                worker,
                identity.resources[found],
                r,
            );
        crate::manifest::the_canonical_history_has_the_smallest_blocks(identity, at, found);
        assert(found == at);
        if r is Ok && worker.primary == canonical.resource {
            assert forall|i: int| 0 <= i < identity.resources.len() implies ({
                let requirement = #[trigger] identity.resources[i];
                &&& worker.resources[requirement.resource].page_size
                    == requirement.native_block_tokens
                &&& requirement.role is PrefixHistory ==> requirement.native_block_tokens as int
                    % canonical.native_block_tokens as int == 0
            }) by {
                assert(block_size_fault(
                    identity.resources[i],
                    canonical.native_block_tokens,
                    worker.resources,
                ) is None);
            }
        }
    }
}

/// A resource's share of a tier is the largest number of blocks that all resources could have of
/// what the tier holds; a tier that is not there gives none.
pub proof fn shares_fit_the_tier(capacity: TierCapacity, resources: int)
    requires
        resources > 0,
    ensures
        ({
            let share = tier_share(capacity, resources);
            &&& capacity.host is None ==> share.host_block_count == 0
            &&& capacity.host is Some ==> share.host_block_count * resources
                <= capacity.host->Some_0 < (share.host_block_count + 1) * resources
            &&& capacity.disk is None <==> share.disk_block_count is None
            &&& capacity.disk is Some ==> share.disk_block_count->Some_0 * resources
                <= capacity.disk->Some_0 < (share.disk_block_count->Some_0 + 1) * resources
        }),
{
    if capacity.host is Some {
        whole_share(capacity.host->Some_0 as int, resources);
    }
    if capacity.disk is Some {
        whole_share(capacity.disk->Some_0 as int, resources);
    }
}

proof fn whole_share(blocks: int, resources: int)
    requires
        blocks >= 0,
        resources > 0,
    ensures
        0 <= blocks / resources <= blocks,
        blocks / resources * resources <= blocks < (blocks / resources + 1) * resources,
{
    assert(0 <= blocks / resources <= blocks) by (nonlinear_arith)
        requires
            blocks >= 0,
            resources > 0,
    ;
    assert(blocks / resources * resources <= blocks < (blocks / resources + 1) * resources)
        by (nonlinear_arith)
        requires
            blocks >= 0,
            resources > 0,
    ;
}

/// Sharing succeeds exactly if every resource has device blocks and gets at least one block of a
/// lower tier.
pub proof fn every_resource_gets_a_share(
    layouts: Map<LogicalResourceId, LayoutConfig>,
    capacities: Map<LogicalResourceId, TierCapacity>,
    r: Result<Map<LogicalResourceId, ResourceTierConfig>, TierError>,
)
    requires
        tiers_shared(layouts, capacities, r),
        layouts.len() > 0,
    ensures
        r is Ok <==> forall|resource: LogicalResourceId| #[trigger]
            layouts.contains_key(resource) ==> {
                let n = layouts.len();
                &&& layouts[resource].num_blocks > 0
                &&& capacities.contains_key(resource)
                &&& capacities[resource].host is Some && capacities[resource].host->Some_0 >= n
                    || capacities[resource].disk is Some && capacities[resource].disk->Some_0 >= n
            },
{
    let n = layouts.len() as int;
    assert forall|resource: LogicalResourceId| #[trigger] layouts.contains_key(resource) implies (
    tier_fault(layouts, capacities, resource) is None <==> {
        &&& layouts[resource].num_blocks > 0
        &&& capacities.contains_key(resource)
        &&& capacities[resource].host is Some && capacities[resource].host->Some_0 >= n
            || capacities[resource].disk is Some && capacities[resource].disk->Some_0 >= n
    }) by {
        let capacity = capacity_of(capacities, resource);
        if capacity.host is Some {
            share_is_none_below(capacity.host->Some_0 as int, n);
        }
        if capacity.disk is Some {
            share_is_none_below(capacity.disk->Some_0 as int, n);
        }
    }
    if r is Ok {
        let tiers = r->Ok_0;
        assert forall|resource: LogicalResourceId| #[trigger] layouts.contains_key(resource) implies tier_fault(
            layouts,
            capacities,
            resource,
        ) is None by {
            assert(tiers.dom().contains(resource));
            assert(tiers.contains_key(resource));
        }
    }
}

proof fn share_is_none_below(blocks: int, resources: int)
    requires
        0 <= blocks <= usize::MAX,
        resources > 0,
    ensures
        blocks / resources == 0 <==> blocks < resources,
        0 <= blocks / resources <= usize::MAX,
{
    whole_share(blocks, resources);
    assert(blocks / resources == 0 <==> blocks < resources) by (nonlinear_arith)
        requires
            blocks / resources * resources <= blocks < (blocks / resources + 1) * resources,
            0 <= blocks / resources,
            resources > 0,
    ;
}

/// Workers agree exactly if there is one, all of them registered the same with their primary
/// resource among it, and it is for the expected manifest.
pub proof fn agreeing_workers_registered_the_same(
    workers: Seq<WorkerCacheConfig>,
    expected_manifest: Option<CacheManifestId>,
    r: Result<(), ResourcePlanError>,
)
    requires
        workers_agree(workers, expected_manifest, r),
    ensures
        r is Ok <==> {
            &&& workers.len() > 0
            &&& workers[0]@.manifest == expected_manifest
            &&& workers[0]@.resources.contains_key(workers[0]@.primary)
            &&& forall|rank: int|
                1 <= rank < workers.len() ==> (#[trigger] workers[rank])@ == workers[0]@
        },
{
    if workers.len() > 0 {
        assert forall|rank: int| 1 <= rank < workers.len() && workers[0]@.valid() implies (
        #[trigger] worker_fault(workers, rank) is None <==> workers[rank]@ == workers[0]@) by {
        }
        if r is Ok {
            assert forall|rank: int| 1 <= rank < workers.len() implies (#[trigger] workers[rank])@
                == workers[0]@ by {
                assert(worker_fault(workers, rank) is None);
            }
        }
    }
}

/// Every resource is spread as configured, but for those whose layout has no heads, which are
/// replicated.
pub proof fn every_resource_has_a_spread(
    layouts: Map<LogicalResourceId, LayoutConfig>,
    configured: ParallelismMode,
    resource: LogicalResourceId,
)
    ensures
        ({
            let modes = modes_of(layouts, configured);
            &&& modes.contains_key(resource) <==> layouts.contains_key(resource)
            &&& layouts.contains_key(resource) && layouts[resource].num_heads is None
                ==> modes[resource] is ReplicatedData
            &&& layouts.contains_key(resource) && layouts[resource].num_heads is Some
                ==> modes[resource] == configured
        }),
{
}

/// A layout is refused with the numbers that do not fit: its own block size beside the manifest's,
/// or the manifest's beside the canonical one.
pub proof fn layouts_are_refused_with_their_sizes(
    requirement: ResourceRequirement,
    canonical: u64,
    layouts: Map<LogicalResourceId, LayoutConfig>,
)
    requires
        requirement.native_block_tokens <= usize::MAX,
        canonical <= usize::MAX,
    ensures
        match block_size_fault(requirement, canonical, layouts) {
            Some(GeometryError::BlockSize { resource, physical, native }) => {
                &&& resource == requirement.resource
                &&& physical == layouts[resource].page_size
                &&& native == requirement.native_block_tokens
                &&& physical != native
            },
            Some(GeometryError::NotProjectable { resource, native, canonical: base }) => {
                &&& resource == requirement.resource
                &&& requirement.role is PrefixHistory
                &&& native == requirement.native_block_tokens
                &&& base == canonical
                &&& native as int % base as int != 0
            },
            Some(_) => false,
            None => layouts[requirement.resource].page_size == requirement.native_block_tokens,
        },
{
}

} // verus!
