//! Admission defaults from a manifest and the layouts that workers registered for it.

use crate::bundle::admission::{AdmissionConfigView, BundleAdmissionConfig};
use crate::connector::layout::LayoutConfig;
use crate::ids::LogicalResourceId;
use crate::manifest::{CacheIdentity, IdentityView, ResourceRequirement};
use crate::ordered::{occurs_before, KeyMap};
use crate::onboard::plan::occurrence_grows;
use crate::p2p::integrity::ParallelismMode;
use crate::policy::components::ResourceComponentBytes;
use crate::policy::resource::{
    InactiveBackendConfig, PolicyView, ResourcePolicies, ResourcePolicy,
};
use crate::positive::{PositiveU64, PositiveUsize};
use vstd::prelude::*;

verus! {

/// Why admission cannot be planned.
#[derive(Clone, Copy, Debug, PartialEq, Eq, Structural)]
pub enum AdmissionPlanError {
    /// The identity and the layouts do not have the same resources.
    ResourceSets,
    NoWorkers,
    ZeroByteLayout { resource: LogicalResourceId },
    NoParallelism { resource: LogicalResourceId },
}

/// How many components a block has: one for each worker that holds a part of it.
pub open spec fn component_count(mode: ParallelismMode, worker_count: usize) -> usize {
    match mode {
        ParallelismMode::TensorParallel => worker_count,
        ParallelismMode::ReplicatedData => 1,
    }
}

/// What is wrong with the layout of one resource.
pub open spec fn layout_fault(
    resource: LogicalResourceId,
    layouts: Map<LogicalResourceId, LayoutConfig>,
    parallelism: Map<LogicalResourceId, ParallelismMode>,
) -> Option<AdmissionPlanError> {
    if layouts[resource].bytes_per_block == 0 {
        Some(AdmissionPlanError::ZeroByteLayout { resource })
    } else if !parallelism.contains_key(resource) {
        Some(AdmissionPlanError::NoParallelism { resource })
    } else {
        None
    }
}

/// What one resource is admitted by: its role, and one component of its block size per worker that
/// holds a part.
pub open spec fn resource_planned(
    config: AdmissionConfigView,
    requirement: ResourceRequirement,
    layout: LayoutConfig,
    mode: ParallelismMode,
    worker_count: usize,
    inactive: InactiveBackendConfig,
) -> bool {
    let resource = requirement.resource;
    let count = component_count(mode, worker_count);
    &&& config.policies[resource] == (PolicyView {
        role: requirement.role,
        g1_inactive: inactive,
        g2_inactive: inactive,
        atomic_components: count as nat,
        minimum_hits_per_mib: 0,
        minimum_admission_hits_per_mib: 0,
    })
    &&& config.components[resource].len() == count
    &&& forall|i: int|
        0 <= i < count ==> (#[trigger] config.components[resource][i])@ == layout.bytes_per_block
}

/// Whether admission planning can give this.
pub open spec fn admission_planned(
    identity: Option<IdentityView>,
    layouts: Map<LogicalResourceId, LayoutConfig>,
    parallelism: Map<LogicalResourceId, ParallelismMode>,
    worker_count: usize,
    inactive: InactiveBackendConfig,
    r: Result<AdmissionConfigView, AdmissionPlanError>,
) -> bool {
    match identity {
        None => {
            &&& r is Ok
            &&& r->Ok_0.policies == Map::<LogicalResourceId, PolicyView>::empty()
            &&& r->Ok_0.components == Map::<LogicalResourceId, Seq<PositiveU64>>::empty()
        },
        Some(identity) => {
            let requirements = identity.resources;
            if layouts.dom() != identity.id_set() {
                r == Err::<AdmissionConfigView, AdmissionPlanError>(
                    AdmissionPlanError::ResourceSets,
                )
            } else if worker_count == 0 {
                r == Err::<AdmissionConfigView, AdmissionPlanError>(AdmissionPlanError::NoWorkers)
            } else {
                match r {
                    Ok(config) => {
                        &&& config.policies.dom() == identity.id_set()
                        &&& config.components.dom() == identity.id_set()
                        &&& forall|i: int|
                            0 <= i < requirements.len() ==> {
                                let resource = (#[trigger] requirements[i]).resource;
                                &&& layout_fault(resource, layouts, parallelism) is None
                                &&& resource_planned(
                                    config,
                                    requirements[i],
                                    layouts[resource],
                                    parallelism[resource],
                                    worker_count,
                                    inactive,
                                )
                            }
                    },
                    Err(e) => exists|at: int|
                        {
                            &&& 0 <= at < requirements.len()
                            &&& layout_fault(
                                (#[trigger] requirements[at]).resource,
                                layouts,
                                parallelism,
                            ) == Some(e)
                            &&& forall|i: int|
                                0 <= i < at ==> layout_fault(
                                    (#[trigger] requirements[i]).resource,
                                    layouts,
                                    parallelism,
                                ) is None
                        },
                }
            }
        },
    }
}

/// Admission inputs, resolved once.
#[derive(Debug)]
pub struct ResourceAdmissionPlan {
    policies: ResourcePolicies,
    component_bytes: ResourceComponentBytes,
}

impl View for ResourceAdmissionPlan {
    type V = AdmissionConfigView;

    closed spec fn view(&self) -> AdmissionConfigView {
        AdmissionConfigView { policies: self.policies@, components: self.component_bytes@ }
    }
}

/// The content of a plan or an error.
pub open spec fn admission_result(r: Result<ResourceAdmissionPlan, AdmissionPlanError>) -> Result<
    AdmissionConfigView,
    AdmissionPlanError,
> {
    match r {
        Ok(plan) => Ok(plan@),
        Err(e) => Err(e),
    }
}

impl ResourceAdmissionPlan {
    pub fn policies(&self) -> (r: &ResourcePolicies)
        ensures
            r@ == self@.policies,
    {
        &self.policies
    }

    pub fn component_bytes(&self) -> (r: &ResourceComponentBytes)
        ensures
            r@ == self@.components,
    {
        &self.component_bytes
    }

    pub fn into_engine_config(self) -> (r: BundleAdmissionConfig)
        ensures
            r@ == self@,
    {
        BundleAdmissionConfig::new(self.policies, self.component_bytes)
    }

    /// Resolves a policy and component widths for every resource of a manifest.
    pub fn build(
        registered: Option<&CacheIdentity>,
        layouts: &KeyMap<LogicalResourceId, LayoutConfig>,
        parallelism: &KeyMap<LogicalResourceId, ParallelismMode>,
        worker_count: usize,
        inactive: InactiveBackendConfig,
    ) -> (r: Result<Self, AdmissionPlanError>)
        ensures
            admission_planned(
                match registered {
                    Some(identity) => Some(identity@),
                    None => None,
                },
                layouts@,
                parallelism@,
                worker_count,
                inactive,
                admission_result(r),
            ),
    {
        let mut policies = ResourcePolicies::new();
        let mut component_bytes = ResourceComponentBytes::new();
        let identity = match registered {
            Some(identity) => identity,
            None => {
                return Ok(ResourceAdmissionPlan { policies, component_bytes });
            },
        };
        if !crate::bundle::offload::holds_exactly_the_resources(identity, layouts) {
            return Err(AdmissionPlanError::ResourceSets);
        }
        if worker_count == 0 {
            return Err(AdmissionPlanError::NoWorkers);
        }
        let requirements = identity.resources();
        let ghost ids = identity@.ids();
        let mut at: usize = 0;
        while at < requirements.len()
            invariant
                at <= requirements@.len(),
                requirements@ == identity@.resources,
                identity@.wf(),
                ids == identity@.ids(),
                registered is Some && *registered->Some_0 == *identity,
                worker_count > 0,
                layouts@.dom() == identity@.id_set(),
                forall|k: LogicalResourceId| #[trigger]
                    policies@.contains_key(k) <==> occurs_before(ids, at as int, k),
                forall|k: LogicalResourceId| #[trigger]
                    component_bytes@.contains_key(k) <==> occurs_before(ids, at as int, k),
                forall|i: int|
                    0 <= i < at ==> {
                        let resource = (#[trigger] requirements@[i]).resource;
                        &&& layout_fault(resource, layouts@, parallelism@) is None
                        &&& resource_planned(
                            AdmissionConfigView {
                                policies: policies@,
                                components: component_bytes@,
                            },
                            requirements@[i],
                            layouts@[resource],
                            parallelism@[resource],
                            worker_count,
                            inactive,
                        )
                    },
            decreases requirements@.len() - at,
        {
            let requirement = requirements[at];
            let resource = requirement.resource;
            let ghost fault = layout_fault(
                requirements@[at as int].resource,
                layouts@,
                parallelism@,
            );
            proof {
                identity@.requirement_is_listed(at as int);
                crate::ordered::ascending_keys_are_distinct(ids);
                assert(ids[at as int] == resource);
                assert(layouts@.contains_key(resource));
            }
            let layout = *layouts.get(&resource).unwrap();
            let bytes = match PositiveU64::new(layout.bytes_per_block as u64) {
                Some(bytes) => bytes,
                None => {
                    let e = AdmissionPlanError::ZeroByteLayout { resource };
                    assert(fault == Some(e));
                    return Err(e);
                },
            };
            let mode = match parallelism.get(&resource) {
                Some(mode) => *mode,
                None => {
                    let e = AdmissionPlanError::NoParallelism { resource };
                    assert(fault == Some(e));
                    return Err(e);
                },
            };
            assert(fault is None);
            let count: usize = match mode {
                ParallelismMode::TensorParallel => worker_count,
                ParallelismMode::ReplicatedData => 1,
            };
            let components = repeat(bytes, count);
            let policy = ResourcePolicy::new(
                requirement.role,
                inactive,
                inactive,
            ).with_atomic_components(PositiveUsize::new(count).unwrap());
            let ghost policies_before = policies@;
            let ghost components_before = component_bytes@;
            proof {
                assert(!occurs_before(ids, at as int, resource)) by {
                    if occurs_before(ids, at as int, resource) {
                        let i = choose|i: int| 0 <= i < at && #[trigger] ids[i] == resource;
                        assert(ids[i] == ids[at as int]);
                    }
                }
                assert(!policies_before.contains_key(resource));
                assert(!components_before.contains_key(resource));
            }
            let _ = component_bytes.insert(resource, components);
            let _ = policies.insert(resource, policy);
            proof {
                occurrence_grows(ids, at as int);
                assert forall|k: LogicalResourceId| #[trigger]
                    policies@.contains_key(k) <==> occurs_before(ids, at + 1, k) by {
                    assert(policies@.contains_key(k) <==> policies_before.contains_key(k) || k
                        == resource);
                }
                assert forall|k: LogicalResourceId| #[trigger]
                    component_bytes@.contains_key(k) <==> occurs_before(ids, at + 1, k) by {
                    assert(component_bytes@.contains_key(k) <==> components_before.contains_key(k)
                        || k == resource);
                }
                assert forall|i: int| 0 <= i < at implies resource_planned(
                    AdmissionConfigView { policies: policies@, components: component_bytes@ },
                    #[trigger] requirements@[i],
                    layouts@[requirements@[i].resource],
                    parallelism@[requirements@[i].resource],
                    worker_count,
                    inactive,
                ) by {
                    assert(ids[i] == requirements@[i].resource);
                    assert(ids[i] != ids[at as int]);
                }
            }
            at = at + 1;
        }
        proof {
            assert forall|k: LogicalResourceId| ids.to_set().contains(k) <==> occurs_before(
                ids,
                at as int,
                k,
            ) by {
                assert(ids.contains(k) <==> ids.to_set().contains(k));
            }
            assert(policies@.dom() =~= identity@.id_set()) by {
                assert forall|k: LogicalResourceId|
                    policies@.dom().contains(k) <==> identity@.id_set().contains(k) by {
                    assert(policies@.contains_key(k) <==> occurs_before(ids, at as int, k));
                }
            }
            assert(component_bytes@.dom() =~= identity@.id_set()) by {
                assert forall|k: LogicalResourceId|
                    component_bytes@.dom().contains(k) <==> identity@.id_set().contains(k) by {
                    assert(component_bytes@.contains_key(k) <==> occurs_before(ids, at as int, k));
                }
            }
        }
        Ok(ResourceAdmissionPlan { policies, component_bytes })
    }
}

/// One number, several times.
fn repeat(value: PositiveU64, count: usize) -> (r: Vec<PositiveU64>)
    ensures
        r@.len() == count,
        forall|i: int| 0 <= i < count ==> #[trigger] r@[i] == value,
{
    let mut values: Vec<PositiveU64> = Vec::new();
    let mut at: usize = 0;
    while at < count
        invariant
            at <= count,
            values@.len() == at,
            forall|i: int| 0 <= i < at ==> #[trigger] values@[i] == value,
        decreases count - at,
    {
        values.push(value);
        at = at + 1;
    }
    values
}

/// A planned block has one component of its layout's size for each worker that holds a part of it,
/// and none of them is admitted without the others; nothing is asked of its hits.
pub proof fn planned_blocks_have_a_component_per_part(
    identity: IdentityView,
    layouts: Map<LogicalResourceId, LayoutConfig>,
    parallelism: Map<LogicalResourceId, ParallelismMode>,
    worker_count: usize,
    inactive: InactiveBackendConfig,
    config: AdmissionConfigView,
    i: int,
)
    requires
        admission_planned(
            Some(identity),
            layouts,
            parallelism,
            worker_count,
            inactive,
            Ok(config),
        ),
        0 <= i < identity.resources.len(),
    ensures
        ({
            let resource = identity.resources[i].resource;
            let components = config.components[resource];
            &&& layouts.contains_key(resource)
            &&& layouts[resource].bytes_per_block > 0
            &&& parallelism.contains_key(resource)
            &&& parallelism[resource] is TensorParallel ==> components.len() == worker_count
            &&& parallelism[resource] is ReplicatedData ==> components.len() == 1
            &&& config.policies[resource].atomic_components == components.len()
            &&& config.policies[resource].role == identity.resources[i].role
            &&& config.policies[resource].minimum_hits_per_mib == 0
            &&& config.policies[resource].minimum_admission_hits_per_mib == 0
            &&& config.policies[resource].g1_inactive == inactive
            &&& config.policies[resource].g2_inactive == inactive
            &&& crate::policy::resource::total_bytes(components) == components.len()
                * layouts[resource].bytes_per_block
        }),
{
    let resource = identity.resources[i].resource;
    assert(identity.ids()[i] == resource);
    assert(identity.ids().contains(resource));
    assert(layouts.dom().contains(resource));
    equal_parts_add_up(config.components[resource], layouts[resource].bytes_per_block as nat);
}

proof fn equal_parts_add_up(components: Seq<PositiveU64>, bytes: nat)
    requires
        forall|i: int| 0 <= i < components.len() ==> (#[trigger] components[i])@ == bytes,
    ensures
        crate::policy::resource::total_bytes(components) == components.len() * bytes,
    decreases components.len(),
{
    if components.len() > 0 {
        let rest = components.drop_last();
        assert forall|i: int| 0 <= i < rest.len() implies (#[trigger] rest[i])@ == bytes by {
            assert(rest[i] == components[i]);
        }
        equal_parts_add_up(rest, bytes);
        assert(components.last() == components[components.len() - 1]);
        assert(rest.len() * bytes + bytes == (rest.len() + 1) * bytes) by (nonlinear_arith);
    } else {
        assert(components.len() * bytes == 0) by (nonlinear_arith)
            requires
                components.len() == 0,
        ;
    }
}

/// Admission is planned exactly if the layouts are those of the manifest's resources, there is a
/// worker, and every layout has bytes and a known spread.
pub proof fn admission_is_planned_for_sound_layouts(
    identity: IdentityView,
    layouts: Map<LogicalResourceId, LayoutConfig>,
    parallelism: Map<LogicalResourceId, ParallelismMode>,
    worker_count: usize,
    inactive: InactiveBackendConfig,
    r: Result<AdmissionConfigView, AdmissionPlanError>,
)
    requires
        admission_planned(Some(identity), layouts, parallelism, worker_count, inactive, r),
    ensures
        r is Ok <==> {
            &&& layouts.dom() == identity.id_set()
            &&& worker_count > 0
            &&& forall|i: int|
                0 <= i < identity.resources.len() ==> {
                    let resource = (#[trigger] identity.resources[i]).resource;
                    layouts[resource].bytes_per_block > 0 && parallelism.contains_key(resource)
                }
        },
{
    if layouts.dom() == identity.id_set() && worker_count > 0 && r is Ok {
        assert forall|i: int| 0 <= i < identity.resources.len() implies ({
            let resource = (#[trigger] identity.resources[i]).resource;
            layouts[resource].bytes_per_block > 0 && parallelism.contains_key(resource)
        }) by {
            assert(layout_fault(identity.resources[i].resource, layouts, parallelism) is None);
        }
    }
}

} // verus!
