//! The admission gate for complete bundles: every resource is judged before anything is started.

use crate::bundle::offload::OffloadMode;
use crate::ids::{BlockId, BundleKey, LogicalResourceId, ResourceBlock, SequenceHash};
use crate::manifest::{CacheIdentity, IdentityView, ResourceRequirement, ResourceRole};
use crate::ordered::{
    ascending, distinct_up_to, first_repeat, firsts, pairs_map, pairs_map_holds_the_pairs, KeyMap,
    KeySet, MapKey,
};
use crate::policy::components::ResourceComponentBytes;
use crate::policy::resource::{
    total_bytes, AdmissionInputError, AdmissionScoreInputs, PolicyView, ResourcePolicies,
    RetentionDecision, RetentionReason,
};
use crate::positive::PositiveU64;
use vstd::prelude::*;

verus! {

/// The blocks of one resource that a bundle offloads.
#[derive(Debug)]
pub struct ResourceOffload {
    pub resource: LogicalResourceId,
    pub blocks: Vec<(SequenceHash, BlockId)>,
}

/// Everything that one bundle offloads.
#[derive(Debug)]
pub struct BundleOffloadPlan {
    pub identity: CacheIdentity,
    pub key: BundleKey,
    pub generation: u64,
    pub mode: OffloadMode,
    pub resources: Vec<ResourceOffload>,
}

/// The resources of a list of offloads.
pub open spec fn offload_ids(resources: Seq<ResourceOffload>) -> Seq<LogicalResourceId> {
    Seq::new(resources.len(), |i: int| resources[i].resource)
}

/// Which part of the configuration does not cover exactly the bundle's resources.
#[derive(Clone, Copy, Debug, PartialEq, Eq, Structural)]
pub enum AdmissionSource {
    BundlePlan,
    ResourcePolicy,
    ComponentBytes,
}

/// Why a resource is kept out.
#[derive(Clone, Copy, Debug, PartialEq, Eq, Structural)]
pub enum AdmissionReason {
    DuplicateResource,
    MissingConfig(AdmissionSource),
    UnexpectedConfig(AdmissionSource),
    RoleMismatch { policy: ResourceRole, manifest: ResourceRole },
    EmptyResource,
    MissingManager,
    ByteOverflow,
    InvalidInput(AdmissionInputError),
    /// The policy dropped the resource.
    Dropped { reason: RetentionReason, bytes: u64 },
}

impl AdmissionReason {
    pub open spec fn text(self) -> Seq<char> {
        match self {
            AdmissionReason::DuplicateResource => "duplicate_resource"@,
            AdmissionReason::MissingConfig(_) => "missing_config"@,
            AdmissionReason::UnexpectedConfig(_) => "unexpected_config"@,
            AdmissionReason::RoleMismatch { .. } => "role_mismatch"@,
            AdmissionReason::EmptyResource => "empty_resource"@,
            AdmissionReason::MissingManager => "missing_manager"@,
            AdmissionReason::ByteOverflow => "byte_overflow"@,
            AdmissionReason::InvalidInput(_) => "invalid_input"@,
            AdmissionReason::Dropped { reason, .. } => reason.text(),
        }
    }

    /// The label under which the rejection is counted.
    pub fn label(self) -> (r: &'static str)
        ensures
            r@ == self.text(),
    {
        match self {
            AdmissionReason::DuplicateResource => "duplicate_resource",
            AdmissionReason::MissingConfig(_) => "missing_config",
            AdmissionReason::UnexpectedConfig(_) => "unexpected_config",
            AdmissionReason::RoleMismatch { .. } => "role_mismatch",
            AdmissionReason::EmptyResource => "empty_resource",
            AdmissionReason::MissingManager => "missing_manager",
            AdmissionReason::ByteOverflow => "byte_overflow",
            AdmissionReason::InvalidInput(_) => "invalid_input",
            AdmissionReason::Dropped { reason, .. } => crate::policy::resource::reason_label(
                reason,
            ),
        }
    }
}

/// The resource that keeps a bundle out, and why.
#[derive(Clone, Copy, Debug, PartialEq, Eq, Structural)]
pub struct AdmissionRejection {
    pub resource: LogicalResourceId,
    pub reason: AdmissionReason,
}

/// What admission is configured with.
#[derive(Debug)]
pub struct BundleAdmissionConfig {
    policies: ResourcePolicies,
    component_bytes: ResourceComponentBytes,
}

/// The mathematical content of a [`BundleAdmissionConfig`].
pub struct AdmissionConfigView {
    pub policies: Map<LogicalResourceId, PolicyView>,
    pub components: Map<LogicalResourceId, Seq<PositiveU64>>,
}

impl View for BundleAdmissionConfig {
    type V = AdmissionConfigView;

    closed spec fn view(&self) -> AdmissionConfigView {
        AdmissionConfigView { policies: self.policies@, components: self.component_bytes@ }
    }
}

/// The bytes of some blocks of a resource, where they fit.
pub open spec fn bytes_of(components: Seq<PositiveU64>, blocks: usize) -> Option<u64> {
    if total_bytes(components) <= u64::MAX && total_bytes(components) * blocks <= u64::MAX {
        Some((total_bytes(components) * blocks) as u64)
    } else {
        None
    }
}

/// The smallest number of hits among some blocks, `start` where there are none.
pub open spec fn least_hits(
    resource: LogicalResourceId,
    blocks: Seq<(SequenceHash, BlockId)>,
    hits: Map<ResourceBlock, u64>,
    start: u64,
) -> u64
    decreases blocks.len(),
{
    if blocks.len() == 0 {
        start
    } else {
        let before = least_hits(resource, blocks.drop_last(), hits, start);
        let block = ResourceBlock { resource, hash: blocks.last().0 };
        let count = if hits.contains_key(block) {
            hits[block]
        } else {
            0
        };
        if count < before {
            count
        } else {
            before
        }
    }
}

/// Some component widths, each for so many blocks.
pub open spec fn scaled(components: Seq<PositiveU64>, blocks: int, of: Seq<PositiveU64>) -> bool {
    &&& of.len() == components.len()
    &&& forall|i: int| 0 <= i < of.len() ==> (#[trigger] of[i])@ == components[i]@ * blocks
}

/// Whether some component of so many blocks is too large for its counter.
pub open spec fn component_overflows(components: Seq<PositiveU64>, blocks: int) -> bool {
    exists|i: int|
        0 <= i < components.len() && (#[trigger] components[i])@ * blocks > u64::MAX
}

/// The bytes of some components, each for so many blocks, together.
pub open spec fn scaled_total(components: Seq<PositiveU64>, blocks: int) -> int
    decreases components.len(),
{
    if components.len() == 0 {
        0
    } else {
        scaled_total(components.drop_last(), blocks) + components.last()@ * blocks
    }
}

proof fn scaled_totals_agree(components: Seq<PositiveU64>, blocks: int, of: Seq<PositiveU64>)
    requires
        scaled(components, blocks, of),
    ensures
        total_bytes(of) == scaled_total(components, blocks),
    decreases components.len(),
{
    if components.len() > 0 {
        let c = components.drop_last();
        let o = of.drop_last();
        assert forall|i: int| 0 <= i < o.len() implies (#[trigger] o[i])@ == c[i]@ * blocks by {
            assert(of[i]@ == components[i]@ * blocks);
        }
        scaled_totals_agree(c, blocks, o);
        assert(of[of.len() - 1]@ == components[of.len() - 1]@ * blocks);
    }
}

/// What becomes of one resource of a bundle: the bytes it is admitted with, or why it is not.
pub open spec fn resource_verdict(
    policy: PolicyView,
    components: Seq<PositiveU64>,
    requirement: ResourceRequirement,
    blocks: Seq<(SequenceHash, BlockId)>,
    managed: bool,
    hits: Map<ResourceBlock, u64>,
    history_dependency_present: bool,
) -> Result<u64, AdmissionReason> {
    let n = blocks.len() as int;
    let least = least_hits(requirement.resource, blocks, hits, u64::MAX);
    let total = scaled_total(components, n);
    let enough = least * crate::policy::score::MIB >= policy.minimum_admission_hits_per_mib * total;
    if policy.role != requirement.role {
        Err(AdmissionReason::RoleMismatch { policy: policy.role, manifest: requirement.role })
    } else if n == 0 {
        Err(AdmissionReason::EmptyResource)
    } else if !managed {
        Err(AdmissionReason::MissingManager)
    } else if component_overflows(components, n) {
        Err(AdmissionReason::ByteOverflow)
    } else if components.len() == 0 {
        Err(AdmissionReason::InvalidInput(AdmissionInputError::NoComponents))
    } else if total > u64::MAX {
        Err(AdmissionReason::InvalidInput(AdmissionInputError::ByteCountOverflow))
    } else if components.len() != policy.atomic_components {
        Err(
            AdmissionReason::Dropped {
                reason: RetentionReason::IncompleteAtomicResource,
                bytes: total as u64,
            },
        )
    } else if policy.role == ResourceRole::BoundaryCapsule && !history_dependency_present {
        Err(
            AdmissionReason::Dropped {
                reason: RetentionReason::MissingHistoryDependency,
                bytes: total as u64,
            },
        )
    } else if !enough {
        Err(
            AdmissionReason::Dropped {
                reason: RetentionReason::BelowByteNormalizedThreshold,
                bytes: total as u64,
            },
        )
    } else {
        Ok(total as u64)
    }
}

/// The blocks of a resource in a list of offloads with distinct resources.
pub open spec fn blocks_for(
    resources: Seq<ResourceOffload>,
    resource: LogicalResourceId,
) -> Seq<(SequenceHash, BlockId)> {
    resources[choose|i: int|
        0 <= i < resources.len() && resources[i].resource == resource].blocks@
}

/// What becomes of one resource of a planned bundle.
pub open spec fn planned_verdict(
    config: AdmissionConfigView,
    identity: IdentityView,
    resources: Seq<ResourceOffload>,
    managed: Set<LogicalResourceId>,
    hits: Map<ResourceBlock, u64>,
    requirement: ResourceRequirement,
) -> Result<u64, AdmissionReason> {
    let resource = requirement.resource;
    resource_verdict(
        config.policies[resource],
        config.components[resource],
        requirement,
        blocks_for(resources, resource),
        managed.contains(resource),
        hits,
        requirement.role == ResourceRole::PrefixHistory || identity.has_history(),
    )
}

/// The order in which resources are judged: histories before the capsules that depend on them.
pub open spec fn judging_order(identity: IdentityView) -> Seq<ResourceRequirement> {
    identity.resources.filter(|r: ResourceRequirement| r.role == ResourceRole::PrefixHistory)
        + identity.resources.filter(
        |r: ResourceRequirement| r.role == ResourceRole::BoundaryCapsule,
    )
}

/// `resource` is the smallest one of `a` that `b` lacks.
pub open spec fn smallest_beyond(
    a: Set<LogicalResourceId>,
    b: Set<LogicalResourceId>,
    resource: LogicalResourceId,
) -> bool {
    &&& a.contains(resource)
    &&& !b.contains(resource)
    &&& forall|other: LogicalResourceId| #[trigger]
        a.contains(other) && !b.contains(other) ==> resource == other || resource.before(other)
}

/// Why a set of configured resources is not exactly the expected one.
pub open spec fn coverage_fault(
    expected: Set<LogicalResourceId>,
    actual: Set<LogicalResourceId>,
    source: AdmissionSource,
    rejection: AdmissionRejection,
) -> bool {
    if expected.subset_of(actual) {
        &&& smallest_beyond(actual, expected, rejection.resource)
        &&& rejection.reason == AdmissionReason::UnexpectedConfig(source)
    } else {
        &&& smallest_beyond(expected, actual, rejection.resource)
        &&& rejection.reason == AdmissionReason::MissingConfig(source)
    }
}

/// What admission says of a bundle: the resources that were admitted, in the order in which they
/// were considered, each with its bytes, and the rejection that stopped it.
#[derive(Debug, PartialEq, Eq)]
pub struct BundleAdmission {
    pub admitted: Vec<(LogicalResourceId, u64)>,
    pub rejection: Option<AdmissionRejection>,
}

/// Whether the resources up to a place in the order of judging are admitted with these bytes.
pub open spec fn admitted_up_to(
    config: AdmissionConfigView,
    identity: IdentityView,
    resources: Seq<ResourceOffload>,
    managed: Set<LogicalResourceId>,
    hits: Map<ResourceBlock, u64>,
    end: int,
    admitted: Seq<(LogicalResourceId, u64)>,
) -> bool {
    &&& admitted.len() == end
    &&& forall|i: int|
        0 <= i < end ==> {
            let requirement = judging_order(identity)[i];
            &&& (#[trigger] admitted[i]).0 == requirement.resource
            &&& planned_verdict(config, identity, resources, managed, hits, requirement) == Ok::<
                u64,
                AdmissionReason,
            >(admitted[i].1)
        }
}

impl BundleAdmissionConfig {
    pub fn new(policies: ResourcePolicies, component_bytes: ResourceComponentBytes) -> (r: Self)
        ensures
            r@ == (AdmissionConfigView {
                policies: policies@,
                components: component_bytes@,
            }),
    {
        BundleAdmissionConfig { policies, component_bytes }
    }

    /// The bytes of some blocks of a resource, where its widths are known and the sum fits.
    pub fn resource_bytes(&self, resource: LogicalResourceId, logical_blocks: usize) -> (r: Option<
        u64,
    >)
        ensures
            r == if self@.components.contains_key(resource) {
                bytes_of(self@.components[resource], logical_blocks)
            } else {
                None
            },
    {
        let components = match self.component_bytes.get(resource) {
            Some(components) => components,
            None => {
                return None;
            },
        };
        let mut total: u64 = 0;
        let mut at: usize = 0;
        assert(total_bytes(components@.subrange(0, 0)) == 0);
        while at < components.len()
            invariant
                at <= components@.len(),
                self@.components.contains_key(resource),
                components@ == self@.components[resource],
                total == total_bytes(components@.subrange(0, at as int)),
            decreases components@.len() - at,
        {
            proof {
                let more = components@.subrange(0, at + 1);
                assert(more.drop_last() =~= components@.subrange(0, at as int));
                assert(more.last() == components@[at as int]);
                crate::policy::resource::part_of_total(components@, at + 1);
            }
            match total.checked_add(components[at].get()) {
                Some(sum) => {
                    total = sum;
                },
                None => {
                    return None;
                },
            }
            at = at + 1;
        }
        assert(components@.subrange(0, at as int) =~= components@);
        total.checked_mul(logical_blocks as u64)
    }

    /// Judges one resource of a bundle.
    pub fn admit_resource(
        &self,
        requirement: &ResourceRequirement,
        child: &ResourceOffload,
        managed: bool,
        hits: &KeyMap<ResourceBlock, u64>,
        history_dependency_present: bool,
    ) -> (r: Result<u64, AdmissionReason>)
        requires
            self@.policies.contains_key(requirement.resource),
            self@.components.contains_key(requirement.resource),
        ensures
            r == resource_verdict(
                self@.policies[requirement.resource],
                self@.components[requirement.resource],
                *requirement,
                child.blocks@,
                managed,
                hits@,
                history_dependency_present,
            ),
    {
        let resource = requirement.resource;
        let policy = self.policies.get(resource).unwrap();
        let widths = self.component_bytes.get(resource).unwrap();
        if policy.role() != requirement.role {
            return Err(
                AdmissionReason::RoleMismatch {
                    policy: policy.role(),
                    manifest: requirement.role,
                },
            );
        }
        if child.blocks.len() == 0 {
            return Err(AdmissionReason::EmptyResource);
        }
        if !managed {
            return Err(AdmissionReason::MissingManager);
        }
        let least: u64 = fewest_hits(resource, child.blocks.as_slice(), hits);
        let block_count: u64 = child.blocks.len() as u64;
        let components = match scale_components(widths, block_count) {
            Some(components) => components,
            None => {
                return Err(AdmissionReason::ByteOverflow);
            },
        };
        proof {
            scaled_totals_agree(widths@, block_count as int, components@);
        }
        let made = if history_dependency_present {
            AdmissionScoreInputs::complete(least, components)
        } else {
            AdmissionScoreInputs::orphan(least, components)
        };
        let inputs = match made {
            Ok(inputs) => inputs,
            Err(e) => {
                return Err(AdmissionReason::InvalidInput(e));
            },
        };
        let outcome = policy.evaluate_admission(&inputs);
        let bytes: u64 = outcome.score().bytes().get();
        match outcome.decision() {
            RetentionDecision::Retain => Ok(bytes),
            RetentionDecision::Drop => Err(
                AdmissionReason::Dropped { reason: outcome.reason(), bytes },
            ),
        }
    }

    /// Judges every resource of a bundle. Any rejection keeps the whole bundle out.
    pub fn admit_bundle(
        &self,
        plan: &BundleOffloadPlan,
        managed: &KeySet<LogicalResourceId>,
        hits: &KeyMap<ResourceBlock, u64>,
    ) -> (r: BundleAdmission)
        ensures
            ({
                let ids = offload_ids(plan.resources@);
                let expected = plan.identity@.id_set();
                let order = judging_order(plan.identity@);
                let judged = |end: int|
                    admitted_up_to(
                        self@,
                        plan.identity@,
                        plan.resources@,
                        managed@,
                        hits@,
                        end,
                        r.admitted@,
                    );
                if !distinct_up_to(ids, ids.len() as int) {
                    &&& r.admitted@.len() == 0
                    &&& exists|at: int| #[trigger]
                        first_repeat(ids, at) && r.rejection == Some(
                            AdmissionRejection {
                                resource: ids[at],
                                reason: AdmissionReason::DuplicateResource,
                            },
                        )
                } else if ids.to_set() != expected {
                    r.admitted@.len() == 0 && r.rejection is Some && coverage_fault(
                        expected,
                        ids.to_set(),
                        AdmissionSource::BundlePlan,
                        r.rejection->Some_0,
                    )
                } else if self@.policies.dom() != expected {
                    r.admitted@.len() == 0 && r.rejection is Some && coverage_fault(
                        expected,
                        self@.policies.dom(),
                        AdmissionSource::ResourcePolicy,
                        r.rejection->Some_0,
                    )
                } else if self@.components.dom() != expected {
                    r.admitted@.len() == 0 && r.rejection is Some && coverage_fault(
                        expected,
                        self@.components.dom(),
                        AdmissionSource::ComponentBytes,
                        r.rejection->Some_0,
                    )
                } else {
                    match r.rejection {
                        None => judged(order.len() as int),
                        Some(rejection) => {
                            let at = r.admitted@.len() as int;
                            &&& at < order.len()
                            &&& judged(at)
                            &&& rejection.resource == order[at].resource
                            &&& planned_verdict(
                                self@,
                                plan.identity@,
                                plan.resources@,
                                managed@,
                                hits@,
                                order[at],
                            ) == Err::<u64, AdmissionReason>(rejection.reason)
                        },
                    }
                }
            }),
    {
        let mut admitted: Vec<(LogicalResourceId, u64)> = Vec::new();
        let ghost ids = offload_ids(plan.resources@);
        let mut pairs: Vec<(LogicalResourceId, usize)> = Vec::new();
        let mut at: usize = 0;
        while at < plan.resources.len()
            invariant
                at <= plan.resources@.len(),
                pairs@.len() == at,
                forall|i: int|
                    0 <= i < at ==> #[trigger] pairs@[i] == (
                        plan.resources@[i].resource,
                        i as usize,
                    ),
            decreases plan.resources@.len() - at,
        {
            pairs.push((plan.resources[at].resource, at));
            at = at + 1;
        }
        let ghost listed = pairs@;
        assert(firsts(listed) =~= ids);
        let children = match KeyMap::from_entries(pairs) {
            Ok(children) => children,
            Err(resource) => {
                proof {
                    let at = choose|at: int| #[trigger]
                        first_repeat(firsts(listed), at) && listed[at].0 == resource;
                    assert(first_repeat(ids, at) && ids[at] == resource);
                    let i = choose|i: int| 0 <= i < at && #[trigger] ids[i] == ids[at];
                    assert(ids[i] == ids[at]);
                    assert(!distinct_up_to(ids, ids.len() as int));
                }
                let rejection = AdmissionRejection {
                    resource,
                    reason: AdmissionReason::DuplicateResource,
                };
                return BundleAdmission { admitted, rejection: Some(rejection) };
            },
        };
        proof {
            pairs_map_holds_the_pairs(listed);
        }
        let expected = plan.identity.resource_ids();
        let planned = children.keys();
        let policed = self.policies.resources();
        let measured = self.component_bytes.resources();
        if let Some(rejection) = require_exact_set(
            expected.as_slice(),
            planned.as_slice(),
            AdmissionSource::BundlePlan,
        ) {
            return BundleAdmission { admitted, rejection: Some(rejection) };
        }
        if let Some(rejection) = require_exact_set(
            expected.as_slice(),
            policed.as_slice(),
            AdmissionSource::ResourcePolicy,
        ) {
            return BundleAdmission { admitted, rejection: Some(rejection) };
        }
        if let Some(rejection) = require_exact_set(
            expected.as_slice(),
            measured.as_slice(),
            AdmissionSource::ComponentBytes,
        ) {
            return BundleAdmission { admitted, rejection: Some(rejection) };
        }
        let (order, histories) = order_of_judging(&plan.identity);
        let ghost wanted = judging_order(plan.identity@);
        let count: usize = plan.resources.len();
        let mut next: usize = 0;
        while next < order.len()
            invariant
                next <= order@.len(),
                order@ == wanted,
                wanted == judging_order(plan.identity@),
                plan.identity@.wf(),
                histories == plan.identity@.has_history(),
                forall|i: int|
                    0 <= i < wanted.len() ==> plan.identity@.resources.contains(
                        #[trigger] wanted[i],
                    ),
                ids == offload_ids(plan.resources@),
                listed.len() == plan.resources@.len(),
                count == plan.resources@.len(),
                forall|i: int|
                    0 <= i < listed.len() ==> #[trigger] listed[i] == (
                        plan.resources@[i].resource,
                        i as usize,
                    ),
                firsts(listed) == ids,
                distinct_up_to(ids, ids.len() as int),
                children@ == pairs_map(listed),
                children@.dom() == plan.identity@.id_set(),
                self@.policies.dom() == plan.identity@.id_set(),
                self@.components.dom() == plan.identity@.id_set(),
                admitted_up_to(
                    self@,
                    plan.identity@,
                    plan.resources@,
                    managed@,
                    hits@,
                    next as int,
                    admitted@,
                ),
                ids.to_set() == plan.identity@.id_set(),
            decreases order@.len() - next,
        {
            let requirement = order[next];
            let resource = requirement.resource;
            proof {
                assert(plan.identity@.resources.contains(wanted[next as int]));
                let i = choose|i: int|
                    0 <= i < plan.identity@.resources.len() && plan.identity@.resources[i]
                        == requirement;
                plan.identity@.requirement_is_listed(i);
                assert(plan.identity@.id_set().contains(resource));
                assert(children@.contains_key(resource));
            }
            let index: usize = *children.get(&resource).unwrap();
            proof {
                child_is_found(plan.resources@, listed, resource, index);
                assert(self@.policies.dom().contains(resource));
                assert(self@.components.dom().contains(resource));
            }
            let history = requirement.role == ResourceRole::PrefixHistory || histories;
            let verdict = self.admit_resource(
                &requirement,
                &plan.resources[index],
                managed.contains(&resource),
                hits,
                history,
            );
            assert(verdict == planned_verdict(
                self@,
                plan.identity@,
                plan.resources@,
                managed@,
                hits@,
                requirement,
            ));
            match verdict {
                Ok(bytes) => {
                    admitted.push((resource, bytes));
                },
                Err(reason) => {
                    return BundleAdmission {
                        admitted,
                        rejection: Some(AdmissionRejection { resource, reason }),
                    };
                },
            }
            next = next + 1;
        }
        BundleAdmission { admitted, rejection: None }
    }
}

/// The child that a resource's index names is the one found by the resource.
proof fn child_is_found(
    resources: Seq<ResourceOffload>,
    listed: Seq<(LogicalResourceId, usize)>,
    resource: LogicalResourceId,
    index: usize,
)
    requires
        listed.len() == resources.len(),
        forall|i: int|
            0 <= i < listed.len() ==> #[trigger] listed[i] == (resources[i].resource, i as usize),
        firsts(listed) == offload_ids(resources),
        distinct_up_to(offload_ids(resources), resources.len() as int),
        pairs_map(listed).contains_key(resource),
        pairs_map(listed)[resource] == index,
        resources.len() <= usize::MAX,
    ensures
        index < resources.len(),
        resources[index as int].resource == resource,
        blocks_for(resources, resource) == resources[index as int].blocks@,
{
    pairs_map_holds_the_pairs(listed);
    let ids = offload_ids(resources);
    assert(ids.to_set().contains(resource));
    let j = choose|j: int| 0 <= j < ids.len() && ids[j] == resource;
    assert(listed[j] == (resource, j as usize));
    assert(index == j);
    let i = choose|i: int| 0 <= i < resources.len() && resources[i].resource == resource;
    assert(0 <= i < resources.len() && resources[i].resource == resource) by {
        assert(resources[j].resource == resource);
    }
    if i < j {
        assert(ids[i] != ids[j]);
    } else if j < i {
        assert(ids[j] != ids[i]);
    }
}

/// The requirements in the order of judging, and whether there is a history among them.
fn order_of_judging(identity: &CacheIdentity) -> (r: (Vec<ResourceRequirement>, bool))
    ensures
        r.0@ == judging_order(identity@),
        r.1 == identity@.has_history(),
        identity@.wf(),
        forall|i: int|
            0 <= i < r.0@.len() ==> identity@.resources.contains(#[trigger] r.0@[i]),
{
    let requirements = identity.resources();
    let ghost history = |r: ResourceRequirement| r.role == ResourceRole::PrefixHistory;
    let ghost capsule = |r: ResourceRequirement| r.role == ResourceRole::BoundaryCapsule;
    let mut order: Vec<ResourceRequirement> = Vec::new();
    let mut found = false;
    let mut at: usize = 0;
    proof {
        reveal(Seq::filter);
        assert(requirements@.subrange(0, 0).filter(history) =~= Seq::<ResourceRequirement>::empty());
        assert(requirements@.subrange(0, 0).filter(capsule) =~= Seq::<ResourceRequirement>::empty());
    }
    while at < requirements.len()
        invariant
            at <= requirements@.len(),
            requirements@ == identity@.resources,
            history == (|r: ResourceRequirement| r.role == ResourceRole::PrefixHistory),
            order@ == requirements@.subrange(0, at as int).filter(history),
            found == exists|i: int|
                0 <= i < at && (#[trigger] requirements@[i]).role == ResourceRole::PrefixHistory,
            forall|i: int|
                0 <= i < order@.len() ==> identity@.resources.contains(#[trigger] order@[i]),
        decreases requirements@.len() - at,
    {
        let requirement = requirements[at];
        let ghost was = found;
        proof {
            reveal(Seq::filter);
            let more = requirements@.subrange(0, at + 1);
            assert(more.drop_last() =~= requirements@.subrange(0, at as int));
            assert(more.last() == requirement);
            assert(identity@.resources.contains(requirement));
        }
        if requirement.role == ResourceRole::PrefixHistory {
            order.push(requirement);
            found = true;
            assert(requirements@[at as int].role == ResourceRole::PrefixHistory);
        }
        at = at + 1;
    }
    assert(requirements@.subrange(0, at as int) =~= requirements@);
    let ghost first = order@;
    let mut next: usize = 0;
    assert(order@ =~= first + requirements@.subrange(0, 0).filter(capsule));
    while next < requirements.len()
        invariant
            next <= requirements@.len(),
            requirements@ == identity@.resources,
            capsule == (|r: ResourceRequirement| r.role == ResourceRole::BoundaryCapsule),
            order@ == first + requirements@.subrange(0, next as int).filter(capsule),
            forall|i: int|
                0 <= i < order@.len() ==> identity@.resources.contains(#[trigger] order@[i]),
        decreases requirements@.len() - next,
    {
        let requirement = requirements[next];
        let ghost before = order@;
        proof {
            reveal(Seq::filter);
            let more = requirements@.subrange(0, next + 1);
            assert(more.drop_last() =~= requirements@.subrange(0, next as int));
            assert(more.last() == requirement);
            assert(identity@.resources.contains(requirement));
        }
        if requirement.role == ResourceRole::BoundaryCapsule {
            order.push(requirement);
        }
        proof {
            reveal(Seq::filter);
            assert(order@ =~= first + requirements@.subrange(0, next + 1).filter(capsule));
        }
        next = next + 1;
    }
    assert(requirements@.subrange(0, next as int) =~= requirements@);
    (order, found)
}

/// Checks that two ascending lists hold the same resources.
fn require_exact_set(
    expected: &[LogicalResourceId],
    actual: &[LogicalResourceId],
    source: AdmissionSource,
) -> (r: Option<AdmissionRejection>)
    requires
        ascending(expected@),
        ascending(actual@),
    ensures
        r is None <==> expected@.to_set() == actual@.to_set(),
        r is Some ==> coverage_fault(
            expected@.to_set(),
            actual@.to_set(),
            source,
            r->Some_0,
        ),
{
    if let Some(resource) = smallest_absent(expected, actual) {
        assert(!expected@.to_set().subset_of(actual@.to_set()));
        return Some(AdmissionRejection { resource, reason: AdmissionReason::MissingConfig(source) });
    }
    if let Some(resource) = smallest_absent(actual, expected) {
        return Some(
            AdmissionRejection { resource, reason: AdmissionReason::UnexpectedConfig(source) },
        );
    }
    assert(expected@.to_set() =~= actual@.to_set());
    None
}

/// The smallest of some ascending resources that another list lacks.
fn smallest_absent(keys: &[LogicalResourceId], from: &[LogicalResourceId]) -> (r: Option<
    LogicalResourceId,
>)
    requires
        ascending(keys@),
    ensures
        r is None <==> keys@.to_set().subset_of(from@.to_set()),
        r is Some ==> smallest_beyond(keys@.to_set(), from@.to_set(), r->Some_0),
{
    let (present, _) = KeySet::from_keys(from);
    let mut at: usize = 0;
    while at < keys.len()
        invariant
            at <= keys@.len(),
            ascending(keys@),
            present@ == from@.to_set(),
            forall|i: int| 0 <= i < at ==> from@.to_set().contains(#[trigger] keys@[i]),
        decreases keys@.len() - at,
    {
        let key = keys[at];
        if !present.contains(&key) {
            proof {
                assert(keys@.contains(key));
                assert(keys@.to_set().contains(key));
                assert forall|other: LogicalResourceId| #[trigger]
                    keys@.to_set().contains(other) && !from@.to_set().contains(
                        other,
                    ) implies key == other || key.before(other) by {
                    assert(keys@.contains(other));
                    let i = choose|i: int| 0 <= i < keys@.len() && keys@[i] == other;
                    if i < at {
                        assert(from@.to_set().contains(keys@[i]));
                    }
                }
            }
            return Some(key);
        }
        at = at + 1;
    }
    proof {
        assert forall|key: LogicalResourceId|
            keys@.to_set().contains(key) implies from@.to_set().contains(key) by {
            assert(keys@.contains(key));
            let i = choose|i: int| 0 <= i < keys@.len() && keys@[i] == key;
            assert(from@.to_set().contains(keys@[i]));
        }
    }
    None
}

/// Component widths for so many blocks, where every one of them fits.
fn scale_components(widths: &[PositiveU64], blocks: u64) -> (r: Option<Vec<PositiveU64>>)
    requires
        blocks > 0,
    ensures
        r is None <==> component_overflows(widths@, blocks as int),
        r is Some ==> scaled(widths@, blocks as int, r->Some_0@),
{
    let mut components: Vec<PositiveU64> = Vec::new();
    let mut at: usize = 0;
    while at < widths.len()
        invariant
            at <= widths@.len(),
            blocks > 0,
            components@.len() == at,
            forall|i: int| 0 <= i < at ==> (#[trigger] components@[i])@ == widths@[i]@ * blocks,
            forall|i: int| 0 <= i < at ==> (#[trigger] widths@[i])@ * blocks <= u64::MAX,
        decreases widths@.len() - at,
    {
        let width: u64 = widths[at].get();
        match width.checked_mul(blocks) {
            Some(bytes) => {
                assert(bytes > 0) by (nonlinear_arith)
                    requires
                        bytes == width * blocks,
                        width > 0,
                        blocks > 0,
                ;
                if let Some(bytes) = PositiveU64::new(bytes) {
                    components.push(bytes);
                }
            },
            None => {
                assert(widths@[at as int]@ * blocks > u64::MAX);
                return None;
            },
        }
        at = at + 1;
    }
    Some(components)
}

/// The smallest number of hits among some blocks; a block without a count has none.
fn fewest_hits(
    resource: LogicalResourceId,
    blocks: &[(SequenceHash, BlockId)],
    hits: &KeyMap<ResourceBlock, u64>,
) -> (r: u64)
    ensures
        r == least_hits(resource, blocks@, hits@, u64::MAX),
{
    let mut least: u64 = u64::MAX;
    let mut at: usize = 0;
    assert(least_hits(resource, blocks@.subrange(0, 0), hits@, u64::MAX) == u64::MAX);
    while at < blocks.len()
        invariant
            at <= blocks@.len(),
            least == least_hits(resource, blocks@.subrange(0, at as int), hits@, u64::MAX),
        decreases blocks@.len() - at,
    {
        proof {
            let more = blocks@.subrange(0, at + 1);
            assert(more.drop_last() =~= blocks@.subrange(0, at as int));
            assert(more.last() == blocks@[at as int]);
        }
        let count: u64 = match hits.get(&ResourceBlock { resource, hash: blocks[at].0 }) {
            Some(count) => *count,
            None => 0,
        };
        if count < least {
            least = count;
        }
        at = at + 1;
    }
    assert(blocks@.subrange(0, at as int) =~= blocks@);
    least
}

/// The hits that a resource is judged by are those of its least used block: no block has fewer, and
/// some block has exactly these.
pub proof fn resources_are_judged_by_their_least_used_block(
    resource: LogicalResourceId,
    blocks: Seq<(SequenceHash, BlockId)>,
    hits: Map<ResourceBlock, u64>,
    start: u64,
)
    ensures
        ({
            let least = least_hits(resource, blocks, hits, start);
            let count = |i: int|
                {
                    let block = ResourceBlock { resource, hash: blocks[i].0 };
                    if hits.contains_key(block) {
                        hits[block] as int
                    } else {
                        0
                    }
                };
            &&& least <= start
            &&& forall|i: int| 0 <= i < blocks.len() ==> least <= #[trigger] count(i)
            &&& least == start || exists|i: int|
                0 <= i < blocks.len() && least == #[trigger] count(i)
        }),
    decreases blocks.len(),
{
    let count = |i: int|
        {
            let block = ResourceBlock { resource, hash: blocks[i].0 };
            if hits.contains_key(block) {
                hits[block] as int
            } else {
                0
            }
        };
    let least = least_hits(resource, blocks, hits, start);
    if blocks.len() > 0 {
        let rest = blocks.drop_last();
        let last = blocks.len() - 1;
        let before = least_hits(resource, rest, hits, start);
        resources_are_judged_by_their_least_used_block(resource, rest, hits, start);
        let count_rest = |i: int|
            {
                let block = ResourceBlock { resource, hash: rest[i].0 };
                if hits.contains_key(block) {
                    hits[block] as int
                } else {
                    0
                }
            };
        assert forall|i: int| 0 <= i < blocks.len() implies least <= #[trigger] count(i) by {
            if i < last {
                assert(rest[i] == blocks[i]);
                assert(before <= count_rest(i));
            }
        }
        if least != start {
            if least == before {
                let i = choose|i: int| 0 <= i < rest.len() && before == #[trigger] count_rest(i);
                assert(rest[i] == blocks[i]);
                assert(least == count(i));
            } else {
                assert(least == count(last));
            }
        }
    }
}

/// What so many blocks of a resource take is that many times what one block takes.
pub proof fn blocks_take_equal_shares(components: Seq<PositiveU64>, blocks: int)
    ensures
        scaled_total(components, blocks) == total_bytes(components) * blocks,
    decreases components.len(),
{
    if components.len() > 0 {
        blocks_take_equal_shares(components.drop_last(), blocks);
        let rest = total_bytes(components.drop_last()) as int;
        let last = components.last()@ as int;
        assert(rest * blocks + last * blocks == (rest + last) * blocks) by (nonlinear_arith);
        assert(total_bytes(components) == rest + last);
    } else {
        assert(total_bytes(components) * blocks == 0) by (nonlinear_arith)
            requires
                total_bytes(components) == 0,
        ;
    }
}

/// A resource is admitted exactly if its role is the configured one, it has blocks and a manager,
/// all of its components are there, a capsule has its history, its bytes can be counted, and every
/// one of its blocks has the hits for them that the policy asks for. It is admitted with the bytes
/// of all of its blocks.
pub proof fn resources_are_admitted_whole_and_dense(
    policy: PolicyView,
    components: Seq<PositiveU64>,
    requirement: ResourceRequirement,
    blocks: Seq<(SequenceHash, BlockId)>,
    managed: bool,
    hits: Map<ResourceBlock, u64>,
    history_dependency_present: bool,
)
    requires
        policy.atomic_components > 0,
    ensures
        ({
            let verdict = resource_verdict(
                policy,
                components,
                requirement,
                blocks,
                managed,
                hits,
                history_dependency_present,
            );
            let bytes = total_bytes(components) * blocks.len();
            let count = |i: int|
                {
                    let block = ResourceBlock { resource: requirement.resource, hash: blocks[i].0 };
                    if hits.contains_key(block) {
                        hits[block] as int
                    } else {
                        0
                    }
                };
            &&& verdict is Ok <==> {
                &&& policy.role == requirement.role
                &&& blocks.len() > 0
                &&& managed
                &&& components.len() == policy.atomic_components
                &&& policy.role is PrefixHistory || history_dependency_present
                &&& bytes <= u64::MAX
                &&& forall|i: int|
                    0 <= i < blocks.len() ==> #[trigger] count(i) * 1_048_576
                        >= policy.minimum_admission_hits_per_mib * bytes
            }
            &&& verdict is Ok ==> verdict->Ok_0 == bytes
        }),
{
    let n = blocks.len() as int;
    let resource = requirement.resource;
    let bytes = total_bytes(components) * blocks.len();
    let least = least_hits(resource, blocks, hits, u64::MAX);
    let floor = policy.minimum_admission_hits_per_mib * bytes;
    let count = |i: int|
        {
            let block = ResourceBlock { resource: requirement.resource, hash: blocks[i].0 };
            if hits.contains_key(block) {
                hits[block] as int
            } else {
                0
            }
        };
    resources_are_judged_by_their_least_used_block(resource, blocks, hits, u64::MAX);
    blocks_take_equal_shares(components, n);
    if n > 0 {
        assert forall|i: int| 0 <= i < components.len() && bytes <= u64::MAX implies (
        #[trigger] components[i])@ * n <= u64::MAX by {
            crate::policy::resource::part_of_total(components, i + 1);
            let upto = components.subrange(0, i + 1);
            assert(upto.last() == components[i]);
            assert(components[i]@ <= total_bytes(components));
            assert(components[i]@ * n <= total_bytes(components) * n) by (nonlinear_arith)
                requires
                    components[i]@ <= total_bytes(components),
                    n > 0,
            ;
        }
        assert(least * 1_048_576 >= floor <==> forall|i: int|
            0 <= i < blocks.len() ==> #[trigger] count(i) * 1_048_576 >= floor) by {
            if least == u64::MAX {
                assert forall|i: int| 0 <= i < blocks.len() implies #[trigger] count(i)
                    == least by {
                    assert(least <= count(i));
                }
                assert(count(0) == least);
            } else {
                let i = choose|i: int| 0 <= i < blocks.len() && least == #[trigger] count(i);
                assert(count(i) == least);
            }
        }
    }
}

/// What becomes of a resource of a planned bundle rests on its own blocks, and a capsule is judged
/// with the histories of its bundle.
pub proof fn resources_are_judged_on_their_own_blocks(
    config: AdmissionConfigView,
    identity: IdentityView,
    resources: Seq<ResourceOffload>,
    managed: Set<LogicalResourceId>,
    hits: Map<ResourceBlock, u64>,
    requirement: ResourceRequirement,
    at: int,
)
    requires
        distinct_up_to(offload_ids(resources), resources.len() as int),
        0 <= at < resources.len(),
        resources[at].resource == requirement.resource,
    ensures
        planned_verdict(config, identity, resources, managed, hits, requirement)
            == resource_verdict(
            config.policies[requirement.resource],
            config.components[requirement.resource],
            requirement,
            resources[at].blocks@,
            managed.contains(requirement.resource),
            hits,
            requirement.role is PrefixHistory || exists|i: int|
                0 <= i < identity.resources.len() && (
                #[trigger] identity.resources[i]).role is PrefixHistory,
        ),
{
    let ids = offload_ids(resources);
    let found = choose|i: int|
        0 <= i < resources.len() && resources[i].resource == requirement.resource;
    assert(ids[found] == ids[at]);
    assert(found == at);
}

/// Every resource is judged once, and histories before the capsules that depend on them.
pub proof fn histories_are_judged_before_capsules(identity: IdentityView, i: int, j: int)
    requires
        0 <= i < j < judging_order(identity).len(),
    ensures
        judging_order(identity)[j].role is PrefixHistory ==> judging_order(
            identity,
        )[i].role is PrefixHistory,
        identity.resources.contains(judging_order(identity)[i]),
        identity.resources.contains(judging_order(identity)[j]),
        judging_order(identity).len() == identity.resources.len(),
{
    let history = |r: ResourceRequirement| r.role == ResourceRole::PrefixHistory;
    let capsule = |r: ResourceRequirement| r.role == ResourceRole::BoundaryCapsule;
    let first = identity.resources.filter(history);
    let second = identity.resources.filter(capsule);
    let order = judging_order(identity);
    identity.resources.lemma_filter_len(history);
    assert forall|k: int| 0 <= k < order.len() implies identity.resources.contains(
        #[trigger] order[k],
    ) && (k < first.len() <==> order[k].role is PrefixHistory) by {
        if k < first.len() {
            assert(order[k] == first[k]);
            filtered_is_listed(identity.resources, history, k);
        } else {
            assert(order[k] == second[k - first.len()]);
            filtered_is_listed(identity.resources, capsule, k - first.len());
        }
    }
    roles_partition(identity.resources);
}

proof fn filtered_is_listed(
    requirements: Seq<ResourceRequirement>,
    keep: spec_fn(ResourceRequirement) -> bool,
    at: int,
)
    requires
        0 <= at < requirements.filter(keep).len(),
    ensures
        keep(requirements.filter(keep)[at]),
        requirements.contains(requirements.filter(keep)[at]),
    decreases requirements.len(),
{
    reveal(Seq::filter);
    if requirements.len() > 0 {
        let rest = requirements.drop_last();
        if at < rest.filter(keep).len() {
            filtered_is_listed(rest, keep, at);
            let i = choose|i: int| 0 <= i < rest.len() && rest[i] == rest.filter(keep)[at];
            assert(requirements[i] == rest[i]);
        } else {
            assert(requirements[requirements.len() - 1] == requirements.last());
        }
    }
}

proof fn roles_partition(requirements: Seq<ResourceRequirement>)
    ensures
        requirements.filter(|r: ResourceRequirement| r.role == ResourceRole::PrefixHistory).len()
            + requirements.filter(
            |r: ResourceRequirement| r.role == ResourceRole::BoundaryCapsule,
        ).len() == requirements.len(),
    decreases requirements.len(),
{
    reveal(Seq::filter);
    if requirements.len() > 0 {
        roles_partition(requirements.drop_last());
    }
}

/// A fault of coverage names a resource that is asked for and not configured, or, where there is
/// none such, one that is configured and not asked for.
pub proof fn coverage_faults_name_what_differs(
    expected: Set<LogicalResourceId>,
    actual: Set<LogicalResourceId>,
    source: AdmissionSource,
    rejection: AdmissionRejection,
    resource: LogicalResourceId,
)
    requires
        coverage_fault(expected, actual, source, rejection),
    ensures
        expected.contains(rejection.resource) != actual.contains(rejection.resource),
        rejection.reason == (if expected.contains(rejection.resource) {
            AdmissionReason::MissingConfig(source)
        } else {
            AdmissionReason::UnexpectedConfig(source)
        }),
        expected.contains(resource) && !actual.contains(resource) ==> expected.contains(
            rejection.resource,
        ) && (rejection.resource == resource || rejection.resource.before(resource)),
        !expected.contains(rejection.resource) && actual.contains(resource) && !expected.contains(
            resource,
        ) ==> rejection.resource == resource || rejection.resource.before(resource),
{
}

/// The bytes of one block are those of its components together, and the bytes of some blocks and
/// of some more add up to those of all of them; they are unknown only where they do not fit.
pub proof fn resource_bytes_add_up(components: Seq<PositiveU64>, blocks: usize, more: usize)
    requires
        blocks + more <= usize::MAX,
    ensures
        total_bytes(components) <= u64::MAX ==> bytes_of(components, 1) == Some(
            total_bytes(components) as u64,
        ),
        ({
            let all = bytes_of(components, (blocks + more) as usize);
            &&& all is Some ==> bytes_of(components, blocks) is Some && bytes_of(
                components,
                more,
            ) is Some && all->Some_0 == bytes_of(components, blocks)->Some_0 + bytes_of(
                components,
                more,
            )->Some_0
            &&& all is None <==> total_bytes(components) > u64::MAX || scaled_total(
                components,
                blocks + more,
            ) > u64::MAX
        }),
{
    let total = total_bytes(components) as int;
    blocks_take_equal_shares(components, blocks + more);
    assert(total * (blocks + more) == total * blocks + total * more && total * blocks >= 0 && total
        * more >= 0) by (nonlinear_arith)
        requires
            total >= 0,
            blocks >= 0,
            more >= 0,
    ;
}

/// A resource is kept out for the first thing that is wrong with it, and only for that: what it is
/// refused for holds, and a dropped one is dropped with the bytes of all of its blocks.
pub proof fn resources_are_kept_out_for_cause(
    policy: PolicyView,
    components: Seq<PositiveU64>,
    requirement: ResourceRequirement,
    blocks: Seq<(SequenceHash, BlockId)>,
    managed: bool,
    hits: Map<ResourceBlock, u64>,
    history_dependency_present: bool,
    reason: AdmissionReason,
)
    requires
        resource_verdict(
            policy,
            components,
            requirement,
            blocks,
            managed,
            hits,
            history_dependency_present,
        ) == Err::<u64, AdmissionReason>(reason),
    ensures
        match reason {
            AdmissionReason::RoleMismatch { policy: configured, manifest } => configured
                == policy.role && manifest == requirement.role && configured != manifest,
            AdmissionReason::EmptyResource => blocks.len() == 0,
            AdmissionReason::MissingManager => !managed && blocks.len() > 0,
            AdmissionReason::ByteOverflow => managed && exists|i: int|
                0 <= i < components.len() && (#[trigger] components[i])@ * blocks.len() > u64::MAX,
            AdmissionReason::InvalidInput(AdmissionInputError::NoComponents) => components.len()
                == 0,
            AdmissionReason::InvalidInput(AdmissionInputError::ByteCountOverflow) => total_bytes(
                components,
            ) * blocks.len() > u64::MAX,
            AdmissionReason::Dropped { reason, bytes } => {
                let whole = components.len() == policy.atomic_components;
                let backed = policy.role is PrefixHistory || history_dependency_present;
                &&& managed
                &&& bytes == total_bytes(components) * blocks.len()
                &&& reason is IncompleteAtomicResource <==> !whole
                &&& reason is MissingHistoryDependency <==> whole && !backed
                &&& reason is BelowByteNormalizedThreshold <==> whole && backed
                &&& !(reason is ByteNormalizedValue)
            },
            _ => false,
        },
{
    blocks_take_equal_shares(components, blocks.len() as int);
}

/// A bundle is admitted whole: where every place of the order of judging is admitted, so is every
/// resource of the identity, each with the bytes of its own verdict.
pub proof fn admitted_bundles_are_admitted_whole(
    config: AdmissionConfigView,
    identity: IdentityView,
    resources: Seq<ResourceOffload>,
    managed: Set<LogicalResourceId>,
    hits: Map<ResourceBlock, u64>,
    admitted: Seq<(LogicalResourceId, u64)>,
    at: int,
)
    requires
        admitted_up_to(
            config,
            identity,
            resources,
            managed,
            hits,
            judging_order(identity).len() as int,
            admitted,
        ),
        0 <= at < identity.resources.len(),
    ensures
        admitted.len() == identity.resources.len(),
        exists|i: int|
            {
                &&& 0 <= i < admitted.len()
                &&& (#[trigger] admitted[i]).0 == identity.resources[at].resource
                &&& planned_verdict(
                    config,
                    identity,
                    resources,
                    managed,
                    hits,
                    identity.resources[at],
                ) == Ok::<u64, AdmissionReason>(admitted[i].1)
            },
{
    let requirement = identity.resources[at];
    let order = judging_order(identity);
    let history = |r: ResourceRequirement| r.role == ResourceRole::PrefixHistory;
    let capsule = |r: ResourceRequirement| r.role == ResourceRole::BoundaryCapsule;
    let first = identity.resources.filter(history);
    roles_partition(identity.resources);
    let i = if requirement.role is PrefixHistory {
        listed_is_filtered(identity.resources, history, at)
    } else {
        first.len() + listed_is_filtered(identity.resources, capsule, at)
    };
    assert(order[i] == requirement);
    assert(admitted[i].0 == requirement.resource);
}

proof fn listed_is_filtered(
    requirements: Seq<ResourceRequirement>,
    keep: spec_fn(ResourceRequirement) -> bool,
    at: int,
) -> (place: int)
    requires
        0 <= at < requirements.len(),
        keep(requirements[at]),
    ensures
        0 <= place < requirements.filter(keep).len(),
        requirements.filter(keep)[place] == requirements[at],
    decreases requirements.len(),
{
    reveal(Seq::filter);
    let rest = requirements.drop_last();
    if at < rest.len() {
        assert(rest[at] == requirements[at]);
        listed_is_filtered(rest, keep, at)
    } else {
        rest.filter(keep).len() as int
    }
}

} // verus!
