//! Retention, admission, component widths and dependencies.

use kvbm_engine::bundle::admission::{
    AdmissionReason, AdmissionRejection, AdmissionSource, BundleAdmissionConfig,
    BundleOffloadPlan, ResourceOffload,
};
use kvbm_engine::bundle::offload::OffloadMode;
use kvbm_engine::ids::{
    BundleKey, CacheManifestId, LogicalResourceId, ResourceBlock, SequenceHash,
};
use kvbm_engine::manifest::{CacheIdentity, ResourceRequirement, ResourceRole};
use kvbm_engine::ordered::{KeyMap, KeySet};
use kvbm_engine::policy::components::{ResourceComponentBytes, ResourceComponentBytesError};
use kvbm_engine::policy::dependency::{
    BundleDependencyIndex, DependencyError, InvalidationEvent, ResourceLineage,
};
use kvbm_engine::policy::resource::{
    AdmissionInputError, AdmissionScoreInputs, DuplicateResourcePolicy, InactiveBackendConfig,
    LineageEviction, ResourcePolicies, ResourcePolicy, RetentionDecision, RetentionReason,
};
use kvbm_engine::policy::score::AdmissionScore;
use kvbm_engine::positive::{PositiveU64, PositiveUsize};

const HISTORY: LogicalResourceId = LogicalResourceId(70);
const CAPSULE: LogicalResourceId = LogicalResourceId(71);

fn bytes(value: u64) -> PositiveU64 {
    PositiveU64::new(value).unwrap()
}

fn lru(role: ResourceRole) -> ResourcePolicy {
    ResourcePolicy::new(role, InactiveBackendConfig::Lru, InactiveBackendConfig::Lru)
}

#[test]
fn resources_can_select_different_inactive_backends() {
    let csa = LogicalResourceId(40);
    let hca = LogicalResourceId(41);
    let mut policies = ResourcePolicies::new();
    policies
        .insert(
            csa,
            ResourcePolicy::new(
                ResourceRole::PrefixHistory,
                InactiveBackendConfig::MultiLru {
                    frequency_thresholds: [3, 8, 15],
                },
                InactiveBackendConfig::Lineage {
                    eviction: LineageEviction::Fifo,
                },
            ),
        )
        .unwrap();
    policies
        .insert(hca, lru(ResourceRole::PrefixHistory))
        .unwrap();

    assert_ne!(policies.get(csa).unwrap(), policies.get(hca).unwrap());
    assert!(matches!(
        policies.get(csa).unwrap().g1_inactive(),
        InactiveBackendConfig::MultiLru { .. }
    ));
    assert_eq!(
        policies.get(hca).unwrap().g2_inactive(),
        &InactiveBackendConfig::Lru
    );
    assert!(!policies.get(hca).unwrap().requires_g1_frequency_tracking());
    assert!(lru(ResourceRole::PrefixHistory)
        .with_minimum_hits_per_mib(1)
        .requires_g1_frequency_tracking());
    assert_eq!(
        policies.insert(csa, lru(ResourceRole::PrefixHistory)),
        Err(DuplicateResourcePolicy { resource: csa })
    );
    assert_eq!(policies.resources(), vec![csa, hca]);
}

#[test]
fn byte_normalized_scores_do_not_treat_equal_hits_as_equal_value() {
    let small = AdmissionScoreInputs::complete(8, vec![bytes(4 * 1024)]).unwrap();
    let large = AdmissionScoreInputs::complete(8, vec![bytes(64 * 1024)]).unwrap();
    let policy = lru(ResourceRole::PrefixHistory).with_minimum_hits_per_mib(1024);

    assert!(small.score() > large.score());
    assert_ne!(small.score(), large.score());
    assert_eq!(
        policy.evaluate(&small).decision(),
        RetentionDecision::Retain
    );
    assert_eq!(policy.evaluate(&large).decision(), RetentionDecision::Drop);
    assert_eq!(
        policy.evaluate(&large).reason(),
        RetentionReason::BelowByteNormalizedThreshold
    );
}

#[test]
fn equal_ratios_are_equal_scores() {
    assert_eq!(
        AdmissionScore::new(1, bytes(2)),
        AdmissionScore::new(2, bytes(4))
    );
    assert!(AdmissionScore::new(u64::MAX, bytes(1)) > AdmissionScore::new(1, bytes(u64::MAX)));
    assert!(AdmissionScore::new(1, bytes(1_048_576)).meets_hits_per_mib(1));
    assert!(!AdmissionScore::new(1, bytes(1_048_577)).meets_hits_per_mib(1));
}

#[test]
fn atomic_resource_cannot_admit_only_one_component() {
    let policy = lru(ResourceRole::PrefixHistory)
        .with_atomic_components(PositiveUsize::new(2).unwrap());
    let partial = AdmissionScoreInputs::complete(8, vec![bytes(4096)]).unwrap();
    let outcome = policy.evaluate(&partial);

    assert_eq!(outcome.decision(), RetentionDecision::Drop);
    assert_eq!(outcome.reason(), RetentionReason::IncompleteAtomicResource);
}

#[test]
fn orphan_capsule_is_never_admitted() {
    let policy = lru(ResourceRole::BoundaryCapsule);
    let orphan = AdmissionScoreInputs::orphan(10, vec![bytes(1024)]).unwrap();
    let outcome = policy.evaluate(&orphan);

    assert_eq!(outcome.decision(), RetentionDecision::Drop);
    assert_eq!(outcome.reason(), RetentionReason::MissingHistoryDependency);
}

#[test]
fn score_inputs_refuse_nothing_and_too_much() {
    assert_eq!(
        AdmissionScoreInputs::complete(1, vec![]).unwrap_err(),
        AdmissionInputError::NoComponents
    );
    assert_eq!(
        AdmissionScoreInputs::orphan(1, vec![bytes(u64::MAX), bytes(1)]).unwrap_err(),
        AdmissionInputError::ByteCountOverflow
    );
    let two = AdmissionScoreInputs::complete(1, vec![bytes(3), bytes(4)]).unwrap();
    assert_eq!(two.component_count(), 2);
    assert_eq!(two.score().bytes().get(), 7);
}

#[test]
fn rejects_empty_and_duplicate_resource_entries() {
    let resource = LogicalResourceId(4);
    let mut widths = ResourceComponentBytes::new();
    assert_eq!(
        widths.insert(resource, vec![]),
        Err(ResourceComponentBytesError::NoComponents { resource })
    );
    widths.insert(resource, vec![bytes(64)]).unwrap();
    assert_eq!(
        widths.insert(resource, vec![bytes(32)]),
        Err(ResourceComponentBytesError::DuplicateResource { resource })
    );
}

fn hash(value: u8) -> SequenceHash {
    SequenceHash::new(u128::from(value), u64::from(value))
}

fn identity() -> CacheIdentity {
    CacheIdentity::new(
        CacheManifestId { high: 0, low: 9 },
        16,
        vec![
            ResourceRequirement {
                resource: HISTORY,
                role: ResourceRole::PrefixHistory,
                native_block_tokens: 16,
            },
            ResourceRequirement {
                resource: CAPSULE,
                role: ResourceRole::BoundaryCapsule,
                native_block_tokens: 16,
            },
        ],
    )
    .unwrap()
}

fn keys() -> (BundleKey, BundleKey) {
    let identity = identity();
    (
        BundleKey::new(&identity, hash(1), 16).unwrap(),
        BundleKey::new(&identity, hash(2), 32).unwrap(),
    )
}

#[test]
fn history_eviction_invalidates_every_deeper_dependent_bundle() {
    let (shallow, deep) = keys();
    let mut index = BundleDependencyIndex::new();
    index
        .track(
            shallow,
            &[ResourceLineage::new(
                HISTORY,
                ResourceRole::PrefixHistory,
                vec![hash(1)],
            )],
        )
        .unwrap();
    index
        .track(
            deep,
            &[ResourceLineage::new(
                HISTORY,
                ResourceRole::PrefixHistory,
                vec![hash(1), hash(2)],
            )],
        )
        .unwrap();

    let mut invalidated: Vec<_> = index
        .invalidate(HISTORY, hash(1))
        .into_iter()
        .map(|event| event.key())
        .collect();
    invalidated.sort_by_key(|key| key.boundary_tokens);

    assert_eq!(invalidated, vec![shallow, deep]);
    assert!(index.dependents(HISTORY, hash(1)).is_empty());
}

#[test]
fn capsule_eviction_invalidates_only_its_exact_boundary() {
    let (shallow, deep) = keys();
    let mut index = BundleDependencyIndex::new();
    index
        .track(
            shallow,
            &[ResourceLineage::new(
                CAPSULE,
                ResourceRole::BoundaryCapsule,
                vec![hash(1)],
            )],
        )
        .unwrap();
    index
        .track(
            deep,
            &[ResourceLineage::new(
                CAPSULE,
                ResourceRole::BoundaryCapsule,
                vec![hash(2)],
            )],
        )
        .unwrap();

    let invalidated = index.invalidate(CAPSULE, hash(1));

    assert_eq!(
        invalidated,
        vec![InvalidationEvent {
            key: shallow,
            resource: CAPSULE,
            hash: hash(1),
        }]
    );
    assert_eq!(index.dependents(CAPSULE, hash(2)), vec![deep]);
}

#[test]
fn dependencies_refuse_malformed_lineages_and_untrack_cleanly() {
    let (shallow, _) = keys();
    let history = |hashes| ResourceLineage::new(HISTORY, ResourceRole::PrefixHistory, hashes);
    let capsule = |hashes| ResourceLineage::new(CAPSULE, ResourceRole::BoundaryCapsule, hashes);
    let mut index = BundleDependencyIndex::new();
    assert_eq!(
        index.track(shallow, &[]),
        Err(DependencyError::NoResources)
    );
    assert_eq!(
        index.track(shallow, &[history(vec![hash(1)]), history(vec![hash(1)])]),
        Err(DependencyError::DuplicateResource { resource: HISTORY })
    );
    assert_eq!(
        index.track(shallow, &[history(vec![])]),
        Err(DependencyError::EmptyLineage { resource: HISTORY })
    );
    assert_eq!(
        index.track(shallow, &[capsule(vec![hash(2)])]),
        Err(DependencyError::BoundaryMismatch { resource: CAPSULE })
    );
    assert_eq!(
        index.track(shallow, &[capsule(vec![hash(2), hash(1)])]),
        Err(DependencyError::CapsuleNotAtomic { resource: CAPSULE })
    );
    index.track(shallow, &[history(vec![hash(1)])]).unwrap();
    index.untrack(shallow);
    assert!(index.invalidate(HISTORY, hash(1)).is_empty());
}

fn plan(resources: Vec<ResourceOffload>) -> BundleOffloadPlan {
    BundleOffloadPlan {
        identity: identity(),
        key: keys().0,
        generation: 1,
        mode: OffloadMode::Mirror,
        resources,
    }
}

fn child(resource: LogicalResourceId) -> ResourceOffload {
    ResourceOffload {
        resource,
        blocks: vec![(hash(1), 5)],
    }
}

fn config(minimum: u64) -> BundleAdmissionConfig {
    let mut policies = ResourcePolicies::new();
    policies
        .insert(
            HISTORY,
            lru(ResourceRole::PrefixHistory).with_minimum_admission_hits_per_mib(minimum),
        )
        .unwrap();
    policies
        .insert(CAPSULE, lru(ResourceRole::BoundaryCapsule))
        .unwrap();
    let mut widths = ResourceComponentBytes::new();
    widths.insert(HISTORY, vec![bytes(1024)]).unwrap();
    widths.insert(CAPSULE, vec![bytes(64)]).unwrap();
    BundleAdmissionConfig::new(policies, widths)
}

fn managed() -> KeySet<LogicalResourceId> {
    KeySet::from_keys(&[HISTORY, CAPSULE]).0
}

#[test]
fn a_bundle_is_admitted_with_the_bytes_of_each_resource() {
    let admission = config(0).admit_bundle(
        &plan(vec![child(CAPSULE), child(HISTORY)]),
        &managed(),
        &KeyMap::new(),
    );
    assert_eq!(admission.rejection, None);
    assert_eq!(admission.admitted, vec![(HISTORY, 1024), (CAPSULE, 64)]);
    assert_eq!(config(0).resource_bytes(HISTORY, 3), Some(3072));
}

#[test]
fn one_rejected_resource_rejects_the_bundle() {
    let rejection = |config: BundleAdmissionConfig, resources, hits: u64| {
        let block = ResourceBlock {
            resource: HISTORY,
            hash: hash(1),
        };
        config
            .admit_bundle(
                &plan(resources),
                &managed(),
                &KeyMap::collect(vec![(block, hits)]),
            )
            .rejection
    };
    assert_eq!(
        rejection(config(0), vec![child(HISTORY)], 0),
        Some(AdmissionRejection {
            resource: CAPSULE,
            reason: AdmissionReason::MissingConfig(AdmissionSource::BundlePlan),
        })
    );
    assert_eq!(
        rejection(config(0), vec![child(HISTORY), child(HISTORY)], 0),
        Some(AdmissionRejection {
            resource: HISTORY,
            reason: AdmissionReason::DuplicateResource,
        })
    );
    let both = || vec![child(HISTORY), child(CAPSULE)];
    assert_eq!(
        rejection(config(2048), both(), 1),
        Some(AdmissionRejection {
            resource: HISTORY,
            reason: AdmissionReason::Dropped {
                reason: RetentionReason::BelowByteNormalizedThreshold,
                bytes: 1024,
            },
        })
    );
    assert_eq!(rejection(config(2048), both(), 2), None);
    let unmanaged = config(0).admit_bundle(&plan(both()), &KeySet::new(), &KeyMap::new());
    assert_eq!(
        unmanaged.rejection,
        Some(AdmissionRejection {
            resource: HISTORY,
            reason: AdmissionReason::MissingManager,
        })
    );
}
