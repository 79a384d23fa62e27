//! Layouts, tiers, parallelism, directory records, request slots and worker plans.

use kvbm_engine::connector::directory::{
    advertisement_record, bundle_query_request, directory_hit, translate_miss_reason,
    BundleQueryHit, BundleQueryMissReason, DirectoryHitError,
};
use kvbm_engine::connector::layout::{LayoutConfig, ResourceTierConfig, WorkerCacheConfig};
use kvbm_engine::connector::policy::{AdmissionPlanError, ResourceAdmissionPlan};
use kvbm_engine::connector::resources::{
    block_bytes, resource_tiers, validate_manifest_geometry, GeometryError, ResourcePlan,
    ResourcePlanError, TierCapacity, TierError,
};
use kvbm_engine::connector::slot::RequestSlot;
use kvbm_engine::connector::topology::{
    build_collective_bootstrap, collective_required, logical_tier_block_count,
    resolve_parallelism, TopologyError,
};
use kvbm_engine::connector::worker::{
    additional_layouts, merge_created_layouts, LogicalLayoutHandle, PendingWorkerResources,
};
use kvbm_engine::ids::{
    BundleKey, CacheManifestId, InstanceId, LogicalResourceId, RegistrationEpoch, SequenceHash,
};
use kvbm_engine::manifest::{
    BundleResourceLineage, CacheIdentity, ResourceRequirement, ResourceRole,
};
use kvbm_engine::offload::plan::validate_bundle_offload;
use kvbm_engine::message::MessagePart;
use kvbm_engine::ordered::{KeyMap, KeySet};
use kvbm_engine::p2p::integrity::ParallelismMode;
use kvbm_engine::policy::resource::InactiveBackendConfig;
use kvbm_engine::remote::search::{
    BundleAdvertisement, BundleDirectoryError, BundleDiscoveryQuery, BundleMissReason,
};

fn layout(page_size: usize, num_heads: Option<usize>, bytes_per_block: usize) -> LayoutConfig {
    LayoutConfig {
        num_blocks: 8,
        num_layers: 1,
        page_size,
        num_heads,
        bytes_per_block,
        required_bytes: 8 * bytes_per_block,
    }
}

fn requirement(resource: u16, role: ResourceRole, native_block_tokens: u64) -> ResourceRequirement {
    ResourceRequirement {
        resource: LogicalResourceId(resource),
        role,
        native_block_tokens,
    }
}

fn manifest(id: u128) -> CacheManifestId {
    CacheManifestId { high: 0, low: id }
}

fn identity() -> CacheIdentity {
    CacheIdentity::new(
        manifest(7),
        8,
        vec![
            requirement(3, ResourceRole::BoundaryCapsule, 4),
            requirement(1, ResourceRole::PrefixHistory, 8),
            requirement(2, ResourceRole::PrefixHistory, 4),
        ],
    )
    .unwrap()
}

fn config(primary: u16) -> WorkerCacheConfig {
    WorkerCacheConfig {
        manifest: Some(identity().manifest()),
        primary: LogicalResourceId(primary),
        resources: KeyMap::collect(vec![
            (LogicalResourceId(3), layout(4, None, 64)),
            (LogicalResourceId(1), layout(8, None, 128)),
            (LogicalResourceId(2), layout(4, None, 64)),
        ]),
    }
}

/// Shows a message as its reader sees it.
fn shown(parts: &[MessagePart], cause: &str) -> String {
    parts
        .iter()
        .map(|part| match part {
            MessagePart::Text(text) => (*text).to_owned(),
            MessagePart::Number(number) => format!("{number}"),
            MessagePart::Resource(resource) => format!("{resource:?}"),
            MessagePart::Hash(hash) => format!("{hash:?}"),
            MessagePart::Cause => cause.to_owned(),
        })
        .collect()
}

#[test]
fn manifest_geometry_accepts_order_independent_finest_primary() {
    validate_manifest_geometry(&identity(), &config(2)).unwrap();
}

#[test]
fn manifest_geometry_rejects_coarser_primary_before_runtime_construction() {
    let error = validate_manifest_geometry(&identity(), &config(1))
        .expect_err("a coarser primary must be rejected");

    assert!(shown(&error.message(), "").contains("canonical prefix history"));
    assert_eq!(
        error,
        GeometryError::PrimaryNotCanonical {
            primary: LogicalResourceId(1),
            canonical: LogicalResourceId(2),
        }
    );
}

#[test]
fn manifest_geometry_rejects_native_block_size_drift() {
    let mut config = config(2);
    config
        .resources
        .insert(LogicalResourceId(2), layout(8, None, 128));

    let error = validate_manifest_geometry(&identity(), &config)
        .expect_err("manifest and physical native sizes must match");

    assert!(shown(&error.message(), "").contains("manifest native block size"));
}

#[test]
fn manifest_geometry_rejects_other_manifests_and_resource_sets() {
    let mut other = config(2);
    other.manifest = Some(manifest(8));
    assert_eq!(
        validate_manifest_geometry(&identity(), &other),
        Err(GeometryError::ManifestMismatch)
    );
    let mut fewer = config(2);
    fewer.resources.remove(&LogicalResourceId(3));
    assert_eq!(
        validate_manifest_geometry(&identity(), &fewer),
        Err(GeometryError::ResourceSets)
    );
    let capsules = CacheIdentity::new(
        manifest(7),
        4,
        vec![requirement(3, ResourceRole::BoundaryCapsule, 4)],
    )
    .unwrap();
    let mut lone = config(3);
    lone.resources.remove(&LogicalResourceId(1));
    lone.resources.remove(&LogicalResourceId(2));
    assert_eq!(
        validate_manifest_geometry(&capsules, &lone),
        Err(GeometryError::NoCanonicalHistory)
    );
}

#[test]
fn manifest_defaults_have_exact_checked_resource_coverage() {
    let history = LogicalResourceId(4);
    let capsule = LogicalResourceId(7);
    let identity = CacheIdentity::new(
        manifest(3),
        1,
        vec![
            requirement(4, ResourceRole::PrefixHistory, 1),
            requirement(7, ResourceRole::BoundaryCapsule, 1),
        ],
    )
    .unwrap();
    let plan = ResourceAdmissionPlan::build(
        Some(&identity),
        &KeyMap::collect(vec![
            (history, layout(1, None, 32)),
            (capsule, layout(1, None, 8)),
        ]),
        &KeyMap::collect(vec![
            (history, ParallelismMode::TensorParallel),
            (capsule, ParallelismMode::ReplicatedData),
        ]),
        2,
        InactiveBackendConfig::Lru,
    )
    .unwrap();

    assert_eq!(plan.policies().iter().len(), 2);
    assert_eq!(
        plan.policies().get(history).unwrap().role(),
        ResourceRole::PrefixHistory
    );
    assert_eq!(
        plan.component_bytes()
            .get(history)
            .unwrap()
            .iter()
            .map(|bytes| bytes.get())
            .collect::<Vec<_>>(),
        vec![32, 32]
    );
    assert_eq!(plan.component_bytes().get(capsule).unwrap()[0].get(), 8);
}

#[test]
fn manifest_defaults_reject_resource_set_drift() {
    let identity = CacheIdentity::new(
        manifest(3),
        1,
        vec![requirement(4, ResourceRole::PrefixHistory, 1)],
    )
    .unwrap();

    assert!(ResourceAdmissionPlan::build(
        Some(&identity),
        &KeyMap::new(),
        &KeyMap::new(),
        1,
        InactiveBackendConfig::Lru,
    )
    .is_err());
}

#[test]
fn admission_plans_name_what_they_lack() {
    let resource = LogicalResourceId(4);
    let layouts = KeyMap::collect(vec![(resource, layout(1, None, 32))]);
    let parallelism = KeyMap::collect(vec![(resource, ParallelismMode::TensorParallel)]);
    let lru = InactiveBackendConfig::Lru;
    let identity = CacheIdentity::new(
        manifest(3),
        1,
        vec![requirement(4, ResourceRole::PrefixHistory, 1)],
    )
    .unwrap();
    assert_eq!(
        ResourceAdmissionPlan::build(Some(&identity), &layouts, &parallelism, 0, lru).unwrap_err(),
        AdmissionPlanError::NoWorkers
    );
    assert_eq!(
        ResourceAdmissionPlan::build(Some(&identity), &layouts, &KeyMap::new(), 1, lru)
            .unwrap_err(),
        AdmissionPlanError::NoParallelism { resource }
    );
    let hollow = KeyMap::collect(vec![(resource, layout(1, None, 0))]);
    assert_eq!(
        ResourceAdmissionPlan::build(Some(&identity), &hollow, &parallelism, 1, lru).unwrap_err(),
        AdmissionPlanError::ZeroByteLayout { resource }
    );
    assert!(
        ResourceAdmissionPlan::build(None, &layouts, &parallelism, 1, lru)
            .unwrap()
            .policies()
            .is_empty()
    );
}

#[test]
fn mla_layout_without_head_axis_selects_replicated_data() {
    assert_eq!(
        resolve_parallelism(ParallelismMode::TensorParallel, &layout(16, None, 64)),
        ParallelismMode::ReplicatedData
    );
}

#[test]
fn only_multi_worker_replicated_data_requires_a_collective() {
    assert!(!collective_required(ParallelismMode::ReplicatedData, 1));
    assert!(collective_required(ParallelismMode::ReplicatedData, 2));
    assert!(!collective_required(ParallelismMode::TensorParallel, 2));
}

#[test]
fn replicated_group_gets_one_decodable_nccl_bootstrap() {
    let world_size = build_collective_bootstrap(ParallelismMode::ReplicatedData, 2, true)
        .unwrap()
        .expect("TP=2 replicated data requires a collective");
    assert_eq!(world_size, 2);
}

#[test]
fn mha_layout_keeps_configured_parallelism() {
    assert_eq!(
        resolve_parallelism(ParallelismMode::TensorParallel, &layout(16, Some(4), 64)),
        ParallelismMode::TensorParallel
    );
    assert_eq!(
        resolve_parallelism(ParallelismMode::ReplicatedData, &layout(16, Some(4), 64)),
        ParallelismMode::ReplicatedData
    );
}

#[test]
fn replicated_tiers_aggregate_worker_capacity() {
    assert_eq!(
        logical_tier_block_count(2_000, ParallelismMode::ReplicatedData, 2).unwrap(),
        4_000
    );
}

#[test]
fn tensor_parallel_tiers_keep_per_worker_block_capacity() {
    assert_eq!(
        logical_tier_block_count(2_000, ParallelismMode::TensorParallel, 2).unwrap(),
        2_000
    );
}

#[test]
fn tier_capacity_rejects_empty_groups_and_overflow() {
    assert!(logical_tier_block_count(1, ParallelismMode::ReplicatedData, 0).is_err());
    assert!(logical_tier_block_count(usize::MAX, ParallelismMode::ReplicatedData, 2).is_err());
}

#[test]
fn collectives_are_built_only_where_they_are_required() {
    assert_eq!(
        build_collective_bootstrap(ParallelismMode::ReplicatedData, 2, true),
        Ok(Some(2))
    );
    assert_eq!(
        build_collective_bootstrap(ParallelismMode::TensorParallel, 2, false),
        Ok(None)
    );
    assert_eq!(
        build_collective_bootstrap(ParallelismMode::ReplicatedData, 2, false),
        Err(TopologyError::CollectiveUnavailable { worker_count: 2 })
    );
}

#[test]
fn tiers_follow_the_capacities_of_each_resource() {
    let resource = LogicalResourceId(2);
    let layouts = KeyMap::collect(vec![(resource, layout(4, None, 64))]);
    assert_eq!(block_bytes(&layout(4, None, 64)), Some(64));
    let capacity = |host, disk| KeyMap::collect(vec![(resource, TierCapacity { host, disk })]);
    let tiers = resource_tiers(&layouts, &capacity(Some(10), Some(20))).unwrap();
    assert_eq!(
        tiers.get(&resource),
        Some(&ResourceTierConfig {
            host_block_count: 10,
            disk_block_count: Some(20),
        })
    );
    assert_eq!(
        resource_tiers(&layouts, &capacity(None, None)).unwrap_err(),
        TierError::NoCapacity { resource }
    );
}

#[test]
fn a_plan_needs_agreeing_workers() {
    let capacities = KeyMap::collect(
        [1, 2, 3]
            .map(|id| {
                (
                    LogicalResourceId(id),
                    TierCapacity {
                        host: Some(4),
                        disk: None,
                    },
                )
            })
            .to_vec(),
    );
    let build = |workers: &[WorkerCacheConfig]| {
        ResourcePlan::build(
            workers,
            Some(identity().manifest()),
            Some(&identity()),
            ParallelismMode::TensorParallel,
            &capacities,
            InactiveBackendConfig::Lru,
        )
    };
    let plan = build(&[config(2), config(2)]).unwrap();
    assert_eq!(plan.primary, LogicalResourceId(2));
    assert_eq!(
        plan.parallelism.get(&LogicalResourceId(1)),
        Some(&ParallelismMode::ReplicatedData)
    );
    assert_eq!(plan.tiers.len(), 3);
    assert_eq!(build(&[]).unwrap_err(), ResourcePlanError::NoWorkers);
    assert_eq!(
        build(&[config(2), config(3)]).unwrap_err(),
        ResourcePlanError::LayoutMismatch { rank: 1 }
    );
    assert_eq!(
        build(&[config(9)]).unwrap_err(),
        ResourcePlanError::InvalidWorker {
            rank: 0,
            primary: LogicalResourceId(9),
        }
    );
    assert!(matches!(
        build(&[config(1)]).unwrap_err(),
        ResourcePlanError::Geometry(GeometryError::PrimaryNotCanonical { .. })
    ));
}

fn hash(position: u64) -> SequenceHash {
    SequenceHash::new(u128::from(position) + 1, position)
}

fn pair_identity(id: u128) -> CacheIdentity {
    CacheIdentity::new(
        manifest(id),
        8,
        vec![
            requirement(10, ResourceRole::PrefixHistory, 4),
            requirement(11, ResourceRole::BoundaryCapsule, 8),
        ],
    )
    .unwrap()
}

fn advertisement() -> BundleAdvertisement {
    let identity = pair_identity(4);
    let key = BundleKey::new(&identity, hash(1), 8).unwrap();
    BundleAdvertisement::new(
        identity,
        key,
        3,
        InstanceId(5),
        RegistrationEpoch(6),
        10_000,
        vec![
            BundleResourceLineage {
                resource: LogicalResourceId(10),
                hashes: vec![hash(0), hash(1)],
            },
            BundleResourceLineage {
                resource: LogicalResourceId(11),
                hashes: vec![hash(1)],
            },
        ],
    )
    .unwrap()
}

#[test]
fn a_directory_hit_gives_the_advertisement_back() {
    let offered = advertisement();
    let query = BundleDiscoveryQuery::new(pair_identity(4), vec![offered.key()], 1_000);
    let request = bundle_query_request(&query);
    assert_eq!(request.manifest, manifest(4));
    assert_eq!(
        request.required_resources,
        vec![LogicalResourceId(10), LogicalResourceId(11)]
    );
    assert_eq!(request.candidates, vec![offered.key()]);
    assert_eq!(request.now_unix_ms, 1_000);
    let hit = |lease_expires_at_unix_ms| BundleQueryHit {
        advertisement: advertisement_record(&offered),
        lease_id: uuid::Uuid::from_u128(9),
        lease_expires_at_unix_ms,
    };
    let candidate = directory_hit(&query, hit(9_000)).unwrap();
    assert_eq!(candidate.advertisement(), &offered);
    assert_eq!(candidate.lease_id(), uuid::Uuid::from_u128(9));
    assert_eq!(candidate.lease_expires_at_unix_ms(), 9_000);
    assert_eq!(
        directory_hit(&query, hit(10_001)),
        Err(DirectoryHitError::Lease(
            BundleDirectoryError::LeaseOutlivesAdvertisement
        ))
    );
    let late = BundleDiscoveryQuery::new(pair_identity(4), vec![offered.key()], 10_000);
    assert_eq!(
        directory_hit(&late, hit(9_000)),
        Err(DirectoryHitError::Incompatible)
    );
    let other = BundleDiscoveryQuery::new(pair_identity(5), vec![offered.key()], 1_000);
    assert_eq!(
        directory_hit(&other, hit(9_000)),
        Err(DirectoryHitError::Advertisement(
            BundleDirectoryError::ManifestMismatch
        ))
    );
}

#[test]
fn directory_misses_keep_their_reason() {
    assert_eq!(
        translate_miss_reason(BundleQueryMissReason::NotFound),
        BundleMissReason::NotFound
    );
    assert_eq!(
        translate_miss_reason(BundleQueryMissReason::Incompatible),
        BundleMissReason::Incompatible
    );
    assert_eq!(
        translate_miss_reason(BundleQueryMissReason::Incomplete),
        BundleMissReason::Incomplete
    );
    assert_eq!(
        translate_miss_reason(BundleQueryMissReason::Expired),
        BundleMissReason::Expired
    );
}

#[test]
fn a_slot_plans_complete_bundles_once_per_boundary() {
    let resources = [LogicalResourceId(10), LogicalResourceId(11)];
    let mut slot = RequestSlot::new(vec![hash(0)]);
    slot.push_hash(hash(1));
    slot.sync_full_resource_lists(&resources, &[vec![40], vec![50]]);
    assert!(slot
        .offload_bundle_step(&pair_identity(4), 8, 4)
        .is_none());
    slot.extend_resource_lists(&resources, &[vec![41], vec![]]);
    let plan = slot.offload_bundle_step(&pair_identity(4), 8, 4).unwrap();
    assert_eq!(plan.key.boundary_tokens, 8);
    assert_eq!(plan.key.boundary_hash, hash(1));
    assert_eq!(plan.resources[0].blocks, vec![(hash(0), 40), (hash(1), 41)]);
    assert_eq!(plan.resources[1].blocks, vec![(hash(1), 50)]);
    assert!(validate_bundle_offload(&plan, &KeySet::from_keys(&resources).0).is_ok());
    assert!(slot.finish_bundle_step(8, true));
    assert_eq!(slot.evaluated_tokens(), 8);
    assert!(slot
        .offload_bundle_step(&pair_identity(4), 8, 4)
        .is_none());
}

#[test]
fn a_worker_plans_its_tiers() {
    let primary = LogicalResourceId(1);
    let extra = LogicalResourceId(2);
    let tier = |host_block_count, disk_block_count| ResourceTierConfig {
        host_block_count,
        disk_block_count,
    };
    let mut pending = PendingWorkerResources::new(primary);
    assert!(pending.config().is_err());
    pending.insert(primary, layout(4, None, 64)).unwrap();
    pending.insert(extra, layout(8, None, 64)).unwrap();
    assert!(pending.insert(extra, layout(8, None, 64)).is_err());
    assert_eq!(pending.num_layers(), 2);
    let plan = pending
        .complete_initialization(
            &KeyMap::collect(vec![(extra, tier(6, Some(7)))]),
            tier(4, None),
        )
        .unwrap();
    assert_eq!(plan.primary_tier, tier(4, None));
    assert_eq!(plan.additional, vec![(extra, tier(6, Some(7)))]);
    assert_eq!(plan.missing, None);
    let layouts = additional_layouts(tier(6, Some(7)), false);
    assert_eq!(layouts.host_blocks, Some(6));
    assert_eq!(layouts.disk_blocks, Some(7));
    let mut created = vec![LogicalLayoutHandle::G1, LogicalLayoutHandle::G2];
    merge_created_layouts(
        &mut created,
        &[LogicalLayoutHandle::G2, LogicalLayoutHandle::G3],
    );
    assert_eq!(
        created,
        vec![
            LogicalLayoutHandle::G1,
            LogicalLayoutHandle::G2,
            LogicalLayoutHandle::G3
        ]
    );
}
