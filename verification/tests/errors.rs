//! One input for each way in which a request is refused or fails.

use kvbm_engine::bundle::admission::{
    AdmissionReason, AdmissionSource, BundleAdmissionConfig, BundleOffloadPlan, ResourceOffload,
};
use kvbm_engine::bundle::capsule::{
    CapsuleDescriptor, CapsuleError, CapsulePoolCopy, CapsuleStorage,
};
use kvbm_engine::bundle::catalog::{BundleCatalog, BundleCatalogError};
use kvbm_engine::bundle::index::{BundleIndex, BundleIndexError, BundleLease, PinnedBlock};
use kvbm_engine::bundle::offload::OffloadMode;
use kvbm_engine::connector::layout::{
    LayoutConfig, ResourceTierConfig, UnregisteredPrimary, WorkerCacheConfig,
};
use kvbm_engine::connector::policy::AdmissionPlanError;
use kvbm_engine::connector::resources::{
    resource_tiers, validate_manifest_geometry, GeometryError, ResourcePlan, ResourcePlanError,
    TierCapacity, TierError,
};
use kvbm_engine::connector::topology::{logical_tier_block_count, TopologyError};
use kvbm_engine::connector::worker::{
    AlreadyRegistered, PendingWorkerResources, PrimaryNotRegistered,
};
use kvbm_engine::ids::{
    BundleKey, CacheManifestId, InstanceId, LogicalResourceId, RegistrationEpoch, SequenceHash,
    SessionId,
};
use kvbm_engine::manifest::{
    BundleResourceLineage, CacheIdentity, ResourceRequirement, ResourceRole,
};
use kvbm_engine::offload::plan::{validate_bundle_offload, OffloadPlanError};
use kvbm_engine::onboard::plan::{
    acquire_bundle_sources, searched_bundle_plan, validate_resource_transfers, BundleOnboardPlan,
    OnboardPlanError, ResourceDestination, ResourceOnboard,
};
use kvbm_engine::message::MessagePart;
use kvbm_engine::ordered::{KeyMap, KeySet};
use kvbm_engine::p2p::attached::{AttachedAction, AttachedEvent, AttachedPull};
use kvbm_engine::p2p::integrity::{ParallelismMode, PayloadChecksum};
use kvbm_engine::p2p::session::{SessionEnd, SessionHandle, SessionManager, WatchAction, WatchEvent};
use kvbm_engine::p2p::staging::{
    prepare_payload_verification, CommittedBlock, StagingError, VerifiedCommittedBlock,
};
use kvbm_engine::policy::components::ResourceComponentBytes;
use kvbm_engine::policy::resource::{
    AdmissionInputError, InactiveBackendConfig, ResourcePolicies, ResourcePolicy, RetentionReason,
};
use kvbm_engine::positive::{PositiveU64, PositiveUsize};
use kvbm_engine::remote::cost::CostModel;
use kvbm_engine::remote::deadline::{BundlePullLimits, PullInterruption};
use kvbm_engine::remote::find::{FindEvent, FindMiss, FindReport, RemoteBundleFind};
use kvbm_engine::remote::prefill::{
    BundlePrefill, BundlePrefillRequest, PlanOutcome, PrefillConfig, PrefillEvent,
};
use kvbm_engine::remote::publication::{commit_pulled_bundle, PulledCommitError};
use kvbm_engine::remote::pull::{
    CloseReason, OpenTransferSessionResponse, PullAction, PullEvent, RemoteBundlePull,
    TransferCapability,
};
use kvbm_engine::remote::search::{
    BundleAdvertisement, BundleMissReason, BundlePullOutcome, RemoteBundleCandidate,
};
use kvbm_engine::time::{Duration, Instant};

const HISTORY: LogicalResourceId = LogicalResourceId(10);
const CAPSULE: LogicalResourceId = LogicalResourceId(11);
const STRANGER: LogicalResourceId = LogicalResourceId(99);
const OWNER: InstanceId = InstanceId(5);
const START: Instant = Instant { nanos: 0 };

fn requirement(
    resource: LogicalResourceId,
    role: ResourceRole,
    native_block_tokens: u64,
) -> ResourceRequirement {
    ResourceRequirement {
        resource,
        role,
        native_block_tokens,
    }
}

fn identity_of(manifest: u128) -> CacheIdentity {
    CacheIdentity::new(
        CacheManifestId {
            high: 0,
            low: manifest,
        },
        8,
        vec![
            requirement(HISTORY, ResourceRole::PrefixHistory, 4),
            requirement(CAPSULE, ResourceRole::BoundaryCapsule, 8),
        ],
    )
    .unwrap()
}

fn identity() -> CacheIdentity {
    identity_of(1)
}

fn hash(position: u64) -> SequenceHash {
    SequenceHash::new(u128::from(position) + 1, position)
}

fn key(boundary_tokens: u64) -> BundleKey {
    BundleKey::new(&identity(), hash(boundary_tokens / 4 - 1), boundary_tokens).unwrap()
}

fn positive(value: u64) -> PositiveU64 {
    PositiveU64::new(value).unwrap()
}

fn policy(role: ResourceRole) -> ResourcePolicy {
    ResourcePolicy::new(role, InactiveBackendConfig::Lru, InactiveBackendConfig::Lru)
}

fn offload(resource: LogicalResourceId, blocks: usize) -> ResourceOffload {
    ResourceOffload {
        resource,
        blocks: (0..blocks).map(|at| (hash(at as u64), at)).collect(),
    }
}

fn admission(
    history_widths: Vec<PositiveU64>,
    history_policy: ResourcePolicy,
    history_blocks: usize,
    extra_policy: bool,
) -> AdmissionReason {
    let mut policies = ResourcePolicies::new();
    policies.insert(HISTORY, history_policy).unwrap();
    policies
        .insert(CAPSULE, policy(ResourceRole::BoundaryCapsule))
        .unwrap();
    if extra_policy {
        policies
            .insert(STRANGER, policy(ResourceRole::BoundaryCapsule))
            .unwrap();
    }
    let mut widths = ResourceComponentBytes::new();
    widths.insert(HISTORY, history_widths).unwrap();
    widths.insert(CAPSULE, vec![positive(1)]).unwrap();
    let plan = BundleOffloadPlan {
        identity: identity(),
        key: key(8),
        generation: 1,
        mode: OffloadMode::Mirror,
        resources: vec![offload(HISTORY, history_blocks), offload(CAPSULE, 1)],
    };
    BundleAdmissionConfig::new(policies, widths)
        .admit_bundle(
            &plan,
            &KeySet::from_keys(&[HISTORY, CAPSULE]).0,
            &KeyMap::new(),
        )
        .rejection
        .unwrap()
        .reason
}

/// Shows a message as its reader sees it.
fn shown(parts: &[MessagePart], cause: &str) -> String {
    parts
        .iter()
        .map(|part| match part {
            MessagePart::Text(text) => (*text).to_owned(),
            MessagePart::Number(number) => format!("{number}"),
            MessagePart::Resource(resource) => format!("{resource:?}"),
            MessagePart::Hash(hash) => format!("{hash:?}"),
            MessagePart::Cause => cause.to_owned(),
        })
        .collect()
}

#[test]
fn every_reason_to_keep_a_bundle_out() {
    let history = || policy(ResourceRole::PrefixHistory);
    assert_eq!(
        admission(vec![positive(1)], history(), 2, true),
        AdmissionReason::UnexpectedConfig(AdmissionSource::ResourcePolicy)
    );
    assert_eq!(
        admission(vec![positive(1)], history(), 0, false),
        AdmissionReason::EmptyResource
    );
    assert_eq!(
        admission(vec![positive(u64::MAX)], history(), 2, false),
        AdmissionReason::ByteOverflow
    );
    assert_eq!(
        admission(
            vec![positive(u64::MAX), positive(1)],
            history(),
            1,
            false
        ),
        AdmissionReason::InvalidInput(AdmissionInputError::ByteCountOverflow)
    );
    let pair = history().with_atomic_components(PositiveUsize::new(2).unwrap());
    let partial = admission(vec![positive(3)], pair, 2, false);
    assert_eq!(
        partial,
        AdmissionReason::Dropped {
            reason: RetentionReason::IncompleteAtomicResource,
            bytes: 6,
        }
    );
    assert_eq!(partial.label(), "incomplete_atomic_resource");
}

#[test]
fn every_malformed_capsule() {
    assert_eq!(
        CapsulePoolCopy::new(vec![], vec![]).unwrap_err(),
        CapsuleError::EmptyPool
    );
    assert_eq!(
        CapsuleDescriptor::new(CapsuleStorage::RequestSlots { generation: 1 }, vec![])
            .unwrap_err(),
        CapsuleError::NoPools
    );
}

fn layout(page_size: usize, num_blocks: usize) -> LayoutConfig {
    LayoutConfig {
        num_blocks,
        num_layers: 1,
        page_size,
        num_heads: None,
        bytes_per_block: 16,
        required_bytes: 16 * num_blocks,
    }
}

#[test]
fn every_layout_that_does_not_fit() {
    let uneven = CacheIdentity::new(
        CacheManifestId { high: 0, low: 1 },
        12,
        vec![
            requirement(HISTORY, ResourceRole::PrefixHistory, 4),
            requirement(CAPSULE, ResourceRole::PrefixHistory, 6),
        ],
    )
    .unwrap();
    let worker = |primary| WorkerCacheConfig {
        manifest: Some(CacheManifestId { high: 0, low: 1 }),
        primary,
        resources: KeyMap::collect(vec![(HISTORY, layout(4, 8)), (CAPSULE, layout(6, 8))]),
    };
    assert_eq!(
        validate_manifest_geometry(&uneven, &worker(HISTORY)),
        Err(GeometryError::NotProjectable {
            resource: CAPSULE,
            native: 6,
            canonical: 4,
        })
    );
    assert_eq!(
        worker(STRANGER).validate(),
        Err(UnregisteredPrimary { primary: STRANGER })
    );
    let capacity = |blocks| TierCapacity {
        host: Some(blocks),
        disk: None,
    };
    assert_eq!(
        resource_tiers(
            &KeyMap::collect(vec![(HISTORY, layout(4, 0))]),
            &KeyMap::collect(vec![(HISTORY, capacity(5))]),
        )
        .unwrap_err(),
        TierError::ZeroBlocks { resource: HISTORY }
    );
    let plan = |expected_manifest, page: usize, host, bytes_per_block| {
        let mut history = layout(page, 8);
        history.bytes_per_block = bytes_per_block;
        let workers = [WorkerCacheConfig {
            manifest: Some(identity().manifest()),
            primary: HISTORY,
            resources: KeyMap::collect(vec![(HISTORY, history), (CAPSULE, layout(8, 8))]),
        }];
        ResourcePlan::build(
            &workers,
            expected_manifest,
            Some(&identity()),
            ParallelismMode::TensorParallel,
            &KeyMap::collect(vec![(HISTORY, capacity(host)), (CAPSULE, capacity(4))]),
            InactiveBackendConfig::Lru,
        )
        .unwrap_err()
    };
    let manifest = Some(identity().manifest());
    assert_eq!(plan(None, 4, 4, 16), ResourcePlanError::ManifestMismatch);
    assert_eq!(
        plan(manifest, 2, 4, 16),
        ResourcePlanError::Geometry(GeometryError::BlockSize {
            resource: HISTORY,
            physical: 2,
            native: 4,
        })
    );
    assert_eq!(
        plan(manifest, 4, 1, 16),
        ResourcePlanError::Tier(TierError::NoCapacity { resource: HISTORY })
    );
    assert_eq!(
        plan(manifest, 4, 4, 0),
        ResourcePlanError::Admission(AdmissionPlanError::ZeroByteLayout { resource: HISTORY })
    );
    assert_eq!(
        logical_tier_block_count(1, ParallelismMode::TensorParallel, 0),
        Err(TopologyError::NoWorkers)
    );
    assert_eq!(
        logical_tier_block_count(usize::MAX, ParallelismMode::ReplicatedData, 2),
        Err(TopologyError::CapacityOverflow {
            per_worker_blocks: usize::MAX,
            worker_count: 2,
        })
    );
}

#[test]
fn every_unfinished_worker() {
    let tier = ResourceTierConfig {
        host_block_count: 1,
        disk_block_count: None,
    };
    let mut pending = PendingWorkerResources::new(HISTORY);
    assert_eq!(
        pending
            .complete_initialization(&KeyMap::new(), tier)
            .unwrap_err(),
        PrimaryNotRegistered { primary: HISTORY }
    );
    pending.insert(HISTORY, layout(4, 8)).unwrap();
    assert_eq!(
        pending.insert(HISTORY, layout(4, 8)),
        Err(AlreadyRegistered { resource: HISTORY })
    );
    pending.insert(CAPSULE, layout(8, 8)).unwrap();
    let plan = pending
        .complete_initialization(&KeyMap::new(), tier)
        .unwrap();
    assert_eq!(plan.missing, Some(CAPSULE));
    assert!(plan.additional.is_empty());
}

#[test]
fn every_offload_that_is_not_started() {
    let stranger = BundleOffloadPlan {
        identity: identity(),
        key: key(8),
        generation: 1,
        mode: OffloadMode::Mirror,
        resources: vec![offload(STRANGER, 1)],
    };
    assert_eq!(
        validate_bundle_offload(&stranger, &KeySet::from_keys(&[STRANGER]).0).unwrap_err(),
        OffloadPlanError::AbsentResource { resource: STRANGER }
    );
}

fn pinned(position: u64, block_id: usize) -> PinnedBlock<()> {
    PinnedBlock {
        block_id,
        sequence_hash: hash(position),
        handle: (),
    }
}

fn lease() -> BundleLease<Vec<PinnedBlock<()>>> {
    let mut index = BundleIndex::new();
    index
        .commit(
            &identity(),
            key(8),
            1,
            vec![
                (HISTORY, vec![pinned(0, 100), pinned(1, 101)]),
                (CAPSULE, vec![pinned(1, 200)]),
            ],
        )
        .unwrap();
    index.lease_exact(&identity(), &key(8)).unwrap()
}

#[test]
fn every_load_that_is_not_started() {
    let copy = |resource, blocks: Vec<usize>| ResourceOnboard {
        resource,
        source_block_ids: blocks.clone(),
        destination_block_ids: blocks,
    };
    let managed = KeySet::from_keys(&[HISTORY, CAPSULE]).0;
    assert_eq!(
        validate_resource_transfers(
            &[copy(HISTORY, vec![1]), copy(HISTORY, vec![2])],
            &managed
        ),
        Err(OnboardPlanError::DuplicateResource { resource: HISTORY })
    );
    let plan = BundleOnboardPlan {
        identity: identity(),
        key: key(8),
        resources: vec![copy(STRANGER, vec![1])],
    };
    assert_eq!(
        acquire_bundle_sources(&plan, Some(lease())).unwrap_err(),
        OnboardPlanError::MissingLease { resource: STRANGER }
    );
    let to = |resource, blocks: usize| ResourceDestination {
        resource,
        block_ids: (0..blocks).collect(),
    };
    let searched = |leased: Option<&BundleLease<Vec<PinnedBlock<()>>>>, computed, destinations| {
        searched_bundle_plan(&identity(), leased, computed, destinations).unwrap_err()
    };
    let leased = lease();
    assert_eq!(
        searched(
            Some(&leased),
            0,
            vec![to(HISTORY, 2), to(HISTORY, 2), to(CAPSULE, 1)]
        ),
        OnboardPlanError::DuplicateDestination { resource: HISTORY }
    );
    assert_eq!(
        searched(Some(&leased), 0, vec![to(HISTORY, 2)]),
        OnboardPlanError::DestinationCount
    );
    assert_eq!(
        searched(None, 0, vec![to(HISTORY, 2), to(CAPSULE, 1)]),
        OnboardPlanError::NoLease
    );
    assert_eq!(
        searched(Some(&leased), 0, vec![to(HISTORY, 2), to(STRANGER, 1)]),
        OnboardPlanError::MissingDestination { resource: CAPSULE }
    );
    assert_eq!(
        searched(Some(&leased), 0, vec![to(HISTORY, 1), to(CAPSULE, 1)]),
        OnboardPlanError::Uncovered {
            resource: HISTORY,
            first: 0,
            end: 2,
        }
    );
}

fn record(ordinal: u32) -> VerifiedCommittedBlock {
    VerifiedCommittedBlock {
        block: CommittedBlock {
            hash: hash(0),
            peer_block_id: 4,
        },
        ordinal,
        checksum: PayloadChecksum::from_test_bytes([1; 32]),
    }
}

#[test]
fn every_pull_that_cannot_be_staged() {
    assert_eq!(
        prepare_payload_verification(&KeyMap::new(), &[record(0)], &[7]).unwrap_err(),
        StagingError::UnknownHash { hash: hash(0) }
    );
    let asked = || {
        let (mut pull, _) = AttachedPull::new(vec![hash(0)], None, true).unwrap();
        pull.step(AttachedEvent::Verified(vec![record(0)]));
        pull
    };
    assert!(matches!(
        asked().step(AttachedEvent::PullFailed),
        AttachedAction::Fail(StagingError::PullFailed)
    ));
    assert!(matches!(
        asked().step(AttachedEvent::Filled(vec![])),
        AttachedAction::Fail(StagingError::PulledCount {
            returned: 0,
            expected: 1
        })
    ));
    let mut filled = asked();
    filled.step(AttachedEvent::Filled(vec![7]));
    assert!(matches!(
        filled.step(AttachedEvent::ChecksumsUnavailable),
        AttachedAction::Fail(StagingError::ChecksumUnavailable)
    ));
    assert!(matches!(
        AttachedPull::new(vec![], None, true).unwrap().1,
        AttachedAction::Finish { host_blocks: 0, .. }
    ));
}

#[test]
fn every_end_of_a_session() {
    for (event, end, text) in [
        (WatchEvent::Detached, SessionEnd::Detached, "session detached: gone"),
        (WatchEvent::Failed, SessionEnd::Failed, "session failed: gone"),
        (
            WatchEvent::StreamEnded,
            SessionEnd::StreamEnded,
            "lifecycle stream ended",
        ),
    ] {
        let mut manager = SessionManager::new(Duration::from_secs(1));
        let mut watch = manager.register(SessionId(1), SessionHandle(2));
        assert_eq!(watch.step(event), WatchAction::Close(end));
        assert_eq!(shown(&end.message(), "gone"), text);
    }
}

fn candidate() -> RemoteBundleCandidate {
    let lineage = |resource, hashes| BundleResourceLineage { resource, hashes };
    let advertisement = BundleAdvertisement::new(
        identity(),
        key(8),
        3,
        OWNER,
        RegistrationEpoch(6),
        30_000,
        vec![
            lineage(HISTORY, vec![hash(0), hash(1)]),
            lineage(CAPSULE, vec![hash(1)]),
        ],
    )
    .unwrap();
    RemoteBundleCandidate::new(advertisement, uuid::Uuid::from_u128(7), 20_000).unwrap()
}

fn opening() -> RemoteBundlePull {
    let mut pull = RemoteBundlePull::new(
        candidate(),
        identity(),
        START.plus(Duration::from_secs(2)),
        BundlePullLimits::production(),
    );
    pull.step(PullEvent::Started {
        canceled: false,
        now_unix_ms: 1_000,
    });
    pull.step(PullEvent::Reserved {
        generation: Some(4),
        now_unix_ms: 1_000,
        now: START,
    });
    pull
}

fn capability(instance_id: InstanceId) -> TransferCapability {
    TransferCapability {
        session: SessionId(1),
        instance_id,
        resource: HISTORY,
    }
}

#[test]
fn every_opening_that_closes_all_sessions() {
    let opened = |response| PullEvent::Opened {
        response,
        now: START,
    };
    for (event, why, miss) in [
        (
            PullEvent::OpenFailed(BundleMissReason::OwnerLost),
            CloseReason::AcquisitionFailed,
            BundleMissReason::OwnerLost,
        ),
        (
            PullEvent::Interrupted(PullInterruption::Deadline),
            CloseReason::AcquisitionInterrupted,
            BundleMissReason::TimedOut,
        ),
        (
            opened(OpenTransferSessionResponse::Async {
                capability: capability(OWNER),
            }),
            CloseReason::UnexpectedAsync,
            BundleMissReason::Incomplete,
        ),
        (
            opened(OpenTransferSessionResponse::Async {
                capability: capability(InstanceId(9)),
            }),
            CloseReason::UnexpectedAsync,
            BundleMissReason::OwnerLost,
        ),
        (
            opened(OpenTransferSessionResponse::Sync {
                capability: capability(OWNER),
                committed: vec![hash(0)],
            }),
            CloseReason::IncompleteAcquisition,
            BundleMissReason::Incomplete,
        ),
    ] {
        let mut pull = opening();
        assert!(matches!(pull.step(event), PullAction::CloseAll(reason) if reason == why));
        assert!(matches!(
            pull.step(PullEvent::Closed),
            PullAction::Finish(BundlePullOutcome::Miss(reason)) if reason == miss
        ));
    }
}

#[test]
fn every_lookup_that_fails_after_a_hit() {
    let hit = || {
        let mut find: RemoteBundleFind<u8> = RemoteBundleFind::new(vec![key(8)], key(8), None);
        find.step(FindEvent::Hit(key(8)));
        find
    };
    assert_eq!(
        hit().step(FindEvent::PullFailed).1,
        FindReport::RemoteMiss(FindMiss::TransferFailed)
    );
    let mut committed = hit();
    committed.step(FindEvent::Pulled(BundlePullOutcome::Pulled(key(8))));
    let (_, report) = committed.step(FindEvent::Leased(None));
    assert_eq!(report, FindReport::RemoteMiss(FindMiss::CommitFailed));
    assert_eq!(report.labels(), Some(("remote_miss", "commit_failed")));
}

#[test]
fn every_prefill_that_gives_its_target_up() {
    let discovering = |target| {
        let mut prefill = BundlePrefill::new(
            BundlePrefillRequest {
                identity: identity(),
                target,
                seed: None,
                num_computed_tokens: 0,
                total_tokens: 64,
            },
            Some(PrefillConfig {
                bundle_bytes_per_token: 0,
                cost: CostModel::new(Duration::from_nanos(0), 0, 0, None),
                decision_margin: Duration::from_nanos(0),
                bundle_prefill_timeout: Duration::from_secs(1),
                bundle_prefill_poll: Duration::from_millis(5),
                block_size: 4,
            }),
            START.plus(Duration::from_secs(60)),
        );
        prefill.step(PrefillEvent::Started);
        prefill.step(PrefillEvent::Estimated {
            local_estimate: Some(Duration::from_secs(1)),
        });
        prefill.step(PrefillEvent::Planned {
            outcome: PlanOutcome::Remote {
                full_block_external_tokens: 8,
            },
            now: START,
        });
        prefill.step(PrefillEvent::Dispatched);
        prefill
    };
    let label = |report: Option<kvbm_engine::remote::prefill::PrefillReport>| {
        report.unwrap().labels().1
    };
    let mut other = discovering(key(16));
    assert_eq!(
        label(other.step(PrefillEvent::Hit(Box::new(candidate()))).report),
        "target_incompatible"
    );
    let mut swapped = discovering(key(8));
    swapped.step(PrefillEvent::Hit(Box::new(candidate())));
    assert_eq!(
        label(
            swapped
                .step(PrefillEvent::Pulled(BundlePullOutcome::Pulled(key(16))))
                .report
        ),
        "target_incompatible"
    );
    let mut expired = discovering(key(8));
    assert_eq!(
        label(
            expired
                .step(PrefillEvent::Missed(BundleMissReason::Expired))
                .report
        ),
        "expired"
    );
    let mut broken = discovering(key(8));
    broken.step(PrefillEvent::Hit(Box::new(candidate())));
    assert_eq!(
        label(broken.step(PrefillEvent::PullFailed).report),
        "transfer_failed"
    );
}

#[test]
fn every_pulled_bundle_that_is_not_committed() {
    let commit = |wanted, pins, generation| {
        let mut catalog: BundleCatalog<Vec<PinnedBlock<()>>> = BundleCatalog::new();
        commit_pulled_bundle(
            &mut catalog,
            identity(),
            key(8),
            generation,
            &KeyMap::collect(wanted),
            KeyMap::collect(pins),
        )
        .unwrap_err()
    };
    let history = || (HISTORY, vec![hash(0), hash(1)]);
    let history_pins = || (HISTORY, vec![pinned(0, 1), pinned(1, 2)]);
    assert_eq!(
        commit(vec![history()], vec![history_pins()], 1),
        PulledCommitError::MissingLineage { resource: CAPSULE }
    );
    assert_eq!(
        commit(
            vec![history(), (CAPSULE, vec![hash(1)])],
            vec![history_pins()],
            1
        ),
        PulledCommitError::NoManager { resource: CAPSULE }
    );
    let mut catalog: BundleCatalog<Vec<PinnedBlock<()>>> = BundleCatalog::new();
    let mut newer = |generation| {
        commit_pulled_bundle(
            &mut catalog,
            identity(),
            key(8),
            generation,
            &KeyMap::collect(vec![history(), (CAPSULE, vec![hash(1)])]),
            KeyMap::collect(vec![history_pins(), (CAPSULE, vec![pinned(1, 3)])]),
        )
    };
    newer(5).unwrap();
    assert_eq!(
        newer(4).unwrap_err(),
        PulledCommitError::Catalog(BundleCatalogError::Index(
            BundleIndexError::StaleGeneration {
                current: 5,
                attempted: 4,
            }
        ))
    );
}

#[test]
fn every_message_of_a_failed_staging() {
    let resource = LogicalResourceId(7);
    let first = hash(0);
    for (error, text) in [
        (
            StagingError::OrdinalOverflow,
            "payload_checksum_order_overflow: committed ordinal exceeds u32".to_owned(),
        ),
        (
            StagingError::HashesNotCommitted { missing: 2 },
            "hashes_not_committed: 2 hash(es) in selector are not committed".to_owned(),
        ),
        (
            StagingError::Unverified,
            "payload_checksum_unverified: bundle pull received unverified availability".to_owned(),
        ),
        (
            StagingError::AllocationFailed { blocks: 3 },
            "pull: failed to allocate 3 G2 mutable blocks".to_owned(),
        ),
        (StagingError::PullFailed, "session.pull: gone".to_owned()),
        (
            StagingError::PulledCount {
                returned: 1,
                expected: 2,
            },
            "pull: session.pull returned 1 blocks, expected 2".to_owned(),
        ),
        (
            StagingError::UnknownHash { hash: first },
            format!("payload_checksum_unknown_hash: resource {resource:?} hash {first:?}"),
        ),
        (
            StagingError::OrderMismatch {
                hash: first,
                advertised: 1,
                expected: 0,
            },
            format!(
                "payload_checksum_order_mismatch: resource {resource:?} hash {first:?} advertised ordinal 1, expected 0"
            ),
        ),
        (
            StagingError::ChecksumUnavailable,
            format!("payload_checksum_unavailable: resource {resource:?}: gone"),
        ),
        (
            StagingError::ChecksumMismatch { hash: first },
            format!("payload_checksum_mismatch: resource {resource:?} hash {first:?}"),
        ),
        (
            StagingError::StageFailed,
            "stage pulled block: gone".to_owned(),
        ),
        (
            StagingError::Drained {
                pulled: 1,
                wanted: 2,
            },
            "pull: availability drained with 1 of 2 target hashes pulled".to_owned(),
        ),
        (
            StagingError::MissingDestination { hash: first },
            format!("pull: selected hash {first:?} has no staged destination"),
        ),
        (
            StagingError::OutsideSelector { blocks: 4 },
            "pull: 4 staged destination(s) were outside the selector".to_owned(),
        ),
    ] {
        assert_eq!(shown(&error.message(resource), "gone"), text);
    }
}

#[test]
fn every_message_of_a_layout_that_does_not_fit() {
    let resource = HISTORY;
    for (error, text) in [
        (
            GeometryError::PrimaryNotCanonical {
                primary: CAPSULE,
                canonical: HISTORY,
            },
            format!("primary resource {CAPSULE:?} is not canonical prefix history {HISTORY:?}"),
        ),
        (
            GeometryError::CanonicalSizeOverflow { resource },
            "canonical prefix history native block size does not fit usize".to_owned(),
        ),
        (
            GeometryError::NativeSizeOverflow { resource },
            "manifest native block size does not fit usize".to_owned(),
        ),
        (
            GeometryError::BlockSize {
                resource,
                physical: 8,
                native: 4,
            },
            format!(
                "resource {resource:?} physical block size 8 does not match manifest native block size 4"
            ),
        ),
        (
            GeometryError::NotProjectable {
                resource,
                native: 6,
                canonical: 4,
            },
            format!(
                "prefix history {resource:?} native block size 6 is not projectable from canonical size 4"
            ),
        ),
    ] {
        assert_eq!(shown(&error.message(), ""), text);
    }
    assert_eq!(
        shown(&GeometryError::ManifestMismatch.message(), ""),
        "worker cache manifest id does not match its registered cache identity"
    );
}
