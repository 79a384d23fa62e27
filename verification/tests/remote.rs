//! Remote pulls, lookups, placement, prefills and publications.

use kvbm_engine::bundle::catalog::BundleCatalog;
use kvbm_engine::bundle::index::{BundleIndex, PinnedBlock};
use kvbm_engine::bundle::searches::RemoteBundleResolution;
use kvbm_engine::ids::{
    BundleKey, CacheManifestId, InstanceId, LogicalResourceId, RegistrationEpoch, SequenceHash,
    SessionId,
};
use kvbm_engine::manifest::{
    BundleResourceLineage, CacheIdentity, ResourceRequirement, ResourceRole,
};
use kvbm_engine::ordered::KeyMap;
use kvbm_engine::policy::dependency::ResourceLineage;
use kvbm_engine::remote::cost::{estimate_nanos, CostModel};
use kvbm_engine::remote::deadline::{BundlePullLimits, PullDeadline, PullInterruption};
use kvbm_engine::remote::find::{
    best_local_candidate, FindAction, FindEvent, FindMiss, FindReport, RemoteBundleFind,
};
use kvbm_engine::remote::metrics::PullMetrics;
use kvbm_engine::remote::order::{stripe, ORDER_STRIPES};
use kvbm_engine::remote::placement::{
    decide, LocalPlacementReason, PlacementDecision, PlacementInputs,
};
use kvbm_engine::remote::prefill::{
    BundlePrefill, BundlePrefillRequest, LocalReason, PlanOutcome, PrefillAction, PrefillConfig,
    PrefillEvent, PrefillReport,
};
use kvbm_engine::remote::publication::{
    advertisement_expiry, commit_pulled_bundle, invalidate_resource_blocks, refresh_batch_end,
    BundlePublication, BundlePublications, PulledCommitError, BUNDLE_DIRECTORY_TTL_MS,
};
use kvbm_engine::remote::pull::{
    merge_reason, staged_blocks, CloseReason, OpenTransferSessionResponse, PullAction, PullEvent,
    RemoteBundlePull, ResourcePull, TransferCapability,
};
use kvbm_engine::remote::search::{
    BundleAdvertisement, BundleInvalidation, BundleMissReason, BundlePullOutcome,
    RemoteBundleCandidate,
};
use kvbm_engine::time::{Duration, Instant};

const RESOURCES: [LogicalResourceId; 3] = [
    LogicalResourceId(10),
    LogicalResourceId(11),
    LogicalResourceId(12),
];
const OWNER: InstanceId = InstanceId(5);
const START: Instant = Instant { nanos: 0 };

fn identity_of(manifest: u128) -> CacheIdentity {
    let requirement = |resource, role, native_block_tokens| ResourceRequirement {
        resource,
        role,
        native_block_tokens,
    };
    CacheIdentity::new(
        CacheManifestId {
            high: 0,
            low: manifest,
        },
        8,
        vec![
            requirement(RESOURCES[0], ResourceRole::PrefixHistory, 4),
            requirement(RESOURCES[1], ResourceRole::PrefixHistory, 4),
            requirement(RESOURCES[2], ResourceRole::BoundaryCapsule, 8),
        ],
    )
    .unwrap()
}

fn identity() -> CacheIdentity {
    identity_of(8)
}

fn hash(position: u64) -> SequenceHash {
    SequenceHash::new(u128::from(position) + 1, position)
}

fn key(boundary_tokens: u64) -> BundleKey {
    BundleKey::new(&identity(), hash(boundary_tokens / 4 - 1), boundary_tokens).unwrap()
}

fn lineages() -> Vec<BundleResourceLineage> {
    let lineage = |resource, hashes| BundleResourceLineage { resource, hashes };
    vec![
        lineage(RESOURCES[0], vec![hash(0), hash(1)]),
        lineage(RESOURCES[1], vec![hash(0), hash(1)]),
        lineage(RESOURCES[2], vec![hash(1)]),
    ]
}

fn candidate() -> RemoteBundleCandidate {
    let advertisement = BundleAdvertisement::new(
        identity(),
        key(8),
        3,
        OWNER,
        RegistrationEpoch(6),
        30_000,
        lineages(),
    )
    .unwrap();
    RemoteBundleCandidate::new(advertisement, uuid::Uuid::from_u128(7), 20_000).unwrap()
}

fn pull_for(expected: CacheIdentity) -> RemoteBundlePull {
    RemoteBundlePull::new(
        candidate(),
        expected,
        START.plus(Duration::from_secs(2)),
        BundlePullLimits::production(),
    )
}

fn start(pull: &mut RemoteBundlePull) -> PullAction {
    let action = pull.step(PullEvent::Started {
        canceled: false,
        now_unix_ms: 1_000,
    });
    assert!(matches!(action, PullAction::ReserveGeneration));
    pull.step(PullEvent::Reserved {
        generation: Some(4),
        now_unix_ms: 1_000,
        now: START,
    })
}

fn sync(owner: InstanceId, resource: LogicalResourceId, committed: Vec<SequenceHash>) -> PullEvent {
    PullEvent::Opened {
        response: OpenTransferSessionResponse::Sync {
            capability: TransferCapability {
                session: SessionId(u128::from(resource.0)),
                instance_id: owner,
                resource,
            },
            committed,
        },
        now: START,
    }
}

fn open_all(pull: &mut RemoteBundlePull) {
    let mut action = start(pull);
    let mut opened = 0;
    while let PullAction::Open {
        resource, hashes, ..
    } = action
    {
        assert_eq!(resource, RESOURCES[opened]);
        action = pull.step(sync(OWNER, resource, hashes));
        opened += 1;
    }
    assert_eq!(opened, 3);
    assert!(matches!(action, PullAction::PullAll));
}

fn staged(pull: &RemoteBundlePull) -> Vec<ResourcePull> {
    pull.opened()
        .iter()
        .map(|opened| ResourcePull::Staged {
            resource: opened.resource,
            hashes: opened.hashes.clone(),
        })
        .collect()
}

fn pulled(pull: &mut RemoteBundlePull, pulls: Vec<ResourcePull>) -> PullAction {
    pull.step(PullEvent::Pulled {
        pulls,
        canceled: false,
        now_unix_ms: 1_000,
    })
}

fn missed(action: PullAction) -> Option<BundleMissReason> {
    match action {
        PullAction::Finish(BundlePullOutcome::Miss(reason)) => Some(reason),
        _ => None,
    }
}

#[test]
fn every_resource_is_pulled_before_the_local_commit() {
    let mut pull = pull_for(identity());
    open_all(&mut pull);
    let pulls = staged(&pull);
    assert_eq!(
        staged_blocks(pull.opened(), &pulls),
        vec![(RESOURCES[0], 2), (RESOURCES[1], 2), (RESOURCES[2], 1)]
    );
    assert!(matches!(
        pulled(&mut pull, pulls),
        PullAction::Commit { key: committed, generation: 4 } if committed == key(8)
    ));
    assert!(matches!(
        pull.step(PullEvent::Committed),
        PullAction::Finish(BundlePullOutcome::Pulled(pulled)) if pulled == key(8)
    ));
    assert!(matches!(pull.step(PullEvent::Committed), PullAction::Ignore));
}

#[test]
fn an_omitted_resource_aborts_without_a_commit() {
    let mut pull = pull_for(identity());
    let PullAction::Open {
        resource, hashes, ..
    } = start(&mut pull)
    else {
        panic!("the first resource is opened")
    };
    assert!(matches!(
        pull.step(sync(OWNER, resource, hashes)),
        PullAction::Open { resource, .. } if resource == RESOURCES[1]
    ));
    assert!(matches!(
        pull.step(PullEvent::Opened {
            response: OpenTransferSessionResponse::NoBlocksFound,
            now: START,
        }),
        PullAction::CloseAll(CloseReason::ResourceOmitted)
    ));
    assert_eq!(
        missed(pull.step(PullEvent::Closed)),
        Some(BundleMissReason::Incomplete)
    );
}

#[test]
fn a_changed_holder_aborts_without_a_commit() {
    let mut pull = pull_for(identity());
    let PullAction::Open {
        resource, hashes, ..
    } = start(&mut pull)
    else {
        panic!("the first resource is opened")
    };
    let action = pull.step(sync(InstanceId(9), resource, hashes));
    assert!(matches!(
        action,
        PullAction::CloseAll(CloseReason::HolderChanged)
    ));
    assert_eq!(
        CloseReason::HolderChanged.as_text(),
        "bundle holder identity changed"
    );
    assert_eq!(pull.opened().len(), 1);
    assert_eq!(
        missed(pull.step(PullEvent::Closed)),
        Some(BundleMissReason::OwnerLost)
    );
}

#[test]
fn a_pull_refuses_before_it_opens_anything() {
    let refused = |canceled, now_unix_ms, expected| {
        let mut pull = pull_for(expected);
        missed(pull.step(PullEvent::Started {
            canceled,
            now_unix_ms,
        }))
    };
    assert_eq!(
        refused(true, 1_000, identity()),
        Some(BundleMissReason::Canceled)
    );
    assert_eq!(
        refused(false, 20_000, identity()),
        Some(BundleMissReason::Expired)
    );
    assert_eq!(
        refused(false, 1_000, identity_of(9)),
        Some(BundleMissReason::Incompatible)
    );
    let mut exhausted = pull_for(identity());
    exhausted.step(PullEvent::Started {
        canceled: false,
        now_unix_ms: 1_000,
    });
    assert_eq!(
        missed(exhausted.step(PullEvent::Reserved {
            generation: None,
            now_unix_ms: 1_000,
            now: START,
        })),
        Some(BundleMissReason::CommitFailed)
    );
}

#[test]
fn the_most_urgent_reason_is_reported() {
    let mut pull = pull_for(identity());
    open_all(&mut pull);
    let mut pulls = staged(&pull);
    pulls[0] = ResourcePull::TaskFailed;
    pulls[1] = ResourcePull::Failed(BundleMissReason::OwnerLost);
    pulls[2] = ResourcePull::Interrupted(PullInterruption::Deadline);
    assert_eq!(
        missed(pulled(&mut pull, pulls)),
        Some(BundleMissReason::OwnerLost)
    );
    let mut swapped = pull_for(identity());
    open_all(&mut swapped);
    let mut pulls = staged(&swapped);
    pulls[2] = ResourcePull::Staged {
        resource: RESOURCES[2],
        hashes: vec![hash(0)],
    };
    assert_eq!(
        missed(pulled(&mut swapped, pulls)),
        Some(BundleMissReason::Incomplete)
    );
    assert_eq!(
        merge_reason(
            Some(BundleMissReason::TimedOut),
            BundleMissReason::ChecksumFailed
        ),
        Some(BundleMissReason::TimedOut)
    );
    assert_eq!(
        merge_reason(
            Some(BundleMissReason::NotFound),
            BundleMissReason::Incomplete
        ),
        Some(BundleMissReason::Incomplete)
    );
}

#[test]
fn a_failed_or_interrupted_commit_is_a_miss() {
    let committing = || {
        let mut pull = pull_for(identity());
        open_all(&mut pull);
        let pulls = staged(&pull);
        pulled(&mut pull, pulls);
        pull
    };
    assert_eq!(
        missed(committing().step(PullEvent::CommitFailed)),
        Some(BundleMissReason::CommitFailed)
    );
    assert_eq!(
        missed(committing().step(PullEvent::Interrupted(PullInterruption::Canceled))),
        Some(BundleMissReason::Canceled)
    );
    assert_eq!(
        missed(committing().step(PullEvent::Interrupted(PullInterruption::Deadline))),
        Some(BundleMissReason::TimedOut)
    );
}

#[test]
fn deadlines_end_with_the_lease_or_the_search() {
    let search = START.plus(Duration::from_secs(60));
    let by_lease = PullDeadline::new(20_000, search, 10_000, START);
    assert!(by_lease.lease_limited);
    assert_eq!(by_lease.remaining(START), Duration::from_secs(10));
    assert_eq!(
        by_lease.reason(PullInterruption::Deadline),
        BundleMissReason::Expired
    );
    let by_search = PullDeadline::new(100_000, search, 10_000, START);
    assert!(!by_search.lease_limited);
    assert_eq!(
        by_search.watchdog(&BundlePullLimits::production(), START),
        Duration::from_secs(30)
    );
    assert_eq!(
        by_search.watchdog(&BundlePullLimits::production(), search),
        Duration::from_millis(1)
    );
}

#[test]
fn pulls_are_counted_by_resource_and_outcome() {
    let mut metrics = PullMetrics::new(&RESOURCES);
    metrics.observe_transferred_bytes(RESOURCES[1], 64);
    metrics.observe_transferred_bytes(LogicalResourceId(99), 1);
    assert_eq!(
        metrics.record(),
        vec![(RESOURCES[0], 0), (RESOURCES[1], 64), (RESOURCES[2], 0)]
    );
    let labels = PullMetrics::labels(Some(BundlePullOutcome::Miss(BundleMissReason::Expired)));
    assert_eq!(labels.transaction, "abort");
    assert_eq!(labels.reason, "expired");
    assert_eq!(PullMetrics::labels(None).reason, "internal_error");
    let labels = PullMetrics::labels(Some(BundlePullOutcome::Pulled(key(8))));
    assert_eq!(labels.resource_outcome, "committed");
}

#[test]
fn estimate_combines_fixed_transfer_and_compute_without_floats() {
    let model = CostModel::new(Duration::from_millis(2), 1_000, 500, None);
    assert_eq!(model.estimate(500, 1_000), Duration::from_millis(2_002));
}

#[test]
fn estimates_round_up_and_ignore_unknown_rates() {
    assert_eq!(estimate_nanos(1, 3), 333_333_334);
    assert_eq!(estimate_nanos(5, 0), 0);
    let model = CostModel::new(Duration::from_millis(2), 3, 7, None);
    assert!(model.estimate(5, 10).at_most(model.estimate(6, 10)));
    assert!(model.estimate(5, 10).at_most(model.estimate(5, 11)));
    let bounded = CostModel::new(
        Duration::from_millis(1),
        0,
        0,
        Some(Duration::from_millis(1)),
    );
    assert!(bounded.allows(9, 9));
    let over = CostModel::new(
        Duration::from_millis(2),
        0,
        0,
        Some(Duration::from_millis(1)),
    );
    assert!(!over.allows(0, 0));
}

fn inputs(remote: Duration, margin: Duration) -> PlacementInputs {
    PlacementInputs {
        target_tokens: 8,
        seed_tokens: 4,
        computed_tokens: 0,
        bundle_bytes: 0,
        local_estimate: Some(Duration::from_millis(10)),
        remote: CostModel::new(remote, 0, 0, None),
        margin,
    }
}

#[test]
fn equality_stays_local() {
    assert!(matches!(
        decide(inputs(Duration::from_millis(10), Duration::from_nanos(0))),
        PlacementDecision::Local {
            reason: LocalPlacementReason::CostComparison,
            ..
        }
    ));
}

#[test]
fn configured_margin_must_also_be_won() {
    assert!(matches!(
        decide(inputs(Duration::from_millis(9), Duration::from_millis(2))),
        PlacementDecision::Local {
            reason: LocalPlacementReason::CostComparison,
            ..
        }
    ));
    assert!(matches!(
        decide(inputs(Duration::from_millis(9), Duration::from_nanos(0))),
        PlacementDecision::Remote { .. }
    ));
}

#[test]
fn work_is_measured_from_best_seed_and_local_readiness() {
    let mut inputs = inputs(Duration::from_nanos(0), Duration::from_nanos(0));
    inputs.target_tokens = 16;
    inputs.seed_tokens = 8;
    inputs.computed_tokens = 12;
    let PlacementDecision::Remote { costs } = decide(inputs) else {
        panic!("zero-cost remote should win")
    };
    assert_eq!(costs.local_work_tokens, 4);
    assert_eq!(costs.remote_work_tokens, 8);
}

#[test]
fn placement_without_work_or_estimate_stays_local() {
    let mut idle = inputs(Duration::from_nanos(0), Duration::from_nanos(0));
    idle.seed_tokens = 8;
    assert!(matches!(
        decide(idle),
        PlacementDecision::Local {
            reason: LocalPlacementReason::NoRemoteWork,
            ..
        }
    ));
    let mut unknown = inputs(Duration::from_nanos(0), Duration::from_nanos(0));
    unknown.local_estimate = None;
    assert!(matches!(
        decide(unknown),
        PlacementDecision::Local {
            reason: LocalPlacementReason::MissingLocalEstimate,
            ..
        }
    ));
}

fn index() -> BundleIndex<u8> {
    let mut index = BundleIndex::new();
    for (generation, boundary) in [(1, 8), (2, 16)] {
        index
            .commit(
                &identity(),
                key(boundary),
                generation,
                vec![(RESOURCES[0], 1), (RESOURCES[1], 2), (RESOURCES[2], 3)],
            )
            .unwrap();
    }
    index
}

fn lookup(fallback: Option<BundleKey>) -> RemoteBundleFind<u8> {
    RemoteBundleFind::new(vec![key(16), key(8)], key(16), fallback)
}

#[test]
fn a_pulled_target_is_selected() {
    let mut find = lookup(Some(key(8)));
    assert!(matches!(
        find.step(FindEvent::Hit(key(16))),
        (FindAction::Pull, FindReport::Quiet)
    ));
    assert!(matches!(
        find.step(FindEvent::Pulled(BundlePullOutcome::Pulled(key(16)))),
        (FindAction::Lease(leased), FindReport::Quiet) if leased == key(16)
    ));
    let lease = index().lease_exact(&identity(), &key(16));
    let (action, report) = find.step(FindEvent::Leased(lease));
    assert!(matches!(
        action,
        FindAction::Resolve(RemoteBundleResolution::Selected(lease)) if lease.key() == &key(16)
    ));
    assert_eq!(
        report,
        FindReport::RemoteHit {
            boundary_tokens: 16
        }
    );
    assert_eq!(report.labels(), Some(("remote_hit", "complete")));
}

#[test]
fn a_clean_miss_leads_to_placement_and_a_failure_does_not() {
    let mut find = lookup(Some(key(8)));
    assert!(matches!(
        find.step(FindEvent::Missed(BundleMissReason::NotFound)),
        (FindAction::ReadLocal, FindReport::Quiet)
    ));
    assert!(matches!(
        find.step(FindEvent::Local(None)).0,
        FindAction::Prefill { seed: Some(seed) } if seed == key(8)
    ));
    assert!(matches!(
        find.step(FindEvent::Prefilled(Some(key(8)))).0,
        FindAction::Resolve(RemoteBundleResolution::Fallback)
    ));
    for (event, miss) in [
        (FindEvent::TimedOut, FindMiss::TimedOut),
        (FindEvent::DirectoryFailed, FindMiss::DirectoryFailed),
        (
            FindEvent::Missed(BundleMissReason::OwnerLost),
            FindMiss::Reason(BundleMissReason::OwnerLost),
        ),
        (FindEvent::Hit(key(24)), FindMiss::Incompatible),
    ] {
        let mut find = lookup(Some(key(8)));
        let (action, report) = find.step(event);
        assert!(matches!(
            action,
            FindAction::Resolve(RemoteBundleResolution::Fallback)
        ));
        assert_eq!(report, FindReport::RemoteMiss(miss));
    }
    let mut bare = lookup(None);
    assert!(matches!(
        bare.step(FindEvent::Canceled).0,
        FindAction::Resolve(RemoteBundleResolution::Miss)
    ));
}

#[test]
fn a_target_that_arrives_during_discovery_suppresses_the_prefill() {
    let mut find = lookup(Some(key(8)));
    find.step(FindEvent::Missed(BundleMissReason::NotFound));
    let local = index().lease_exact(&identity(), &key(16));
    assert!(matches!(
        find.step(FindEvent::Local(local)).0,
        FindAction::Resolve(RemoteBundleResolution::Selected(lease)) if lease.key() == &key(16)
    ));
}

#[test]
fn the_longest_local_candidate_is_read_from_the_catalog() {
    let mut catalog: BundleCatalog<u8> = BundleCatalog::new();
    let resources = KeyMap::collect(vec![
        (RESOURCES[0], 1),
        (RESOURCES[1], 2),
        (RESOURCES[2], 3),
    ]);
    catalog
        .commit(&identity(), key(8), 1, &resources, &dependency_lineages())
        .unwrap();
    let best = best_local_candidate(&catalog, &identity(), &[key(16), key(8)]).unwrap();
    assert_eq!(best.key(), &key(8));
    assert!(best_local_candidate(&catalog, &identity(), &[key(16)]).is_none());
}

fn dependency_lineages() -> Vec<ResourceLineage> {
    lineages()
        .into_iter()
        .map(|lineage| {
            let role = if lineage.resource == RESOURCES[2] {
                ResourceRole::BoundaryCapsule
            } else {
                ResourceRole::PrefixHistory
            };
            ResourceLineage::new(lineage.resource, role, lineage.hashes)
        })
        .collect()
}

fn prefill_config() -> PrefillConfig {
    PrefillConfig {
        bundle_bytes_per_token: 2,
        cost: CostModel::new(Duration::from_millis(1), 0, 0, None),
        decision_margin: Duration::from_nanos(0),
        bundle_prefill_timeout: Duration::from_secs(1),
        bundle_prefill_poll: Duration::from_millis(5),
        block_size: 4,
    }
}

fn prefill() -> BundlePrefill {
    BundlePrefill::new(
        BundlePrefillRequest {
            identity: identity(),
            target: key(8),
            seed: None,
            num_computed_tokens: 0,
            total_tokens: 64,
        },
        Some(prefill_config()),
        START.plus(Duration::from_secs(60)),
    )
}

fn begin(prefill: &mut BundlePrefill) {
    let step = prefill.step(PrefillEvent::Started);
    assert!(matches!(
        step.action,
        PrefillAction::EstimateLocal { tokens: 8 }
    ));
    let step = prefill.step(PrefillEvent::Estimated {
        local_estimate: Some(Duration::from_secs(1)),
    });
    let PrefillAction::Plan(plan) = step.action else {
        panic!("a cheaper remote prefill is planned")
    };
    assert_eq!(plan.total_tokens, 8);
    assert_eq!(plan.bundle_bytes, 16);
    assert!(step.costs.is_some());
}

fn dispatch(prefill: &mut BundlePrefill) {
    begin(prefill);
    let step = prefill.step(PrefillEvent::Planned {
        outcome: PlanOutcome::Remote {
            full_block_external_tokens: 8,
        },
        now: START,
    });
    assert!(matches!(
        step.action,
        PrefillAction::Dispatch { window_tokens: 9, bundle_bytes: 16, deadline }
            if deadline == START.plus(Duration::from_secs(1))
    ));
    assert_eq!(step.report, Some(PrefillReport::RemoteStrictlyFaster));
}

#[test]
fn a_published_target_is_pulled_and_the_budget_released() {
    let mut prefill = prefill();
    dispatch(&mut prefill);
    assert!(matches!(
        prefill.step(PrefillEvent::Dispatched).action,
        PrefillAction::Discover
    ));
    assert!(matches!(
        prefill
            .step(PrefillEvent::Missed(BundleMissReason::NotFound))
            .action,
        PrefillAction::Sleep(poll) if poll == Duration::from_millis(5)
    ));
    assert!(matches!(
        prefill.step(PrefillEvent::Slept).action,
        PrefillAction::Discover
    ));
    assert!(matches!(
        prefill.step(PrefillEvent::Hit(Box::new(candidate()))).action,
        PrefillAction::Pull(_)
    ));
    assert!(matches!(
        prefill
            .step(PrefillEvent::Pulled(BundlePullOutcome::Pulled(key(8))))
            .action,
        PrefillAction::Finish { selected: Some(selected), release: Some(8) } if selected == key(8)
    ));
    assert!(matches!(
        prefill.step(PrefillEvent::Canceled).action,
        PrefillAction::Ignore
    ));
}

#[test]
fn every_failure_after_dispatch_releases_the_budget() {
    let after = |events: Vec<PrefillEvent>| {
        let mut prefill = prefill();
        dispatch(&mut prefill);
        let mut last = None;
        for event in events {
            last = Some(prefill.step(event));
        }
        let step = last.unwrap();
        assert!(matches!(
            step.action,
            PrefillAction::Finish {
                selected: None,
                release: Some(8)
            }
        ));
        step.report.unwrap().labels()
    };
    assert_eq!(
        after(vec![PrefillEvent::DispatchFailed]),
        ("local", "dispatch_failed")
    );
    assert_eq!(after(vec![PrefillEvent::Canceled]), ("local", "canceled"));
    assert_eq!(
        after(vec![PrefillEvent::Dispatched, PrefillEvent::TimedOut]),
        ("local", "timed_out")
    );
    assert_eq!(
        after(vec![PrefillEvent::Dispatched, PrefillEvent::DirectoryFailed]),
        ("local", "directory_failed")
    );
    assert_eq!(
        after(vec![
            PrefillEvent::Dispatched,
            PrefillEvent::Hit(Box::new(candidate())),
            PrefillEvent::Pulled(BundlePullOutcome::Miss(BundleMissReason::OwnerLost)),
        ]),
        ("local", "owner_lost")
    );
    let mut rejected = prefill();
    dispatch(&mut rejected);
    assert!(matches!(
        rejected.step(PrefillEvent::ContextRejected).action,
        PrefillAction::Fail { release: Some(8) }
    ));
}

#[test]
fn local_plans_reserve_nothing() {
    let planned = |outcome| {
        let mut prefill = prefill();
        begin(&mut prefill);
        let step = prefill.step(PrefillEvent::Planned {
            outcome,
            now: START,
        });
        assert!(matches!(
            step.action,
            PrefillAction::Finish {
                selected: None,
                release: None
            }
        ));
        step.report.unwrap().labels().1
    };
    assert_eq!(
        planned(PlanOutcome::Local {
            reason: LocalReason::CostGuard
        }),
        "cost_guard"
    );
    assert_eq!(planned(PlanOutcome::Reject), "budget_rejected");
    let mut slow = prefill();
    slow.step(PrefillEvent::Started);
    let step = slow.step(PrefillEvent::Estimated {
        local_estimate: Some(Duration::from_nanos(1)),
    });
    assert_eq!(
        step.report,
        Some(PrefillReport::Placement(
            LocalPlacementReason::CostComparison
        ))
    );
}

#[test]
fn the_local_estimate_is_asked_for_the_tokens_past_seed_and_computed() {
    let asked = |seed, num_computed_tokens| {
        let mut prefill = BundlePrefill::new(
            BundlePrefillRequest {
                identity: identity(),
                target: key(16),
                seed,
                num_computed_tokens,
                total_tokens: 64,
            },
            Some(prefill_config()),
            START.plus(Duration::from_secs(60)),
        );
        let tokens = prefill.local_work_tokens();
        assert!(matches!(
            prefill.step(PrefillEvent::Started).action,
            PrefillAction::EstimateLocal { tokens: asked } if asked == tokens
        ));
        tokens
    };
    assert_eq!(asked(None, 0), 16);
    assert_eq!(asked(Some(key(8)), 4), 8);
    assert_eq!(asked(Some(key(8)), 12), 4);
    assert_eq!(asked(None, 20), 0);
}

#[test]
fn publications_are_replaced_by_newer_generations_and_forgotten_by_their_own() {
    let publication =
        |generation| BundlePublication::new(identity(), key(8), generation, lineages());
    let mut publications = BundlePublications::new();
    assert!(publications.track(publication(1)));
    assert!(!publications.track(publication(2)));
    let snapshot = publications.snapshot();
    assert_eq!(snapshot.len(), 1);
    assert_eq!(snapshot[0].key(), &key(8));
    assert_eq!(snapshot[0].generation(), 2);
    publications.forget(&key(8), 1);
    assert_eq!(publications.get(&key(8)).unwrap().generation(), 2);
    let advertisement = publications
        .get(&key(8))
        .unwrap()
        .advertisement(OWNER, RegistrationEpoch(6), 30_000)
        .unwrap();
    assert_eq!(advertisement.generation(), 2);
    assert_eq!(advertisement.owner(), OWNER);
    publications.forget(&key(8), 2);
    assert!(publications.get(&key(8)).is_none());
    assert_eq!(advertisement_expiry(5), 5 + BUNDLE_DIRECTORY_TTL_MS);
    assert_eq!(advertisement_expiry(u64::MAX), u64::MAX);
    assert_eq!(refresh_batch_end(0, 20), 16);
    assert_eq!(refresh_batch_end(16, 20), 20);
}

#[test]
fn stripes_depend_on_the_key_alone() {
    assert!(stripe(&key(8)) < ORDER_STRIPES);
    assert_eq!(stripe(&key(8)), stripe(&key(8)));
}

fn pinned(hash: SequenceHash, block_id: usize) -> PinnedBlock<()> {
    PinnedBlock {
        block_id,
        sequence_hash: hash,
        handle: (),
    }
}

#[test]
fn a_pulled_bundle_is_committed_whole_and_invalidated_with_its_blocks() {
    let wanted = || {
        KeyMap::collect(
            lineages()
                .into_iter()
                .map(|lineage| (lineage.resource, lineage.hashes))
                .collect(),
        )
    };
    let pins = || {
        vec![
            (RESOURCES[0], vec![pinned(hash(0), 1), pinned(hash(1), 2)]),
            (RESOURCES[1], vec![pinned(hash(0), 3), pinned(hash(1), 4)]),
            (RESOURCES[2], vec![pinned(hash(1), 5)]),
        ]
    };
    let mut catalog: BundleCatalog<Vec<PinnedBlock<()>>> = BundleCatalog::new();
    let mut partial = pins();
    partial[1].1.pop();
    let error = commit_pulled_bundle(
        &mut catalog,
        identity(),
        key(8),
        4,
        &wanted(),
        KeyMap::collect(partial),
    )
    .unwrap_err();
    assert_eq!(
        error,
        PulledCommitError::Incomplete {
            resource: RESOURCES[1]
        }
    );
    let committed = commit_pulled_bundle(
        &mut catalog,
        identity(),
        key(8),
        4,
        &wanted(),
        KeyMap::collect(pins()),
    )
    .unwrap();
    assert_eq!(committed.generation, 4);
    assert!(catalog.lease_exact(&identity(), &key(8)).is_some());
    assert_eq!(
        invalidate_resource_blocks(&mut catalog, RESOURCES[0], &[hash(0)], OWNER),
        vec![BundleInvalidation {
            key: key(8),
            generation: 4,
            owner: OWNER,
        }]
    );
    assert!(catalog.lease_exact(&identity(), &key(8)).is_none());
}
