//! Offloads, onboards and parked searches from plan to terminal status.

use kvbm_engine::bundle::admission::{BundleOffloadPlan, ResourceOffload};
use kvbm_engine::bundle::catalog::BundleCatalog;
use kvbm_engine::bundle::find::BundleFindQuery;
use kvbm_engine::bundle::index::{BundleIndex, PinnedBlock};
use kvbm_engine::bundle::offload::{BundleOffloadError, OffloadMode};
use kvbm_engine::bundle::searches::{
    start_bundle_find, zero_find, BundleSearches, FindBlocksDesync, FindBlocksOutcome,
    RemoteBundleResolution, RemotePoll, SearchedOnboardError, StartedFind,
};
use kvbm_engine::ids::{
    BundleKey, CacheManifestId, LogicalResourceId, SearchId, SequenceHash,
};
use kvbm_engine::manifest::{CacheIdentity, ResourceRequirement, ResourceRole};
use kvbm_engine::offload::completion::{
    finish_offload_child, BundleOffloadRuntime, StartOffloadError,
};
use kvbm_engine::offload::drain::BundleChildDrain;
use kvbm_engine::offload::plan::{validate_bundle_offload, OffloadPlanError};
use kvbm_engine::offload::route::{build_external_blocks, OffloadRoutes, RouteError};
use kvbm_engine::offload::status::{
    project_offload_status, ActionFailure, ActionStatus, TransferStatus,
};
use kvbm_engine::onboard::fold::{
    fold_bundle_onboard, fold_resource_onboard, CompletedResource, DispatchBatch,
    DispatchFailure,
};
use kvbm_engine::onboard::plan::{
    acquire_bundle_sources, destination_blocks, start_bundle_onboard, start_resource_onboard,
    validate_resource_transfers, BundleOnboardPlan, OnboardPlanError, ResourceDestination,
    ResourceOnboard,
};
use kvbm_engine::ordered::KeySet;
use kvbm_engine::positive::PositiveUsize;

const CSA: LogicalResourceId = LogicalResourceId(10);
const HCA: LogicalResourceId = LogicalResourceId(11);
const CAPSULE: LogicalResourceId = LogicalResourceId(12);

fn identity_of(manifest: u128) -> CacheIdentity {
    let requirement = |resource, role, native_block_tokens| ResourceRequirement {
        resource,
        role,
        native_block_tokens,
    };
    CacheIdentity::new(
        CacheManifestId {
            high: 0,
            low: manifest,
        },
        8,
        vec![
            requirement(CSA, ResourceRole::PrefixHistory, 4),
            requirement(HCA, ResourceRole::PrefixHistory, 4),
            requirement(CAPSULE, ResourceRole::BoundaryCapsule, 4),
        ],
    )
    .unwrap()
}

fn identity() -> CacheIdentity {
    identity_of(1)
}

fn hash(position: u64) -> SequenceHash {
    SequenceHash::new(u128::from(position) + 1, position)
}

fn key() -> BundleKey {
    BundleKey::new(&identity(), hash(1), 8).unwrap()
}

fn offloads() -> Vec<ResourceOffload> {
    let offload = |resource, blocks| ResourceOffload { resource, blocks };
    vec![
        offload(CSA, vec![(hash(0), 20), (hash(1), 21)]),
        offload(HCA, vec![(hash(0), 30), (hash(1), 31)]),
        offload(CAPSULE, vec![(hash(1), 40)]),
    ]
}

fn plan(resources: Vec<ResourceOffload>) -> BundleOffloadPlan {
    BundleOffloadPlan {
        identity: identity(),
        key: key(),
        generation: 7,
        mode: OffloadMode::Mirror,
        resources,
    }
}

fn managed() -> KeySet<LogicalResourceId> {
    KeySet::from_keys(&[CSA, HCA, CAPSULE]).0
}

fn pinned(position: u64, block_id: usize) -> PinnedBlock<()> {
    PinnedBlock {
        block_id,
        sequence_hash: hash(position),
        handle: (),
    }
}

fn pins_of(resource: LogicalResourceId) -> Vec<PinnedBlock<()>> {
    match resource {
        CSA => vec![pinned(0, 100), pinned(1, 101)],
        HCA => vec![pinned(0, 200), pinned(1, 201)],
        _ => vec![pinned(1, 300)],
    }
}

fn catalog() -> BundleCatalog<Vec<PinnedBlock<()>>> {
    let mut catalog = BundleCatalog::new();
    let (mut runtime, children) =
        BundleOffloadRuntime::start_bundle_offload(plan(offloads()), &managed()).unwrap();
    for child in children {
        finish_offload_child(
            &mut runtime,
            &mut catalog,
            Some(child.resource),
            &child.blocks,
            ActionStatus::Complete,
            pins_of(child.resource),
        );
    }
    catalog
}

#[test]
fn failed_child_waits_for_every_sibling_before_parent_terminal() {
    let mut drain = BundleChildDrain::new(PositiveUsize::new(3).unwrap());
    let failure = || {
        ActionStatus::Failed(ActionFailure::Resource {
            resource: LogicalResourceId(7),
            block_ids: None,
        })
    };

    assert_eq!(drain.finish_child(Some(failure())), None);
    assert_eq!(drain.finish_child(None), None);
    assert_eq!(drain.finish_child(None), Some(failure()));
}

#[test]
fn an_offload_is_published_by_its_last_child() {
    let mut catalog = BundleCatalog::new();
    let (mut runtime, children) =
        BundleOffloadRuntime::start_bundle_offload(plan(offloads()), &managed()).unwrap();
    assert_eq!(children.len(), 3);
    for (place, child) in children.iter().enumerate() {
        assert!(catalog.lease_exact(&identity(), &key()).is_none());
        let finished = finish_offload_child(
            &mut runtime,
            &mut catalog,
            Some(child.resource),
            &child.blocks,
            ActionStatus::Complete,
            pins_of(child.resource),
        );
        if place < 2 {
            assert_eq!(finished.terminal, None);
            assert!(finished.advertise.is_none());
        } else {
            assert_eq!(finished.terminal, Some(ActionStatus::Complete));
            assert_eq!(finished.advertise.unwrap().generation, 7);
        }
    }
    let lease = catalog.lease_exact(&identity(), &key()).unwrap();
    assert_eq!(lease.resources().get(&CAPSULE), Some(&pins_of(CAPSULE)));
    assert_eq!(catalog.dependents(CSA, hash(0)), vec![key()]);
}

#[test]
fn an_offload_with_a_failed_child_publishes_nothing() {
    let mut catalog = BundleCatalog::new();
    let (mut runtime, children) =
        BundleOffloadRuntime::start_bundle_offload(plan(offloads()), &managed()).unwrap();
    let mut terminal = None;
    for child in children {
        let status = if child.resource == HCA {
            ActionStatus::Failed(ActionFailure::AllBlocks)
        } else {
            ActionStatus::Complete
        };
        let finished = finish_offload_child(
            &mut runtime,
            &mut catalog,
            Some(child.resource),
            &child.blocks,
            status,
            pins_of(child.resource),
        );
        assert!(finished.advertise.is_none());
        terminal = finished.terminal;
    }
    assert!(matches!(
        terminal,
        Some(ActionStatus::Failed(ActionFailure::Resource { resource, .. })) if resource == HCA
    ));
    assert!(catalog.lease_exact(&identity(), &key()).is_none());
}

#[test]
fn offload_plans_name_their_fault() {
    let fault = |resources| validate_bundle_offload(&plan(resources), &managed()).unwrap_err();
    assert_eq!(fault(vec![]), OffloadPlanError::NoResources);
    let mut repeated = offloads();
    repeated.push(ResourceOffload {
        resource: CSA,
        blocks: vec![(hash(0), 1), (hash(1), 2)],
    });
    assert_eq!(
        fault(repeated),
        OffloadPlanError::DuplicateResource { resource: CSA }
    );
    let mut empty = offloads();
    empty[2].blocks.clear();
    assert_eq!(
        fault(empty),
        OffloadPlanError::EmptyResource { resource: CAPSULE }
    );
    let mut short = offloads();
    short[0].blocks.pop();
    assert_eq!(
        fault(short),
        OffloadPlanError::BlockCount {
            resource: CSA,
            boundary_tokens: 8,
            expected: 2,
            actual: 1,
        }
    );
    let mut wrong = offloads();
    wrong[1].blocks[1].0 = hash(9);
    assert_eq!(
        fault(wrong),
        OffloadPlanError::BoundaryHash { resource: HCA }
    );
    let mut foreign = plan(offloads());
    foreign.identity = identity_of(2);
    assert_eq!(
        validate_bundle_offload(&foreign, &managed()).unwrap_err(),
        OffloadPlanError::IncompatibleKey
    );
    assert_eq!(
        validate_bundle_offload(&plan(offloads()), &KeySet::from_keys(&[CSA]).0).unwrap_err(),
        OffloadPlanError::NotConfigured { resource: HCA }
    );
    let mut partial = offloads();
    partial.pop();
    assert_eq!(
        BundleOffloadRuntime::<Vec<PinnedBlock<()>>>::start_bundle_offload(plan(partial), &managed())
            .unwrap_err(),
        StartOffloadError::Transaction(BundleOffloadError::ResourceSetMismatch)
    );
}

#[test]
fn routes_fall_back_to_the_primary_engine() {
    assert_eq!(
        OffloadRoutes::from_resources(CSA, vec![(HCA, "b")]).unwrap_err(),
        RouteError::MissingPrimary { primary: CSA }
    );
    assert_eq!(
        OffloadRoutes::from_resources(CSA, vec![(CSA, "a"), (CSA, "b")]).unwrap_err(),
        RouteError::DuplicateEngine
    );
    let routes = OffloadRoutes::from_resources(CSA, vec![(HCA, "b"), (CSA, "a")]).unwrap();
    assert_eq!(routes.primary_engine(), &"a");
    assert_eq!(routes.route(None), Ok(&"a"));
    assert_eq!(routes.route(Some(HCA)), Ok(&"b"));
    assert_eq!(
        routes.route(Some(CAPSULE)),
        Err(RouteError::NoRoute { resource: CAPSULE })
    );
    assert!(routes.supports_resource(HCA));
    let blocks = build_external_blocks(&[(hash(0), 20)]);
    assert_eq!(blocks[0].block_id, 20);
    assert_eq!(blocks[0].sequence_hash, hash(0));
}

#[test]
fn transfer_statuses_become_action_statuses() {
    for drained in [
        TransferStatus::Evaluating,
        TransferStatus::Queued,
        TransferStatus::Transferring,
        TransferStatus::Complete,
        TransferStatus::Cancelled,
    ] {
        assert_eq!(
            project_offload_status(drained, vec![3]),
            ActionStatus::Complete
        );
    }
    assert_eq!(
        project_offload_status(TransferStatus::Failed, vec![3]),
        ActionStatus::Failed(ActionFailure::Partial { block_ids: vec![3] })
    );
    assert_eq!(
        project_offload_status(TransferStatus::Failed, vec![]),
        ActionStatus::Failed(ActionFailure::AllBlocks)
    );
}

fn transfer(resource: LogicalResourceId, sources: Vec<usize>, to: Vec<usize>) -> ResourceOnboard {
    ResourceOnboard {
        resource,
        source_block_ids: sources,
        destination_block_ids: to,
    }
}

fn transfers() -> Vec<ResourceOnboard> {
    vec![
        transfer(CSA, vec![100, 101], vec![1, 2]),
        transfer(HCA, vec![200, 201], vec![3, 4]),
        transfer(CAPSULE, vec![300], vec![5]),
    ]
}

fn onboard_plan(resources: Vec<ResourceOnboard>) -> BundleOnboardPlan {
    BundleOnboardPlan {
        identity: identity(),
        key: key(),
        resources,
    }
}

#[test]
fn transfers_are_validated_before_they_start() {
    assert_eq!(
        validate_resource_transfers(&[], &managed()),
        Err(OnboardPlanError::NoResources)
    );
    assert_eq!(
        validate_resource_transfers(&[transfer(CSA, vec![1, 2], vec![3])], &managed()),
        Err(OnboardPlanError::Shape {
            resource: CSA,
            sources: 2,
            destinations: 1,
        })
    );
    assert_eq!(
        validate_resource_transfers(&transfers(), &KeySet::from_keys(&[CSA]).0),
        Err(OnboardPlanError::NotConfigured { resource: HCA })
    );
    assert_eq!(
        start_resource_onboard(&transfers(), &managed()),
        Ok(vec![1, 2, 3, 4, 5])
    );
    assert_eq!(destination_blocks(&transfers()), vec![1, 2, 3, 4, 5]);
}

#[test]
fn sources_must_be_the_leased_blocks() {
    let catalog = catalog();
    let lease = || catalog.lease_exact(&identity(), &key());
    let (leases, hashes) =
        acquire_bundle_sources(&onboard_plan(transfers()), lease()).unwrap();
    assert_eq!(leases.len(), 3);
    assert_eq!(hashes.len(), 5);
    assert_eq!(
        acquire_bundle_sources::<()>(&onboard_plan(transfers()), None).unwrap_err(),
        OnboardPlanError::NotCommitted
    );
    let mut other = transfers();
    other[0].source_block_ids[1] = 999;
    assert_eq!(
        acquire_bundle_sources(&onboard_plan(other), lease()).unwrap_err(),
        OnboardPlanError::SourceMismatch { resource: CSA }
    );
}

fn completed(resource: LogicalResourceId, succeeded: bool) -> CompletedResource {
    CompletedResource {
        resource,
        destination_block_ids: vec![9],
        succeeded,
    }
}

#[test]
fn a_bundle_is_onboarded_only_with_every_resource() {
    let catalog = catalog();
    let run = |failure, results: &[CompletedResource]| {
        let plan = onboard_plan(transfers());
        let (leases, _) =
            acquire_bundle_sources(&plan, catalog.lease_exact(&identity(), &key())).unwrap();
        let (mut transaction, destinations) = start_bundle_onboard(&plan, leases).unwrap();
        assert_eq!(destinations, vec![1, 2, 3, 4, 5]);
        fold_bundle_onboard(&mut transaction, failure, results)
    };
    assert_eq!(
        run(
            None,
            &[
                completed(CSA, true),
                completed(HCA, true),
                completed(CAPSULE, true)
            ]
        ),
        ActionStatus::Complete
    );
    assert!(matches!(
        run(
            None,
            &[
                completed(CSA, true),
                completed(HCA, false),
                completed(CAPSULE, true)
            ]
        ),
        ActionStatus::Failed(_)
    ));
    let failure = || DispatchFailure {
        resource: HCA,
        destination_block_ids: vec![3, 4],
    };
    assert!(matches!(
        run(Some(failure()), &[completed(CSA, true)]),
        ActionStatus::Failed(_)
    ));
    assert_eq!(
        fold_resource_onboard(None, &[completed(CSA, true)]),
        ActionStatus::Complete
    );
    assert!(matches!(
        fold_resource_onboard(Some(failure()), &[]),
        ActionStatus::Failed(_)
    ));
}

#[test]
fn dispatch_stops_at_the_first_refused_resource() {
    let mut batch = DispatchBatch::new(transfers());
    assert_eq!(batch.next().unwrap().resource, CSA);
    batch.report(true);
    assert_eq!(batch.next().unwrap().resource, HCA);
    assert!(batch.failure().is_none());
    batch.report(false);
    assert!(batch.next().is_none());
    let failure = batch.failure().unwrap();
    assert_eq!(failure.resource, HCA);
    assert_eq!(failure.destination_block_ids, vec![3, 4]);
}

fn chain() -> Vec<SequenceHash> {
    (0..4).map(hash).collect()
}

#[test]
fn a_find_starts_locally_remotely_or_not_at_all() {
    let catalog = catalog();
    let identity = identity();
    let chain = chain();
    let shallow = BundleFindQuery::new(&identity, &chain, 0, 2, 4);
    assert!(matches!(
        start_bundle_find(&shallow, catalog.index(), true, true),
        StartedFind::Local(found) if found.key() == &key()
    ));
    let deep = BundleFindQuery::new(&identity, &chain, 0, 4, 4);
    assert!(matches!(
        start_bundle_find(&deep, catalog.index(), true, true),
        StartedFind::Remote { target, fallback: Some(_), .. } if target.boundary_tokens == 16
    ));
    assert!(matches!(
        start_bundle_find(&deep, catalog.index(), false, true),
        StartedFind::Local(_)
    ));
    let empty: BundleIndex<Vec<PinnedBlock<()>>> = BundleIndex::new();
    assert!(matches!(
        start_bundle_find(&deep, &empty, true, false),
        StartedFind::Zero
    ));
    assert_eq!(
        zero_find(true),
        FindBlocksOutcome::Resolved {
            matched_tokens: 0,
            minted: None,
            release_parked: true,
        }
    );
}

#[test]
fn a_parked_search_keeps_its_lease_and_onboards_it() {
    let catalog = catalog();
    let identity = identity();
    let chain = chain();
    let query = BundleFindQuery::new(&identity, &chain, 0, 2, 4);
    let request = "request".to_string();
    let search = SearchId(1);
    let mut searches = BundleSearches::new();
    let found = query.find(catalog.index()).unwrap();
    assert_eq!(
        searches.install_local_find(search, request.clone(), identity.clone(), 0, found),
        FindBlocksOutcome::Resolved {
            matched_tokens: 8,
            minted: Some(search),
            release_parked: false,
        }
    );
    let empty: BundleIndex<Vec<PinnedBlock<()>>> = BundleIndex::new();
    assert_eq!(
        searches.refresh_bundle_find(
            search,
            &request,
            &query,
            &identity,
            0,
            &empty,
            RemotePoll::Pending
        ),
        Ok(FindBlocksOutcome::Resolved {
            matched_tokens: 8,
            minted: None,
            release_parked: false,
        })
    );
    assert_eq!(
        searches.refresh_bundle_find(
            search,
            &request,
            &query,
            &identity_of(2),
            0,
            &empty,
            RemotePoll::Pending
        ),
        Err(FindBlocksDesync)
    );
    let destinations = || {
        let destination = |resource, block_ids| ResourceDestination {
            resource,
            block_ids,
        };
        vec![
            destination(CAPSULE, vec![5]),
            destination(CSA, vec![1, 2]),
            destination(HCA, vec![3, 4]),
        ]
    };
    let mut onboard = |search, request: &String, tokens| {
        searches.start_searched_bundle_onboard(search, request, destinations(), tokens, &managed())
    };
    assert_eq!(
        onboard(None, &request, 8).unwrap_err(),
        SearchedOnboardError::SearchNotMatched
    );
    assert_eq!(
        onboard(Some(search), &"other".to_string(), 8).unwrap_err(),
        SearchedOnboardError::Desync
    );
    assert_eq!(
        onboard(Some(search), &request, 4).unwrap_err(),
        SearchedOnboardError::ExternalTokensMismatch {
            expected: 8,
            got: 4,
        }
    );
    let searched = onboard(Some(search), &request, 8).unwrap();
    assert_eq!(searched.plan.resources[0].source_block_ids, vec![100, 101]);
    assert_eq!(searched.plan.resources[0].destination_block_ids, vec![1, 2]);
    assert_eq!(searched.plan.resources[2].source_block_ids, vec![300]);
    assert_eq!(searched.leases.len(), 3);
    assert_eq!(
        onboard(Some(search), &request, 8).unwrap_err(),
        SearchedOnboardError::SearchNotMatched
    );
}

#[test]
fn a_remote_search_resolves_to_its_fallback_or_to_zero() {
    let catalog = catalog();
    let identity = identity();
    let chain = chain();
    let query = BundleFindQuery::new(&identity, &chain, 0, 4, 4);
    let request = "request".to_string();
    let mut searches = BundleSearches::new();
    let kept = SearchId(1);
    let bare = SearchId(2);
    let fallback = query.find(catalog.index());
    assert_eq!(
        searches.start_remote_bundle_find(
            kept,
            request.clone(),
            identity.clone(),
            0,
            fallback
        ),
        FindBlocksOutcome::Searching { minted: Some(kept) }
    );
    searches.start_remote_bundle_find(bare, request.clone(), identity.clone(), 0, None);
    let mut refresh = |search, poll| {
        searches.refresh_bundle_find(
            search,
            &request,
            &query,
            &identity,
            0,
            catalog.index(),
            poll,
        )
    };
    assert_eq!(
        refresh(kept, RemotePoll::Pending),
        Ok(FindBlocksOutcome::Searching { minted: None })
    );
    assert_eq!(
        refresh(
            kept,
            RemotePoll::Resolved(RemoteBundleResolution::Fallback)
        ),
        Ok(FindBlocksOutcome::Resolved {
            matched_tokens: 8,
            minted: None,
            release_parked: false,
        })
    );
    assert_eq!(
        refresh(bare, RemotePoll::Resolved(RemoteBundleResolution::Miss)),
        Ok(zero_find(true))
    );
    assert!(searches.release(&kept));
    assert!(!searches.release(&bare));
}
