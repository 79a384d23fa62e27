//! Finds, polls and transfers of whole requests.

use kvbm_engine::bundle::admission::{
    AdmissionReason, BundleAdmissionConfig, BundleOffloadPlan, ResourceOffload,
};
use kvbm_engine::bundle::catalog::BundleCatalog;
use kvbm_engine::bundle::find::BundleFindQuery;
use kvbm_engine::bundle::index::PinnedBlock;
use kvbm_engine::bundle::offload::OffloadMode;
use kvbm_engine::bundle::searches::{
    start_bundle_find, zero_find, BundleSearches, FindBlocksDesync, FindBlocksOutcome, RemotePoll,
    SearchedOnboardError, StartedFind,
};
use kvbm_engine::ids::{BundleKey, CacheManifestId, LogicalResourceId, SearchId, SequenceHash};
use kvbm_engine::manifest::{CacheIdentity, ResourceRequirement, ResourceRole};
use kvbm_engine::offload::completion::{finish_offload_child, BundleOffloadRuntime};
use kvbm_engine::offload::plan::{validate_bundle_offload, OffloadPlanError};
use kvbm_engine::offload::status::ActionStatus;
use kvbm_engine::onboard::fold::{fold_resource_onboard, CompletedResource, DispatchBatch};
use kvbm_engine::onboard::plan::{
    start_resource_onboard, OnboardPlanError, ResourceDestination, ResourceOnboard,
};
use kvbm_engine::ordered::{KeyMap, KeySet};
use kvbm_engine::policy::components::ResourceComponentBytes;
use kvbm_engine::policy::dependency::ResourceLineage;
use kvbm_engine::policy::resource::{InactiveBackendConfig, ResourcePolicies, ResourcePolicy};
use kvbm_engine::positive::PositiveU64;

const BLOCK_SIZE: usize = 4;
const RESOURCES: [LogicalResourceId; 3] = [
    LogicalResourceId(90),
    LogicalResourceId(91),
    LogicalResourceId(93),
];

type Pins = Vec<PinnedBlock<()>>;

fn manifest(revision: u128, resources: &[LogicalResourceId]) -> CacheIdentity {
    CacheIdentity::new(
        CacheManifestId {
            high: 0,
            low: revision,
        },
        BLOCK_SIZE as u64,
        resources
            .iter()
            .enumerate()
            .map(|(index, &resource)| ResourceRequirement {
                resource,
                role: if index + 1 == resources.len() {
                    ResourceRole::BoundaryCapsule
                } else {
                    ResourceRole::PrefixHistory
                },
                native_block_tokens: BLOCK_SIZE as u64,
            })
            .collect(),
    )
    .unwrap()
}

fn hash(index: u64) -> SequenceHash {
    SequenceHash::new(u128::from(index), index)
}

fn chain() -> Vec<SequenceHash> {
    (1..=3).map(hash).collect()
}

struct Request {
    request_id: String,
    num_computed_tokens: usize,
    total_tokens: usize,
    initial_bundle: Option<BundleKey>,
}

fn find_request(request_id: &str) -> Request {
    Request {
        request_id: request_id.to_owned(),
        num_computed_tokens: 0,
        total_tokens: 3 * BLOCK_SIZE + 1,
        initial_bundle: None,
    }
}

#[derive(Default)]
struct Rig {
    catalog: Option<BundleCatalog<Pins>>,
    searches: Option<BundleSearches<Pins>>,
    minted: u128,
    remote_eligible: bool,
}

impl Rig {
    fn new() -> Self {
        Self {
            catalog: Some(BundleCatalog::new()),
            searches: Some(BundleSearches::new()),
            ..Self::default()
        }
    }

    fn commit_at(&mut self, identity: &CacheIdentity, boundary_blocks: usize) -> BundleKey {
        let boundary = chain()[boundary_blocks - 1];
        let key = BundleKey::new(identity, boundary, (boundary_blocks * BLOCK_SIZE) as u64).unwrap();
        let mut pins = Vec::new();
        let mut lineages = Vec::new();
        for requirement in identity.resources() {
            let hashes = match requirement.role {
                ResourceRole::PrefixHistory => chain()[..boundary_blocks].to_vec(),
                ResourceRole::BoundaryCapsule => vec![boundary],
            };
            let blocks: Pins = hashes
                .iter()
                .map(|&sequence_hash| PinnedBlock {
                    block_id: 7,
                    sequence_hash,
                    handle: (),
                })
                .collect();
            pins.push((requirement.resource, blocks));
            lineages.push(ResourceLineage::new(
                requirement.resource,
                requirement.role,
                hashes,
            ));
        }
        self.catalog
            .as_mut()
            .unwrap()
            .commit(identity, key, 1, &KeyMap::collect(pins), &lineages)
            .unwrap();
        key
    }

    fn find(
        &mut self,
        request: &Request,
        identity: &CacheIdentity,
        live: Option<SearchId>,
    ) -> Result<FindBlocksOutcome, FindBlocksDesync> {
        let hashes = chain();
        let eligible = (request.total_tokens.saturating_sub(1) / BLOCK_SIZE).min(hashes.len());
        let query = BundleFindQuery::bundle_find_query(
            identity,
            &hashes,
            request.num_computed_tokens,
            eligible,
            BLOCK_SIZE,
            request.initial_bundle,
        );
        let index = self.catalog.as_ref().unwrap().index();
        let searches = self.searches.as_mut().unwrap();
        if let Some(live) = live {
            return searches.refresh_bundle_find(
                live,
                &request.request_id,
                &query,
                identity,
                request.num_computed_tokens,
                index,
                RemotePoll::Pending,
            );
        }
        self.minted += 1;
        let search_id = SearchId(self.minted);
        Ok(
            match start_bundle_find(&query, index, self.remote_eligible, true) {
                StartedFind::Zero => zero_find(false),
                StartedFind::Local(found) => searches.install_local_find(
                    search_id,
                    request.request_id.clone(),
                    identity.clone(),
                    request.num_computed_tokens,
                    found,
                ),
                StartedFind::Remote { fallback, .. } => searches.start_remote_bundle_find(
                    search_id,
                    request.request_id.clone(),
                    identity.clone(),
                    request.num_computed_tokens,
                    fallback,
                ),
            },
        )
    }
}

fn resolved(outcome: FindBlocksOutcome) -> (usize, Option<SearchId>, bool) {
    match outcome {
        FindBlocksOutcome::Resolved {
            matched_tokens,
            minted,
            release_parked,
        } => (matched_tokens, minted, release_parked),
        other => panic!("expected resolved bundle find, got {other:?}"),
    }
}

#[test]
fn valid_bundle_prefill_context_uses_the_normal_bundle_find_path() {
    let mut rig = Rig::new();
    let identity = manifest(1, &RESOURCES);
    rig.commit_at(&identity, 2);
    let request = find_request("valid-prefill");

    let (matched, minted, _) = resolved(rig.find(&request, &identity, None).unwrap());
    assert_eq!(matched, 2 * BLOCK_SIZE);
    assert!(minted.is_some());
}

#[test]
fn bundle_prefill_never_selects_a_bundle_before_its_initial_boundary() {
    let mut rig = Rig::new();
    let identity = manifest(1, &RESOURCES);
    let lower = rig.commit_at(&identity, 1);
    let mut request = find_request("prefill-floor");
    request.initial_bundle =
        Some(BundleKey::new(&identity, chain()[1], (2 * BLOCK_SIZE) as u64).unwrap());

    let (matched, _, _) = resolved(rig.find(&request, &identity, None).unwrap());
    assert_eq!(lower.boundary_tokens, BLOCK_SIZE as u64);
    assert_eq!(matched, 0, "a bundle below initial B must not be selected");
}

#[test]
fn bundle_prefill_can_restore_the_exact_initial_bundle_before_computing_target() {
    let mut rig = Rig::new();
    let identity = manifest(1, &RESOURCES);
    let initial = rig.commit_at(&identity, 2);
    let target = BundleKey::new(&identity, chain()[2], (3 * BLOCK_SIZE) as u64).unwrap();
    let mut request = find_request("prefill-initial");
    request.initial_bundle = Some(initial);

    let (matched, minted, _) = resolved(rig.find(&request, &identity, None).unwrap());
    assert_eq!(matched, 2 * BLOCK_SIZE);
    assert!(minted.is_some());

    let published = rig.commit_at(&identity, 3);
    assert_eq!(published, target);
    let follow_up = find_request("prefill-published-b2");
    let (matched, _, _) = resolved(rig.find(&follow_up, &identity, None).unwrap());
    assert_eq!(
        matched,
        3 * BLOCK_SIZE,
        "published B2 must use the normal bundle path"
    );
}

#[test]
fn bundle_window_below_remote_threshold_never_queries_the_directory() {
    let mut rig = Rig::new();
    let identity = manifest(1, &RESOURCES);
    let request = find_request("below-threshold");

    let (matched, minted, release) = resolved(rig.find(&request, &identity, None).unwrap());

    assert_eq!(matched, 0);
    assert!(minted.is_none());
    assert!(!release);
}

#[test]
fn bundle_window_at_remote_threshold_queries_the_directory() {
    let mut rig = Rig::new();
    rig.remote_eligible = true;
    let identity = manifest(1, &RESOURCES);
    let request = find_request("exact-threshold");

    assert!(matches!(
        rig.find(&request, &identity, None).unwrap(),
        FindBlocksOutcome::Searching { minted: Some(_) }
    ));
}

#[test]
fn changed_window_reconciles_to_one_new_common_boundary() {
    let mut rig = Rig::new();
    let identity = manifest(1, &RESOURCES);
    rig.commit_at(&identity, 2);
    let later = rig.commit_at(&identity, 3);
    let mut initial = find_request("rq");
    initial.total_tokens = 3 * BLOCK_SIZE;

    let (matched, minted, _) = resolved(rig.find(&initial, &identity, None).unwrap());
    assert_eq!(
        matched,
        2 * BLOCK_SIZE,
        "aligned total excludes block three"
    );
    let live = minted.unwrap();

    let mut changed = find_request("rq");
    changed.num_computed_tokens = 2 * BLOCK_SIZE;
    let (matched, minted, release) =
        resolved(rig.find(&changed, &identity, Some(live)).unwrap());
    assert_eq!(matched, BLOCK_SIZE);
    assert!(minted.is_none());
    assert!(!release);
    let destinations = RESOURCES
        .into_iter()
        .map(|resource| ResourceDestination {
            resource,
            block_ids: vec![50, 51, 52],
        })
        .collect();
    let searched = rig
        .searches
        .as_mut()
        .unwrap()
        .start_searched_bundle_onboard(
            Some(live),
            &"rq".to_owned(),
            destinations,
            BLOCK_SIZE,
            &KeySet::from_keys(&RESOURCES).0,
        )
        .unwrap();
    assert_eq!(searched.plan.key, later);
    assert_eq!(searched.plan.resources[0].destination_block_ids, vec![52]);
}

#[test]
fn repoll_keeps_exact_lease_but_cross_request_needs_index_visibility() {
    let mut rig = Rig::new();
    let identity = manifest(1, &RESOURCES);
    let key = rig.commit_at(&identity, 2);
    let request = find_request("same-request");

    let (matched, minted, _) = resolved(rig.find(&request, &identity, None).unwrap());
    assert_eq!(matched, 2 * BLOCK_SIZE);
    let live = minted.expect("bundle hit mints the existing handle type");

    rig.catalog.as_mut().unwrap().invalidate_key(key);
    let (matched, minted, release) =
        resolved(rig.find(&request, &identity, Some(live)).unwrap());
    assert_eq!(matched, 2 * BLOCK_SIZE, "the parked lease stays stable");
    assert!(minted.is_none(), "identical repolls reuse the handle");
    assert!(!release);

    let cross = find_request("cross-request");
    let (matched, minted, _) = resolved(rig.find(&cross, &identity, None).unwrap());
    assert_eq!(matched, 0, "removed bundles are not cross-request hits");
    assert!(minted.is_none());
    assert!(rig.searches.as_mut().unwrap().release(&live));
}

#[test]
fn changed_manifest_or_resource_set_desyncs() {
    let mut rig = Rig::new();
    let identity = manifest(1, &RESOURCES);
    rig.commit_at(&identity, 2);
    let request = find_request("rq");
    let (_, minted, _) = resolved(rig.find(&request, &identity, None).unwrap());
    let live = minted.unwrap();

    for changed in [
        manifest(2, &RESOURCES),
        manifest(1, &[RESOURCES[0], LogicalResourceId(92)]),
    ] {
        assert_eq!(
            rig.find(&request, &changed, Some(live)),
            Err(FindBlocksDesync)
        );
    }
}

fn plan(
    key: BundleKey,
    generation: u64,
    blocks: impl Fn(usize) -> Vec<(SequenceHash, usize)>,
) -> BundleOffloadPlan {
    BundleOffloadPlan {
        identity: manifest(1, &RESOURCES),
        key,
        generation,
        mode: OffloadMode::Move,
        resources: RESOURCES
            .iter()
            .enumerate()
            .map(|(index, &resource)| ResourceOffload {
                resource,
                blocks: blocks(index),
            })
            .collect(),
    }
}

#[test]
fn bundle_offload_publishes_once_and_onboard_requires_its_exact_lease() {
    let mut rig = Rig::new();
    let identity = manifest(1, &RESOURCES);
    let key = BundleKey::new(&identity, hash(1), BLOCK_SIZE as u64).unwrap();
    let supported = KeySet::from_keys(&RESOURCES).0;
    let (mut runtime, children) = BundleOffloadRuntime::start_bundle_offload(
        plan(key, 3, |index| vec![(hash(1), 20 + index)]),
        &supported,
    )
    .unwrap();
    let mut advertised = Vec::new();
    let mut terminals = Vec::new();
    for child in children {
        let catalog = rig.catalog.as_mut().unwrap();
        assert!(
            catalog.lease_exact(&identity, &key).is_none(),
            "buffering cannot publish a partial bundle"
        );
        let pins = vec![PinnedBlock {
            block_id: 1,
            sequence_hash: hash(1),
            handle: (),
        }];
        let finished = finish_offload_child(
            &mut runtime,
            catalog,
            Some(child.resource),
            &child.blocks,
            ActionStatus::Complete,
            pins,
        );
        advertised.extend(finished.advertise);
        terminals.extend(finished.terminal);
    }
    assert_eq!(terminals, vec![ActionStatus::Complete]);
    assert_eq!(advertised.len(), 1);
    assert_eq!(advertised[0].key, key);
    assert_eq!(advertised[0].identity.resource_ids(), RESOURCES.to_vec());
    assert_eq!(
        rig.catalog
            .as_ref()
            .unwrap()
            .dependents(RESOURCES[0], hash(1)),
        vec![key],
        "publication installs resource-lineage invalidation before visibility"
    );

    let mut request = find_request("bundle-rq");
    request.total_tokens = BLOCK_SIZE + 1;
    let (matched_tokens, minted, _) = resolved(rig.find(&request, &identity, None).unwrap());
    assert_eq!(matched_tokens, BLOCK_SIZE);
    let search = minted.expect("committed bundle must resolve through manifest search");
    let invalidated = rig
        .catalog
        .as_mut()
        .unwrap()
        .invalidate_resource(RESOURCES[2], &[hash(1)]);
    assert_eq!(invalidated[0].key, key);

    let destination = |resource, block| ResourceDestination {
        resource,
        block_ids: vec![block],
    };
    let searches = rig.searches.as_mut().unwrap();
    let mut onboard = |destinations| {
        searches.start_searched_bundle_onboard(
            Some(search),
            &"bundle-rq".to_owned(),
            destinations,
            matched_tokens,
            &supported,
        )
    };
    let duplicate = onboard(vec![
        destination(RESOURCES[0], 100),
        destination(RESOURCES[0], 999),
        destination(RESOURCES[1], 101),
        destination(RESOURCES[2], 102),
    ]);
    assert_eq!(
        duplicate.unwrap_err(),
        SearchedOnboardError::Plan(OnboardPlanError::DuplicateDestination {
            resource: RESOURCES[0],
        })
    );
    let searched = onboard(
        RESOURCES
            .into_iter()
            .enumerate()
            .map(|(index, resource)| destination(resource, 100 + index))
            .collect(),
    )
    .unwrap();
    assert!(searched.inflight_hashes.contains(&hash(1)));
}

#[test]
fn bundle_offload_rejects_incomplete_or_wrong_lineage_children() {
    let identity = manifest(1, &RESOURCES);
    let key = BundleKey::new(&identity, hash(2), (2 * BLOCK_SIZE) as u64).unwrap();
    let supported = KeySet::from_keys(&RESOURCES).0;
    let incomplete = plan(key, 1, |index| vec![(hash(2), 20 + index)]);
    assert!(matches!(
        validate_bundle_offload(&incomplete, &supported),
        Err(OffloadPlanError::BlockCount { .. })
    ));
    let wrong_lineage = plan(key, 1, |index| {
        if index < 2 {
            vec![(hash(1), 30 + index), (hash(99), 40 + index)]
        } else {
            vec![(hash(99), 40 + index)]
        }
    });
    assert!(matches!(
        validate_bundle_offload(&wrong_lineage, &supported),
        Err(OffloadPlanError::BoundaryHash { .. })
    ));
}

#[test]
fn explicit_same_request_resource_restore_does_not_require_a_bundle_identity() {
    let resources: Vec<_> = RESOURCES
        .into_iter()
        .enumerate()
        .map(|(index, resource)| ResourceOnboard {
            resource,
            source_block_ids: vec![index],
            destination_block_ids: vec![100 + index],
        })
        .collect();
    assert_eq!(
        start_resource_onboard(&resources, &KeySet::from_keys(&RESOURCES).0),
        Ok(vec![100, 101, 102])
    );
    let mut batch = DispatchBatch::new(resources);
    let mut completed = Vec::new();
    while let Some(transfer) = batch.next() {
        completed.push(CompletedResource {
            resource: transfer.resource,
            destination_block_ids: transfer.destination_block_ids.clone(),
            succeeded: true,
        });
        batch.report(true);
    }
    assert_eq!(
        fold_resource_onboard(batch.failure(), &completed),
        ActionStatus::Complete
    );
}

#[test]
fn resource_policy_role_must_agree_with_the_manifest() {
    let mut policies = ResourcePolicies::new();
    let mut widths = ResourceComponentBytes::new();
    for resource in RESOURCES {
        policies
            .insert(
                resource,
                ResourcePolicy::new(
                    ResourceRole::BoundaryCapsule,
                    InactiveBackendConfig::Lru,
                    InactiveBackendConfig::Lru,
                ),
            )
            .unwrap();
        widths
            .insert(resource, vec![PositiveU64::new(1).unwrap()])
            .unwrap();
    }
    let identity = manifest(1, &RESOURCES);
    let key = BundleKey::new(&identity, hash(1), BLOCK_SIZE as u64).unwrap();
    let admission = BundleAdmissionConfig::new(policies, widths).admit_bundle(
        &plan(key, 1, |index| vec![(hash(1), 50 + index)]),
        &KeySet::from_keys(&RESOURCES).0,
        &KeyMap::new(),
    );
    let rejection = admission.rejection.unwrap();
    assert_eq!(rejection.resource, RESOURCES[0]);
    assert!(matches!(
        rejection.reason,
        AdmissionReason::RoleMismatch { .. }
    ));
}
