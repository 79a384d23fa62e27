//! The bundle index and catalog, finding, offloading, onboarding and capsules.

use std::sync::{Arc, Weak};

use kvbm_engine::bundle::barrier::{BarrierError, BarrierState, BarrierUpdate, ResourceBarrier};
use kvbm_engine::bundle::capsule::{
    CapsuleDescriptor, CapsuleError, CapsulePoolCopy, CapsuleStorage,
};
use kvbm_engine::bundle::catalog::{BundleCatalog, BundleCatalogError, InvalidatedBundle};
use kvbm_engine::bundle::find::BundleFindQuery;
use kvbm_engine::bundle::index::{
    BlockPin, BundleIndex, BundleIndexError, BundleResourcePin, BundleResourceReference,
    CommitDisposition, PinnedBlock, WeakBlockPin,
};
use kvbm_engine::bundle::offload::{
    BundleOffload, BundleOffloadError, BundleOffloadState, OffloadMode, OffloadTransition,
};
use kvbm_engine::bundle::onboard::{
    BundleOnboard, BundleOnboardError, BundleOnboardState, OnboardTransition,
};
use kvbm_engine::ids::{BundleKey, CacheManifestId, LogicalResourceId, SequenceHash};
use kvbm_engine::manifest::{
    CacheIdentity, CacheIdentityError, ResourceRequirement, ResourceRole, UnalignedBoundary,
};
use kvbm_engine::ordered::KeyMap;
use kvbm_engine::policy::dependency::{BundleDependencyIndex, DependencyError, ResourceLineage};

const CSA: LogicalResourceId = LogicalResourceId(10);
const HCA: LogicalResourceId = LogicalResourceId(11);
const CAPSULE: LogicalResourceId = LogicalResourceId(12);
const BLOCK: usize = 4;

/// A pin that its references share.
struct SharedPin(Arc<str>);

impl BundleResourcePin for SharedPin {
    type Reference = SharedPin;

    fn make_reference(&self) -> SharedPin {
        SharedPin(Arc::clone(&self.0))
    }
}

impl BundleResourceReference for SharedPin {
    type Pin = SharedPin;

    fn reacquire(&self) -> Option<SharedPin> {
        Some(SharedPin(Arc::clone(&self.0)))
    }
}

struct EphemeralPin(Arc<str>);

struct EphemeralReference(Weak<str>);

impl BundleResourcePin for EphemeralPin {
    type Reference = EphemeralReference;

    fn make_reference(&self) -> EphemeralReference {
        EphemeralReference(Arc::downgrade(&self.0))
    }
}

impl BundleResourceReference for EphemeralReference {
    type Pin = EphemeralPin;

    fn reacquire(&self) -> Option<EphemeralPin> {
        self.0.upgrade().map(EphemeralPin)
    }
}

fn requirement(
    resource: LogicalResourceId,
    role: ResourceRole,
    native_block_tokens: u64,
) -> ResourceRequirement {
    ResourceRequirement {
        resource,
        role,
        native_block_tokens,
    }
}

fn manifest_id(id: u128) -> CacheManifestId {
    CacheManifestId { high: 0, low: id }
}

fn identity_of(revision: u128) -> CacheIdentity {
    CacheIdentity::new(
        manifest_id(revision),
        256,
        vec![
            requirement(CSA, ResourceRole::PrefixHistory, 256),
            requirement(HCA, ResourceRole::PrefixHistory, 256),
            requirement(CAPSULE, ResourceRole::BoundaryCapsule, 256),
        ],
    )
    .expect("valid identity")
}

fn identity() -> CacheIdentity {
    identity_of(1)
}

fn token_hash(token: u64) -> SequenceHash {
    SequenceHash::new(u128::from(token), token)
}

fn key_of(identity: &CacheIdentity, token: u64) -> BundleKey {
    BundleKey::new(identity, token_hash(token), token).expect("aligned key")
}

fn bundle_key(tokens: u64) -> BundleKey {
    key_of(&identity(), tokens)
}

fn text(value: &'static str) -> Arc<str> {
    Arc::from(value)
}

fn pin(value: &Arc<str>) -> SharedPin {
    SharedPin(Arc::clone(value))
}

fn complete_pins() -> Vec<(LogicalResourceId, SharedPin)> {
    vec![
        (CSA, SharedPin(text("csa"))),
        (HCA, SharedPin(text("hca"))),
        (CAPSULE, SharedPin(text("capsule"))),
    ]
}

#[test]
fn incomplete_candidates_never_enter_the_committed_index() {
    let identity = identity();
    let mut index = BundleIndex::new();

    let error = index
        .commit(
            &identity,
            bundle_key(256),
            1,
            vec![(CSA, SharedPin(text("csa")))],
        )
        .expect_err("CSA alone is not a complete bundle");
    assert_eq!(
        error,
        BundleIndexError::MissingResources {
            resources: vec![HCA, CAPSULE]
        }
    );
    assert!(index
        .find_longest(&identity, &[(token_hash(256), 256)])
        .is_none());

    let error = index
        .commit(
            &identity,
            bundle_key(256),
            1,
            vec![
                (CSA, SharedPin(text("csa"))),
                (HCA, SharedPin(text("hca"))),
            ],
        )
        .expect_err("histories without a capsule are incomplete");
    assert_eq!(
        error,
        BundleIndexError::MissingResources {
            resources: vec![CAPSULE]
        }
    );
}

#[test]
fn complete_bundle_returns_the_longest_matching_boundary() {
    let identity = identity();
    let mut index = BundleIndex::new();
    index
        .commit(&identity, bundle_key(256), 1, complete_pins())
        .expect("commit 256");
    index
        .commit(&identity, bundle_key(512), 2, complete_pins())
        .expect("commit 512");

    let lease = index
        .find_longest(
            &identity,
            &[(token_hash(512), 512), (token_hash(256), 256)],
        )
        .expect("complete bundle match");

    assert_eq!(lease.key().boundary_tokens, 512);
    assert_eq!(lease.generation(), 2);
    assert_eq!(lease.resources().len(), 3);
}

#[test]
fn manifest_and_boundary_hash_mismatches_are_misses() {
    let stored = identity_of(1);
    let incompatible = identity_of(2);
    let mut index = BundleIndex::new();
    index
        .commit(&stored, key_of(&stored, 256), 1, complete_pins())
        .expect("commit complete bundle");

    assert!(index
        .find_longest(&incompatible, &[(token_hash(256), 256)])
        .is_none());
    assert!(index
        .find_longest(&stored, &[(SequenceHash::new(999, 256), 256)])
        .is_none());
}

#[test]
fn bundle_lease_clones_every_resource_pin() {
    let identity = identity();
    let csa = text("csa");
    let hca = text("hca");
    let capsule = text("capsule");
    let mut index = BundleIndex::new();
    index
        .commit(
            &identity,
            bundle_key(256),
            1,
            vec![(CSA, pin(&csa)), (HCA, pin(&hca)), (CAPSULE, pin(&capsule))],
        )
        .expect("commit complete bundle");

    assert_eq!(Arc::strong_count(&csa), 2);
    let lease = index
        .find_longest(&identity, &[(token_hash(256), 256)])
        .expect("complete bundle match");
    assert_eq!(Arc::strong_count(&csa), 3);
    assert_eq!(Arc::strong_count(&hca), 3);
    assert_eq!(Arc::strong_count(&capsule), 3);
    drop(lease);
    assert_eq!(Arc::strong_count(&csa), 2);
}

#[test]
fn missing_child_fails_closed_and_drops_every_partial_reacquisition() {
    let identity = identity();
    let csa = text("csa");
    let hca = text("hca");
    let capsule = text("capsule");
    let bundle_key = bundle_key(256);
    let mut index = BundleIndex::new();
    index
        .commit(
            &identity,
            bundle_key,
            1,
            vec![
                (CSA, EphemeralPin(Arc::clone(&csa))),
                (HCA, EphemeralPin(Arc::clone(&hca))),
                (CAPSULE, EphemeralPin(Arc::clone(&capsule))),
            ],
        )
        .unwrap();
    assert_eq!(Arc::strong_count(&csa), 1, "the index must not pin CSA");
    drop(hca);

    assert!(index.lease_exact(&identity, &bundle_key).is_none());
    assert_eq!(
        Arc::strong_count(&csa),
        1,
        "a failed all-resource lookup must drop earlier reacquisitions"
    );
    assert_eq!(Arc::strong_count(&capsule), 1);
}

#[test]
fn returned_lease_survives_index_invalidation_and_source_eviction() {
    let identity = identity();
    let csa = text("csa");
    let hca = text("hca");
    let capsule = text("capsule");
    let bundle_key = bundle_key(256);
    let mut index = BundleIndex::new();
    index
        .commit(
            &identity,
            bundle_key,
            1,
            vec![
                (CSA, EphemeralPin(Arc::clone(&csa))),
                (HCA, EphemeralPin(Arc::clone(&hca))),
                (CAPSULE, EphemeralPin(Arc::clone(&capsule))),
            ],
        )
        .unwrap();
    let lease = index.lease_exact(&identity, &bundle_key).unwrap();
    drop((csa, hca, capsule));
    assert!(index.invalidate(bundle_key));

    assert_eq!(lease.resources().len(), 3);
    assert!([CSA, HCA, CAPSULE]
        .iter()
        .all(|resource| Arc::strong_count(&lease.resources().get(resource).unwrap().0) == 1));
}

#[test]
fn older_generation_cannot_overwrite_a_newer_capsule_bundle() {
    let identity = identity();
    let bundle_key = bundle_key(256);
    let original = text("new-generation");
    let mut index = BundleIndex::new();
    index
        .commit(
            &identity,
            bundle_key,
            8,
            vec![
                (CSA, pin(&original)),
                (HCA, SharedPin(text("hca"))),
                (CAPSULE, SharedPin(text("capsule"))),
            ],
        )
        .unwrap();

    assert_eq!(
        index.commit(&identity, bundle_key, 7, complete_pins()),
        Err(BundleIndexError::StaleGeneration {
            current: 8,
            attempted: 7,
        })
    );
    index
        .commit(&identity, bundle_key, 8, complete_pins())
        .expect("same-generation retry is idempotent");
    let lease = index
        .find_longest(&identity, &[(token_hash(256), 256)])
        .unwrap();
    assert_eq!(lease.generation(), 8);
    assert_eq!(Arc::strong_count(&original), 3);
}

#[test]
fn resource_invalidation_removes_every_dependent_bundle_from_visibility() {
    let identity = identity();
    let shallow = bundle_key(256);
    let deep = bundle_key(512);
    let shallow_hash = shallow.boundary_hash;
    let mut bundles = BundleIndex::new();
    bundles
        .commit(&identity, shallow, 1, complete_pins())
        .unwrap();
    bundles.commit(&identity, deep, 2, complete_pins()).unwrap();

    let mut dependencies = BundleDependencyIndex::new();
    dependencies
        .track(
            shallow,
            &[ResourceLineage::new(
                CSA,
                ResourceRole::PrefixHistory,
                vec![shallow_hash],
            )],
        )
        .unwrap();
    dependencies
        .track(
            deep,
            &[ResourceLineage::new(
                CSA,
                ResourceRole::PrefixHistory,
                vec![shallow_hash, deep.boundary_hash],
            )],
        )
        .unwrap();

    for event in dependencies.invalidate(CSA, shallow_hash) {
        bundles.invalidate(event.key());
    }

    assert!(bundles.lease_exact(&identity, &shallow).is_none());
    assert!(bundles.lease_exact(&identity, &deep).is_none());
}

#[test]
fn commits_of_foreign_repeated_and_unknown_resources_are_refused() {
    let identity = identity();
    let other = identity_of(2);
    let mut index: BundleIndex<u8> = BundleIndex::new();
    assert_eq!(
        index.commit(&other, bundle_key(256), 1, vec![]),
        Err(BundleIndexError::ManifestMismatch {
            expected: manifest_id(2),
            actual: manifest_id(1),
        })
    );
    assert_eq!(
        index.commit(&identity, bundle_key(256), 1, vec![(CSA, 1), (CSA, 2)]),
        Err(BundleIndexError::DuplicateResource { resource: CSA })
    );
    let stranger = LogicalResourceId(99);
    assert_eq!(
        index.commit(&identity, bundle_key(256), 1, vec![(stranger, 1)]),
        Err(BundleIndexError::UnexpectedResource { resource: stranger })
    );
    index
        .commit(
            &identity,
            bundle_key(256),
            4,
            vec![(CSA, 1), (HCA, 2), (CAPSULE, 3)],
        )
        .unwrap();
    assert_eq!(index.generation(&bundle_key(256)), Some(4));
    assert_eq!(index.remove(bundle_key(256)), Some(4));
    assert_eq!(index.generation(&bundle_key(256)), None);
    assert!(!index.invalidate(bundle_key(256)));
}

#[test]
fn identities_and_keys_refuse_what_does_not_align() {
    let history = requirement(CSA, ResourceRole::PrefixHistory, 3);
    assert_eq!(
        CacheIdentity::new(manifest_id(1), 0, vec![history]).unwrap_err(),
        CacheIdentityError::ZeroAlignment
    );
    assert_eq!(
        CacheIdentity::new(manifest_id(1), 3, vec![history, history]).unwrap_err(),
        CacheIdentityError::DuplicateResource(CSA)
    );
    assert_eq!(
        CacheIdentity::new(manifest_id(1), 4, vec![history]).unwrap_err(),
        CacheIdentityError::MisalignedResource(CSA)
    );
    assert_eq!(
        BundleKey::new(&identity(), token_hash(255), 255),
        Err(UnalignedBoundary {
            boundary_tokens: 255,
            alignment_tokens: 256,
        })
    );
    assert!(BundleKey::new(&identity(), token_hash(0), 0).is_err());
    assert_eq!(identity().canonical_history().unwrap().resource, CSA);
}

const HISTORY: LogicalResourceId = LogicalResourceId(40);
const SHORT_CAPSULE: LogicalResourceId = LogicalResourceId(41);

fn identity_and_key() -> (CacheIdentity, BundleKey) {
    let identity = CacheIdentity::new(
        manifest_id(8),
        4,
        vec![
            requirement(HISTORY, ResourceRole::PrefixHistory, 4),
            requirement(SHORT_CAPSULE, ResourceRole::BoundaryCapsule, 4),
        ],
    )
    .unwrap();
    let key = BundleKey::new(&identity, SequenceHash::new(1, 1), 4).unwrap();
    (identity, key)
}

fn resources() -> KeyMap<LogicalResourceId, SharedPin> {
    KeyMap::collect(vec![
        (HISTORY, SharedPin(text("history"))),
        (SHORT_CAPSULE, SharedPin(text("capsule"))),
    ])
}

fn lineages(key: BundleKey) -> Vec<ResourceLineage> {
    vec![
        ResourceLineage::new(
            HISTORY,
            ResourceRole::PrefixHistory,
            vec![key.boundary_hash],
        ),
        ResourceLineage::new(
            SHORT_CAPSULE,
            ResourceRole::BoundaryCapsule,
            vec![key.boundary_hash],
        ),
    ]
}

#[test]
fn invalidation_tombstone_rejects_same_generation_republication() {
    let (identity, key) = identity_and_key();
    let resources = resources();
    let mut catalog = BundleCatalog::new();
    catalog
        .commit(&identity, key, 9, &resources, &lineages(key))
        .unwrap();
    assert_eq!(
        catalog
            .invalidate_resource(HISTORY, &[key.boundary_hash])
            .len(),
        1
    );

    assert_eq!(
        catalog.commit(&identity, key, 9, &resources, &lineages(key)),
        Err(BundleCatalogError::RetiredGeneration {
            retired: 9,
            attempted: 9,
        })
    );
    catalog
        .commit(&identity, key, 10, &resources, &lineages(key))
        .expect("a genuinely newer generation may replace the tombstone");
}

#[test]
fn eviction_after_publication_leaves_neither_lease_nor_dependency() {
    let (identity, key) = identity_and_key();
    let resources = resources();
    let mut catalog = BundleCatalog::new();
    assert_eq!(
        catalog.commit(&identity, key, 1, &resources, &lineages(key)),
        Ok(CommitDisposition::Install)
    );
    assert_eq!(
        catalog.commit(&identity, key, 1, &resources, &lineages(key)),
        Ok(CommitDisposition::Idempotent)
    );
    assert!(catalog.lease_exact(&identity, &key).is_some());
    assert_eq!(catalog.dependents(HISTORY, key.boundary_hash), vec![key]);
    assert_eq!(
        catalog.invalidate_resource(HISTORY, &[key.boundary_hash]),
        vec![InvalidatedBundle { key, generation: 1 }]
    );
    assert!(catalog.lease_exact(&identity, &key).is_none());
    assert!(catalog.dependents(HISTORY, key.boundary_hash).is_empty());
    assert_eq!(catalog.invalidate_key(key), None);
}

#[test]
fn evictions_are_listed_block_after_block_and_then_by_key() {
    let (identity, _) = identity_and_key();
    let chain: Vec<_> = (1..=3).map(|at| SequenceHash::new(at, at as u64)).collect();
    let mut catalog = BundleCatalog::new();
    let keys: Vec<_> = chain
        .iter()
        .enumerate()
        .map(|(at, &hash)| BundleKey::new(&identity, hash, 4 * (at as u64 + 1)).unwrap())
        .collect();
    for (at, &key) in keys.iter().enumerate() {
        let lineages = [
            ResourceLineage::new(
                HISTORY,
                ResourceRole::PrefixHistory,
                chain[..=at].to_vec(),
            ),
            ResourceLineage::new(
                SHORT_CAPSULE,
                ResourceRole::BoundaryCapsule,
                vec![key.boundary_hash],
            ),
        ];
        catalog
            .commit(&identity, key, at as u64 + 1, &resources(), &lineages)
            .unwrap();
    }
    let removed = |catalog: &mut BundleCatalog<SharedPin>, hashes: &[SequenceHash]| {
        catalog
            .invalidate_resource(HISTORY, hashes)
            .into_iter()
            .map(|bundle| bundle.key)
            .collect::<Vec<_>>()
    };
    assert_eq!(
        removed(&mut catalog, &[chain[2], chain[0]]),
        vec![keys[2], keys[0], keys[1]]
    );
}

#[test]
fn a_commit_that_the_index_refuses_leaves_the_catalog_as_it_was() {
    let (identity, key) = identity_and_key();
    let mut catalog = BundleCatalog::new();
    catalog
        .commit(&identity, key, 1, &resources(), &lineages(key))
        .unwrap();
    let mut partial = resources();
    partial.remove(&SHORT_CAPSULE);
    assert_eq!(
        catalog.commit(&identity, key, 2, &partial, &lineages(key)),
        Err(BundleCatalogError::Index(
            BundleIndexError::MissingResources {
                resources: vec![SHORT_CAPSULE],
            }
        ))
    );
    assert_eq!(
        catalog.lease_exact(&identity, &key).unwrap().generation(),
        1
    );
    assert_eq!(catalog.dependents(HISTORY, key.boundary_hash), vec![key]);
}

#[test]
fn a_commit_whose_lineages_do_not_fit_leaves_no_generation_visible() {
    for generation in [1, 2] {
        let (identity, key) = identity_and_key();
        let mut catalog = BundleCatalog::new();
        catalog
            .commit(&identity, key, 1, &resources(), &lineages(key))
            .unwrap();
        assert_eq!(
            catalog.commit(&identity, key, generation, &resources(), &[]),
            Err(BundleCatalogError::Dependency(DependencyError::NoResources))
        );
        assert!(catalog.lease_exact(&identity, &key).is_none());
        assert!(catalog.dependents(HISTORY, key.boundary_hash).is_empty());
        catalog
            .commit(&identity, key, 1, &resources(), &lineages(key))
            .expect("a dropped bundle is not retired");
    }
}

#[test]
fn a_repeated_commit_takes_over_the_new_lineages() {
    let (identity, key) = identity_and_key();
    let mut catalog = BundleCatalog::new();
    catalog
        .commit(&identity, key, 1, &resources(), &lineages(key))
        .unwrap();
    let earlier = SequenceHash::new(9, 0);
    let longer = [ResourceLineage::new(
        HISTORY,
        ResourceRole::PrefixHistory,
        vec![earlier, key.boundary_hash],
    )];
    assert_eq!(
        catalog.commit(&identity, key, 1, &resources(), &longer),
        Ok(CommitDisposition::Idempotent)
    );
    assert_eq!(catalog.dependents(HISTORY, earlier), vec![key]);
    assert!(catalog
        .dependents(SHORT_CAPSULE, key.boundary_hash)
        .is_empty());
    assert!(catalog.lease_exact(&identity, &key).is_some());
}

/// What keeps a block of a store in place.
#[derive(Debug)]
struct Handle(Arc<()>);

struct WeakHandle(Weak<()>);

impl BlockPin for Handle {
    type Weak = WeakHandle;

    fn downgrade(&self) -> WeakHandle {
        WeakHandle(Arc::downgrade(&self.0))
    }

    fn share(&self) -> Handle {
        Handle(Arc::clone(&self.0))
    }
}

impl WeakBlockPin for WeakHandle {
    type Pin = Handle;

    fn upgrade(&self) -> Option<Handle> {
        self.0.upgrade().map(Handle)
    }
}

#[test]
fn leased_blocks_are_held_and_evicted_ones_are_noticed() {
    let (identity, key) = identity_and_key();
    let stored = [Arc::new(()), Arc::new(())];
    let pinned = |at: usize| {
        vec![PinnedBlock {
            block_id: at,
            sequence_hash: key.boundary_hash,
            handle: Handle(Arc::clone(&stored[at])),
        }]
    };
    let mut index = BundleIndex::new();
    index
        .commit(
            &identity,
            key,
            1,
            vec![(HISTORY, pinned(0)), (SHORT_CAPSULE, pinned(1))],
        )
        .unwrap();
    assert_eq!(Arc::strong_count(&stored[0]), 1);
    let lease = index.lease_exact(&identity, &key).unwrap();
    assert_eq!(Arc::strong_count(&stored[0]), 2);
    let shared = lease.resources().get(&HISTORY).unwrap()[0].share();
    assert_eq!(shared.block_id, 0);
    assert_eq!(Arc::strong_count(&stored[0]), 3);
    drop((lease, shared));
    drop(stored);
    assert!(index.lease_exact(&identity, &key).is_none());
}

const FIND_HISTORY: LogicalResourceId = LogicalResourceId(80);
const FIND_CAPSULE: LogicalResourceId = LogicalResourceId(81);

fn hash(block: usize) -> SequenceHash {
    SequenceHash::new(block as u128, block as u64)
}

fn eligible_blocks(total_tokens: usize, chain_len: usize) -> usize {
    (total_tokens.saturating_sub(1) / BLOCK).min(chain_len)
}

fn find_identity(resources: [LogicalResourceId; 2]) -> CacheIdentity {
    CacheIdentity::new(
        manifest_id(5),
        8,
        resources
            .into_iter()
            .map(|resource| {
                let (role, tokens) = if resource == FIND_CAPSULE {
                    (ResourceRole::BoundaryCapsule, 8)
                } else {
                    (ResourceRole::PrefixHistory, 4)
                };
                requirement(resource, role, tokens)
            })
            .collect(),
    )
    .unwrap()
}

fn commit(index: &mut BundleIndex<u8>, identity: &CacheIdentity, boundary: usize) {
    index
        .commit(
            identity,
            BundleKey::new(identity, hash(boundary / BLOCK), boundary as u64).unwrap(),
            boundary as u64,
            vec![(FIND_HISTORY, 1), (FIND_CAPSULE, 2)],
        )
        .unwrap();
}

#[test]
fn fixed_point_returns_greatest_complete_aligned_boundary() {
    let identity = find_identity([FIND_HISTORY, FIND_CAPSULE]);
    let chain = (1..=8).map(hash).collect::<Vec<_>>();
    let mut index = BundleIndex::new();
    commit(&mut index, &identity, 8);
    commit(&mut index, &identity, 24);

    let found = BundleFindQuery::new(
        &identity,
        &chain,
        0,
        eligible_blocks(8 * BLOCK + 1, chain.len()),
        BLOCK,
    )
    .find(&index)
    .unwrap();

    assert_eq!(found.lease().key().boundary_tokens, 24);
    assert_eq!(found.matched_tokens(), 24);
}

#[test]
fn missing_later_capsule_forces_an_earlier_complete_bundle() {
    let identity = find_identity([FIND_HISTORY, FIND_CAPSULE]);
    let chain = (1..=8).map(hash).collect::<Vec<_>>();
    let mut index = BundleIndex::new();
    commit(&mut index, &identity, 8);

    let found = BundleFindQuery::new(
        &identity,
        &chain,
        0,
        eligible_blocks(8 * BLOCK + 1, chain.len()),
        BLOCK,
    )
    .find(&index)
    .unwrap();

    assert_eq!(found.lease().key().boundary_tokens, 8);
}

#[test]
fn final_block_is_excluded_when_total_tokens_is_block_aligned() {
    let identity = find_identity([FIND_HISTORY, FIND_CAPSULE]);
    let chain = (1..=4).map(hash).collect::<Vec<_>>();
    let mut index = BundleIndex::new();
    commit(&mut index, &identity, 8);
    commit(&mut index, &identity, 16);

    let found = BundleFindQuery::new(
        &identity,
        &chain,
        0,
        eligible_blocks(4 * BLOCK, chain.len()),
        BLOCK,
    )
    .find(&index)
    .unwrap();

    assert_eq!(found.lease().key().boundary_tokens, 8);
}

#[test]
fn result_is_invariant_to_manifest_resource_input_order() {
    let left = find_identity([FIND_HISTORY, FIND_CAPSULE]);
    let right = find_identity([FIND_CAPSULE, FIND_HISTORY]);
    assert_eq!(left, right);
    let chain = (1..=4).map(hash).collect::<Vec<_>>();
    let mut left_index = BundleIndex::new();
    let mut right_index = BundleIndex::new();
    commit(&mut left_index, &left, 8);
    commit(&mut right_index, &right, 8);

    let left_found = BundleFindQuery::new(
        &left,
        &chain,
        0,
        eligible_blocks(4 * BLOCK + 1, chain.len()),
        BLOCK,
    )
    .find(&left_index)
    .unwrap();
    let right_found = BundleFindQuery::new(
        &right,
        &chain,
        0,
        eligible_blocks(4 * BLOCK + 1, chain.len()),
        BLOCK,
    )
    .find(&right_index)
    .unwrap();

    assert_eq!(left_found.lease().key(), right_found.lease().key());
}

#[test]
fn optimized_find_matches_a_slow_exhaustive_oracle() {
    let identity = find_identity([FIND_HISTORY, FIND_CAPSULE]);
    let chain = (1..=16).map(hash).collect::<Vec<_>>();
    for committed in 0u32..256 {
        let present = |boundary: usize| committed >> (boundary / 8 - 1) & 1 == 1;
        let mut index = BundleIndex::new();
        for boundary in (8..=64).step_by(8).filter(|boundary| present(*boundary)) {
            commit(&mut index, &identity, boundary);
        }
        for computed_tokens in (0..12).map(|blocks| blocks * BLOCK) {
            for total_tokens in 1..=16 * BLOCK + 1 {
                let query = BundleFindQuery::new(
                    &identity,
                    &chain,
                    computed_tokens,
                    eligible_blocks(total_tokens, chain.len()),
                    BLOCK,
                );
                let actual = query.find(&index).map(|found| *found.lease().key());
                let eligible = total_tokens.saturating_sub(1) / BLOCK;
                let expected = (1..=eligible.min(chain.len()))
                    .map(|block| block * BLOCK)
                    .filter(|boundary| *boundary > computed_tokens)
                    .filter(|boundary| boundary % 8 == 0)
                    .filter(|boundary| present(*boundary))
                    .max()
                    .map(|boundary| {
                        BundleKey::new(&identity, hash(boundary / BLOCK), boundary as u64).unwrap()
                    });
                assert_eq!(actual, expected);
            }
        }
    }
}

#[test]
fn a_minimum_boundary_hides_shallower_bundles() {
    let identity = find_identity([FIND_HISTORY, FIND_CAPSULE]);
    let chain = (1..=8).map(hash).collect::<Vec<_>>();
    let mut index = BundleIndex::new();
    commit(&mut index, &identity, 8);
    let query = BundleFindQuery::new(&identity, &chain, 0, 8, BLOCK).with_minimum_boundary(16);
    assert!(query.find(&index).is_none());
    commit(&mut index, &identity, 16);
    assert_eq!(query.find(&index).unwrap().matched_tokens(), 16);
    let keys = query.candidate_keys();
    assert_eq!(keys[0].boundary_tokens, 32);
    assert_eq!(keys.last().unwrap().boundary_tokens, 16);
    assert!(query.contains(&keys[0]));
    assert_eq!(query.matched_tokens_for(&keys[0]), Some(32));
    let shallow = BundleKey::new(&identity, hash(2), 8).unwrap();
    assert!(!query.contains(&shallow));
    let resumed =
        BundleFindQuery::bundle_find_query(&identity, &chain, 0, 8, BLOCK, Some(keys[2]));
    assert_eq!(resumed.candidate_keys(), keys);
    assert_eq!(query.matched_tokens_for(&shallow), None);
}

fn pins() -> (KeyMap<LogicalResourceId, Arc<()>>, Vec<Weak<()>>) {
    let pins: Vec<_> = [CSA, HCA, CAPSULE]
        .into_iter()
        .map(|resource| (resource, Arc::new(())))
        .collect();
    let weak = pins.iter().map(|(_, pin)| Arc::downgrade(pin)).collect();
    (KeyMap::collect(pins), weak)
}

#[test]
fn offload_publishes_once_only_after_every_resource_completes() {
    let (sources, _) = pins();
    let mut offload =
        BundleOffload::new(identity(), bundle_key(512), 7, OffloadMode::Mirror, sources).unwrap();
    assert_eq!(offload.start(), BundleOffloadState::Transferring);

    assert!(matches!(
        offload.complete(CSA, Ok(Arc::new(()))).unwrap(),
        OffloadTransition::Pending
    ));
    assert!(matches!(
        offload.complete(CAPSULE, Ok(Arc::new(()))).unwrap(),
        OffloadTransition::Pending
    ));
    let OffloadTransition::Commit(commit) = offload.complete(HCA, Ok(Arc::new(()))).unwrap() else {
        panic!("the final resource must publish one commit");
    };
    assert_eq!(commit.resources().len(), 3);
    assert_eq!(commit.key(), &bundle_key(512));
    assert_eq!(commit.generation(), 7);
    assert_eq!(commit.retained_sources().unwrap().len(), 3);

    assert_eq!(
        offload.complete(HCA, Ok(Arc::new(()))).unwrap(),
        OffloadTransition::Settled(BundleOffloadState::Committed),
        "a duplicate completion cannot publish twice"
    );
}

#[test]
fn failed_resource_aborts_staging_and_retains_every_source_pin() {
    let (sources, source_weak) = pins();
    let staged = Arc::new(());
    let staged_weak = Arc::downgrade(&staged);
    let mut offload =
        BundleOffload::new(identity(), bundle_key(512), 9, OffloadMode::Move, sources).unwrap();
    offload.start();
    assert!(matches!(
        offload.complete(CSA, Ok(staged)).unwrap(),
        OffloadTransition::Pending
    ));

    let OffloadTransition::Abort(abort) = offload.fail(HCA, Some(vec![4, 8])).unwrap() else {
        panic!("one failed child must abort the bundle");
    };
    assert_eq!(abort.failure().resource(), HCA);
    assert_eq!(abort.failure().failed_blocks(), Some(&[4, 8][..]));
    assert!(
        staged_weak.upgrade().is_none(),
        "staged pins must be dropped"
    );
    assert!(source_weak.iter().all(|pin| pin.upgrade().is_some()));
    assert_eq!(abort.retained_sources().len(), 3);
}

#[test]
fn move_releases_sources_only_after_commit_while_mirror_retains_them() {
    let (move_sources, move_weak) = pins();
    let mut moving = BundleOffload::new(
        identity(),
        bundle_key(256),
        1,
        OffloadMode::Move,
        move_sources,
    )
    .unwrap();
    moving.start();
    moving.complete(CSA, Ok(Arc::new(()))).unwrap();
    moving.complete(HCA, Ok(Arc::new(()))).unwrap();
    assert!(move_weak.iter().all(|pin| pin.upgrade().is_some()));
    let OffloadTransition::Commit(commit) = moving.complete(CAPSULE, Ok(Arc::new(()))).unwrap()
    else {
        panic!("all resources should commit");
    };
    assert!(commit.retained_sources().is_none());
    assert!(move_weak.iter().all(|pin| pin.upgrade().is_none()));

    let (mirror_sources, mirror_weak) = pins();
    let mut mirroring = BundleOffload::new(
        identity(),
        bundle_key(256),
        2,
        OffloadMode::Mirror,
        mirror_sources,
    )
    .unwrap();
    mirroring.start();
    mirroring.complete(CSA, Ok(Arc::new(()))).unwrap();
    mirroring.complete(HCA, Ok(Arc::new(()))).unwrap();
    let OffloadTransition::Commit(commit) = mirroring.complete(CAPSULE, Ok(Arc::new(()))).unwrap()
    else {
        panic!("all resources should commit");
    };
    assert!(mirror_weak.iter().all(|pin| pin.upgrade().is_some()));
    drop(commit);
    assert!(mirror_weak.iter().all(|pin| pin.upgrade().is_none()));
}

#[test]
fn transactions_refuse_foreign_keys_partial_sets_and_early_completions() {
    let (sources, _) = pins();
    let foreign = key_of(&identity_of(2), 256);
    assert_eq!(
        BundleOffload::<Arc<()>, ()>::new(identity(), foreign, 1, OffloadMode::Move, sources)
            .unwrap_err(),
        BundleOffloadError::IncompatibleKey
    );
    let (mut sources, _) = pins();
    sources.remove(&CSA);
    assert_eq!(
        BundleOffload::<Arc<()>, ()>::new(
            identity(),
            bundle_key(256),
            1,
            OffloadMode::Move,
            sources
        )
        .unwrap_err(),
        BundleOffloadError::ResourceSetMismatch
    );
    let (sources, _) = pins();
    let mut early =
        BundleOffload::new(identity(), bundle_key(256), 1, OffloadMode::Move, sources).unwrap();
    assert_eq!(
        early.complete(CSA, Ok(())).unwrap_err(),
        BundleOffloadError::Barrier(BarrierError::NotStarted)
    );
    let (reservations, _) = pins();
    assert_eq!(
        BundleOnboard::new(identity(), foreign, reservations).unwrap_err(),
        BundleOnboardError::IncompatibleKey
    );
    let (mut reservations, _) = pins();
    reservations.remove(&HCA);
    assert_eq!(
        BundleOnboard::new(identity(), bundle_key(256), reservations).unwrap_err(),
        BundleOnboardError::ResourceSetMismatch
    );
}

#[test]
fn barriers_settle_once_every_resource_has_reported() {
    assert_eq!(
        ResourceBarrier::new(&[]).unwrap_err(),
        BarrierError::EmptyResources
    );
    assert_eq!(
        ResourceBarrier::new(&[CSA, CSA]).unwrap_err(),
        BarrierError::DuplicateResource
    );
    let mut barrier = ResourceBarrier::new(&[HCA, CSA]).unwrap();
    assert_eq!(barrier.state(), BarrierState::Prepared);
    assert_eq!(barrier.succeed(CSA), Err(BarrierError::NotStarted));
    assert_eq!(barrier.start(), BarrierState::Transferring);
    assert_eq!(
        barrier.succeed(CAPSULE),
        Err(BarrierError::UnexpectedResource { resource: CAPSULE })
    );
    assert_eq!(barrier.succeed(CSA), Ok(BarrierUpdate::Pending));
    assert_eq!(barrier.succeed(HCA), Ok(BarrierUpdate::Complete));
    assert_eq!(
        barrier.fail(HCA),
        Ok(BarrierUpdate::Settled(BarrierState::Complete))
    );
    let mut failing = ResourceBarrier::new(&[HCA, CSA]).unwrap();
    failing.start();
    assert_eq!(failing.fail(CSA), Ok(BarrierUpdate::Aborted));
    assert_eq!(
        failing.succeed(HCA),
        Ok(BarrierUpdate::Settled(BarrierState::Aborted))
    );
}

#[test]
fn onboard_exposes_computed_boundary_only_at_all_resource_barrier() {
    let (reservations, _) = pins();
    let mut onboard = BundleOnboard::new(identity(), bundle_key(512), reservations).unwrap();
    assert_eq!(onboard.start(), BundleOnboardState::Transferring);

    assert_eq!(onboard.complete(CSA).unwrap(), OnboardTransition::Pending);
    assert_eq!(onboard.complete(HCA).unwrap(), OnboardTransition::Pending);
    let OnboardTransition::Visible(visible) = onboard.complete(CAPSULE).unwrap() else {
        panic!("the final child must cross the visibility barrier");
    };
    assert_eq!(visible.computed_tokens(), 512);
    assert_eq!(visible.reservations().len(), 3);
}

#[test]
fn destination_pressure_aborts_and_releases_every_reservation() {
    let (reservations, weak) = pins();
    let mut onboard = BundleOnboard::new(identity(), bundle_key(256), reservations).unwrap();
    onboard.start();
    onboard.complete(CSA).unwrap();

    let OnboardTransition::Aborted(failure) = onboard.fail(HCA, None).unwrap() else {
        panic!("destination pressure must abort the bundle");
    };
    assert_eq!(failure.resource(), HCA);
    assert!(
        weak.iter()
            .all(|reservation| reservation.upgrade().is_none()),
        "an aborted bundle must release all destination reservations"
    );
}

#[test]
fn duplicate_child_completion_is_idempotent() {
    let (reservations, _) = pins();
    let mut onboard = BundleOnboard::new(identity(), bundle_key(256), reservations).unwrap();
    onboard.start();
    assert_eq!(onboard.complete(CSA).unwrap(), OnboardTransition::Pending);
    assert_eq!(onboard.complete(CSA).unwrap(), OnboardTransition::Pending);
    onboard.complete(HCA).unwrap();
    assert!(matches!(
        onboard.complete(CAPSULE).unwrap(),
        OnboardTransition::Visible(_)
    ));
    assert_eq!(
        onboard.complete(CAPSULE).unwrap(),
        OnboardTransition::Settled(BundleOnboardState::Visible)
    );
}

#[test]
fn fixed_slot_capsule_builds_one_atomic_multi_pool_copy_plan() {
    let descriptor = CapsuleDescriptor::new(
        CapsuleStorage::RequestSlots { generation: 4 },
        vec![
            CapsulePoolCopy::new(vec![1, 2], vec![11, 12]).unwrap(),
            CapsulePoolCopy::new(vec![3], vec![13]).unwrap(),
        ],
    )
    .unwrap();

    let plan = descriptor.copy_plan();
    assert_eq!(plan.generation(), 4);
    assert_eq!(plan.pools().len(), 2);
    assert_eq!(plan.total_slots(), 3);
}

#[test]
fn shared_capsule_is_scoped_to_bundle_key_and_generation() {
    let key = bundle_key(512);
    let descriptor = CapsuleDescriptor::new(
        CapsuleStorage::SharedPrefix { key, generation: 8 },
        vec![CapsulePoolCopy::new(vec![7], vec![17]).unwrap()],
    )
    .unwrap();

    assert_eq!(descriptor.storage().bundle_key(), Some(&key));
    assert_eq!(descriptor.copy_plan().generation(), 8);
}

#[test]
fn capsule_rejects_partial_or_mismatched_pool_shapes() {
    assert!(CapsulePoolCopy::new(vec![], vec![]).is_err());
    assert!(CapsulePoolCopy::new(vec![1, 2], vec![3]).is_err());
    assert!(
        CapsuleDescriptor::new(CapsuleStorage::RequestSlots { generation: 1 }, vec![]).is_err()
    );
    assert_eq!(
        CapsulePoolCopy::new(vec![1, 2], vec![3]).unwrap_err(),
        CapsuleError::PoolShapeMismatch {
            sources: 2,
            destinations: 1,
        }
    );
}
