//! Advertisements, candidates and queries.

use kvbm_engine::ids::{
    BundleKey, CacheManifestId, InstanceId, LogicalResourceId, RegistrationEpoch, SequenceHash,
};
use kvbm_engine::manifest::{
    BundleResourceLineage, CacheIdentity, ResourceRequirement, ResourceRole,
};
use kvbm_engine::remote::search::{
    unix_time_ms, BundleAdvertisement, BundleDirectoryError, BundleDiscoveryQuery,
    BundleMissReason, RemoteBundleCandidate,
};

fn identity_of(manifest: u128) -> CacheIdentity {
    CacheIdentity::new(
        CacheManifestId {
            high: 0,
            low: manifest,
        },
        8,
        vec![
            ResourceRequirement {
                resource: LogicalResourceId(10),
                role: ResourceRole::PrefixHistory,
                native_block_tokens: 4,
            },
            ResourceRequirement {
                resource: LogicalResourceId(11),
                role: ResourceRole::BoundaryCapsule,
                native_block_tokens: 8,
            },
        ],
    )
    .unwrap()
}

fn identity() -> CacheIdentity {
    identity_of(4)
}

fn key(identity: &CacheIdentity) -> BundleKey {
    BundleKey::new(identity, hash(1), 8).unwrap()
}

fn hash(position: u64) -> SequenceHash {
    SequenceHash::new(u128::from(position) + 1, position)
}

fn lineage(resource: u16, hashes: Vec<SequenceHash>) -> BundleResourceLineage {
    BundleResourceLineage {
        resource: LogicalResourceId(resource),
        hashes,
    }
}

fn valid_lineages() -> Vec<BundleResourceLineage> {
    vec![
        lineage(10, vec![hash(0), hash(1)]),
        lineage(11, vec![hash(1)]),
    ]
}

fn advertise(
    expires_at_unix_ms: u64,
    lineages: Vec<BundleResourceLineage>,
) -> Result<BundleAdvertisement, BundleDirectoryError> {
    let identity = identity();
    let key = key(&identity);
    BundleAdvertisement::new(
        identity,
        key,
        3,
        InstanceId(77),
        RegistrationEpoch(88),
        expires_at_unix_ms,
        lineages,
    )
}

#[test]
fn advertisement_requires_every_manifest_resource() {
    let result = advertise(10_000, vec![lineage(10, vec![hash(0), hash(1)])]);

    assert!(matches!(
        result,
        Err(BundleDirectoryError::IncompleteResources { .. })
    ));
}

#[test]
fn duplicate_manifest_resources_are_rejected() {
    let result = advertise(
        10_000,
        vec![
            lineage(10, vec![hash(0), hash(1)]),
            lineage(11, vec![hash(1)]),
            lineage(11, vec![hash(1)]),
        ],
    );

    assert!(matches!(
        result,
        Err(BundleDirectoryError::DuplicateResource(LogicalResourceId(
            11
        )))
    ));
}

#[test]
fn advertisement_rejects_role_native_block_count_mismatch() {
    let result = advertise(
        10_000,
        vec![lineage(10, vec![hash(0)]), lineage(11, vec![hash(1)])],
    );

    assert!(matches!(
        result,
        Err(BundleDirectoryError::InvalidResourceBlockCount {
            resource: LogicalResourceId(10),
            expected: 2,
            actual: 1,
            ..
        })
    ));
}

#[test]
fn advertisement_rejects_history_that_does_not_reach_native_boundary() {
    let result = advertise(
        10_000,
        vec![
            lineage(10, vec![hash(1), hash(2)]),
            lineage(11, vec![hash(1)]),
        ],
    );

    assert!(matches!(
        result,
        Err(BundleDirectoryError::ResourceBoundaryMismatch {
            resource: LogicalResourceId(10),
            boundary_tokens: 8,
        })
    ));
}

#[test]
fn advertisement_rejects_capsule_from_another_boundary() {
    let result = advertise(
        10_000,
        vec![
            lineage(10, vec![hash(0), hash(1)]),
            lineage(11, vec![hash(0)]),
        ],
    );

    assert!(matches!(
        result,
        Err(BundleDirectoryError::CapsuleBoundaryMismatch {
            resource: LogicalResourceId(11),
        })
    ));
}

#[test]
fn advertisement_requires_one_history_at_the_canonical_boundary_hash() {
    let result = advertise(
        10_000,
        vec![
            lineage(10, vec![SequenceHash::new(50, 0), SequenceHash::new(51, 1)]),
            lineage(11, vec![hash(1)]),
        ],
    );

    assert_eq!(
        result,
        Err(BundleDirectoryError::MissingCanonicalHistoryBoundary)
    );
}

#[test]
fn manifest_mismatch_never_matches_a_query() {
    let advertisement = advertise(10_000, valid_lineages()).unwrap();
    let other = identity_of(9);
    let query = BundleDiscoveryQuery::new(other, vec![advertisement.key()], 1_000);

    assert!(!advertisement.matches(&query));
}

#[test]
fn expired_advertisement_never_matches() {
    let advertisement = advertise(999, valid_lineages()).unwrap();
    let query = BundleDiscoveryQuery::new(identity(), vec![advertisement.key()], 1_000);

    assert!(!advertisement.matches(&query));
}

#[test]
fn a_matching_advertisement_keeps_what_it_was_made_of() {
    let mut reversed = valid_lineages();
    reversed.reverse();
    let advertisement = advertise(10_000, reversed).unwrap();
    let query = BundleDiscoveryQuery::new(identity(), vec![advertisement.key()], 1_000);
    assert!(advertisement.matches(&query));
    assert_eq!(advertisement, advertise(10_000, valid_lineages()).unwrap());
    assert_eq!(advertisement.generation(), 3);
    assert_eq!(advertisement.owner(), InstanceId(77));
    assert_eq!(
        advertisement.with_owner(InstanceId(5)).owner(),
        InstanceId(5)
    );
    assert_eq!(advertisement.registration_epoch(), RegistrationEpoch(88));
    assert_eq!(
        advertisement.resources(),
        vec![LogicalResourceId(10), LogicalResourceId(11)]
    );
    assert_eq!(
        advertisement.lineage(LogicalResourceId(11)).unwrap().hashes,
        vec![hash(1)]
    );
    assert!(advertisement.lineage(LogicalResourceId(12)).is_none());
    let foreign = BundleAdvertisement::new(
        identity_of(9),
        key(&identity()),
        3,
        InstanceId(77),
        RegistrationEpoch(88),
        10_000,
        valid_lineages(),
    );
    assert_eq!(foreign, Err(BundleDirectoryError::ManifestMismatch));
}

#[test]
fn a_lease_never_outlives_its_advertisement() {
    let lease_id = uuid::Uuid::from_u128(1);
    let candidate = |expires| {
        RemoteBundleCandidate::new(
            advertise(10_000, valid_lineages()).unwrap(),
            lease_id,
            expires,
        )
    };
    assert_eq!(
        candidate(10_001),
        Err(BundleDirectoryError::LeaseOutlivesAdvertisement)
    );
    let leased = candidate(10_000).unwrap();
    assert_eq!(leased.clone(), leased);
    assert_eq!(leased.lease_id(), lease_id);
}

#[test]
fn clock_readings_saturate() {
    assert_eq!(unix_time_ms(None), 0);
    assert_eq!(unix_time_ms(Some(17)), 17);
    assert_eq!(unix_time_ms(Some(u128::MAX)), u64::MAX);
    assert_eq!(BundleMissReason::NotFound.as_label(), "not_found");
    assert_eq!(BundleMissReason::ChecksumFailed.as_label(), "checksum_failed");
}
