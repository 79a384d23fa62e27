//! Failures injected into a pull.

use kvbm_engine::faults::{
    manifest_resources, run_production_bundle_fault, validate_fault, BundleFault,
    BundleFaultError, RecordingBundleDirectory,
};
use kvbm_engine::ids::{
    BundleKey, CacheManifestId, InstanceId, LogicalResourceId, RegistrationEpoch, SequenceHash,
};
use kvbm_engine::manifest::{
    BundleResourceLineage, CacheIdentity, ResourceRequirement, ResourceRole,
};
use kvbm_engine::remote::search::{
    BundleAdvertisement, BundleDiscoveryOutcome, BundleDiscoveryQuery, BundleMissReason,
};

fn identity(manifest: u128) -> CacheIdentity {
    let [first, second, capsule] = manifest_resources();
    let requirement = |resource, role, native_block_tokens| ResourceRequirement {
        resource,
        role,
        native_block_tokens,
    };
    CacheIdentity::new(
        CacheManifestId {
            high: 0,
            low: manifest,
        },
        8,
        vec![
            requirement(first, ResourceRole::PrefixHistory, 4),
            requirement(second, ResourceRole::PrefixHistory, 4),
            requirement(capsule, ResourceRole::BoundaryCapsule, 8),
        ],
    )
    .unwrap()
}

fn hash(position: u64) -> SequenceHash {
    SequenceHash::new(u128::from(position) + 1, position)
}

fn advertisement() -> BundleAdvertisement {
    let [first, second, capsule] = manifest_resources();
    let identity = identity(1);
    let key = BundleKey::new(&identity, hash(1), 8).unwrap();
    BundleAdvertisement::new(
        identity,
        key,
        3,
        InstanceId(5),
        RegistrationEpoch(6),
        30_000,
        vec![
            BundleResourceLineage {
                resource: first,
                hashes: vec![hash(0), hash(1)],
            },
            BundleResourceLineage {
                resource: second,
                hashes: vec![hash(0), hash(1)],
            },
            BundleResourceLineage {
                resource: capsule,
                hashes: vec![hash(1)],
            },
        ],
    )
    .unwrap()
}

fn run(fault: BundleFault) -> Result<BundleMissReason, BundleFaultError> {
    let outcome = run_production_bundle_fault(
        fault,
        &advertisement(),
        &identity(2),
        InstanceId(9),
        uuid::Uuid::from_u128(7),
        1_000,
    )?;
    assert!(!outcome.catalog_visible());
    assert!(!outcome.g1_visible());
    Ok(outcome.terminal_reason())
}

#[test]
fn every_fault_ends_with_its_own_reason_and_nothing_visible() {
    for resource in manifest_resources() {
        assert_eq!(
            run(BundleFault::MissingResource(resource)),
            Ok(BundleMissReason::Incomplete)
        );
        assert_eq!(
            run(BundleFault::RemoteTransfer(resource)),
            Ok(BundleMissReason::TransferFailed)
        );
    }
    assert_eq!(
        run(BundleFault::ManifestMismatch),
        Ok(BundleMissReason::Incompatible)
    );
    assert_eq!(run(BundleFault::OwnerLost), Ok(BundleMissReason::OwnerLost));
    assert_eq!(run(BundleFault::Timeout), Ok(BundleMissReason::TimedOut));
}

#[test]
fn faults_outside_the_bundle_and_unfit_bundles_are_refused() {
    let stranger = LogicalResourceId(99);
    assert_eq!(
        validate_fault(BundleFault::RemoteTransfer(stranger)),
        Err(BundleFaultError::UnknownResource)
    );
    assert_eq!(
        run(BundleFault::MissingResource(stranger)),
        Err(BundleFaultError::UnknownResource)
    );
    let same_manifest = run_production_bundle_fault(
        BundleFault::OwnerLost,
        &advertisement(),
        &identity(1),
        InstanceId(9),
        uuid::Uuid::from_u128(7),
        1_000,
    );
    assert_eq!(same_manifest, Err(BundleFaultError::Fixture));
}

#[test]
fn a_recording_directory_answers_matching_queries() {
    let offered = advertisement();
    let key = offered.key();
    let mut directory = RecordingBundleDirectory::new(false);
    let query = |manifest| BundleDiscoveryQuery::new(identity(manifest), vec![key], 1_000);
    assert_eq!(
        directory.discover_bundle(&query(1)),
        BundleDiscoveryOutcome::Miss(BundleMissReason::NotFound)
    );
    directory.advertise_bundle(offered, uuid::Uuid::from_u128(7));
    for _ in 0..2 {
        let BundleDiscoveryOutcome::Hit(candidate) = directory.discover_bundle(&query(1)) else {
            panic!("the advertised bundle is found")
        };
        assert_eq!(candidate.lease_expires_at_unix_ms(), 30_000);
    }
    assert_eq!(
        directory.discover_bundle(&query(2)),
        BundleDiscoveryOutcome::Miss(BundleMissReason::NotFound)
    );
}
