//! The connector's side of the bundle directory.

use crate::ids::{BundleKey, CacheManifestId, InstanceId, LogicalResourceId, RegistrationEpoch};
use crate::lists::copy_lineages;
use crate::manifest::{lineage_ids, lineage_views, BundleResourceLineage};
use crate::ordered::ascending_keys_are_distinct;
use crate::remote::search::{
    advertisable, advertisement_refused, lineages_in_order, AdvertisementView, BundleAdvertisement,
    BundleDirectoryError, BundleDiscoveryQuery, BundleMissReason, CandidateView,
    RemoteBundleCandidate,
};
use vstd::prelude::*;

verus! {

/// Why the directory has nothing.
#[derive(Clone, Copy, Debug, PartialEq, Eq, Structural)]
pub enum BundleQueryMissReason {
    NotFound,
    Incompatible,
    Incomplete,
    Expired,
}

/// The directory's reason as the engine names it.
pub fn translate_miss_reason(reason: BundleQueryMissReason) -> (r: BundleMissReason)
    ensures
        r == match reason {
            BundleQueryMissReason::NotFound => BundleMissReason::NotFound,
            BundleQueryMissReason::Incompatible => BundleMissReason::Incompatible,
            BundleQueryMissReason::Incomplete => BundleMissReason::Incomplete,
            BundleQueryMissReason::Expired => BundleMissReason::Expired,
        },
{
    match reason {
        BundleQueryMissReason::NotFound => BundleMissReason::NotFound,
        BundleQueryMissReason::Incompatible => BundleMissReason::Incompatible,
        BundleQueryMissReason::Incomplete => BundleMissReason::Incomplete,
        BundleQueryMissReason::Expired => BundleMissReason::Expired,
    }
}

/// A lookup as it goes to the directory.
#[derive(Debug)]
pub struct BundleQueryRequest {
    pub manifest: CacheManifestId,
    pub required_resources: Vec<LogicalResourceId>,
    pub candidates: Vec<BundleKey>,
    pub now_unix_ms: u64,
}

/// Puts a lookup in the directory's terms.
pub fn bundle_query_request(query: &BundleDiscoveryQuery) -> (r: BundleQueryRequest)
    ensures
        r.manifest == query@.identity.manifest,
        r.required_resources@ == query@.identity.ids(),
        r.candidates@ == query@.candidates,
        r.now_unix_ms == query@.now_unix_ms,
{
    let keys = query.candidates();
    let mut candidates: Vec<BundleKey> = Vec::new();
    let mut at: usize = 0;
    while at < keys.len()
        invariant
            at <= keys@.len(),
            candidates@ == keys@.subrange(0, at as int),
        decreases keys@.len() - at,
    {
        candidates.push(keys[at]);
        at = at + 1;
        assert(candidates@ =~= keys@.subrange(0, at as int));
    }
    assert(candidates@ =~= keys@);
    BundleQueryRequest {
        manifest: query.identity().manifest(),
        required_resources: query.identity().resource_ids(),
        candidates,
        now_unix_ms: query.now_unix_ms(),
    }
}

/// An advertisement as the directory stores it.
#[derive(Debug)]
pub struct BundleAdvertisementRecord {
    pub key: BundleKey,
    pub generation: u64,
    pub owner: InstanceId,
    pub registration_epoch: RegistrationEpoch,
    pub lineages: Vec<BundleResourceLineage>,
    pub expires_at_unix_ms: u64,
}

/// Puts an advertisement in the directory's terms.
pub fn advertisement_record(advertisement: &BundleAdvertisement) -> (r: BundleAdvertisementRecord)
    ensures
        r.key == advertisement@.key,
        r.generation == advertisement@.generation,
        r.owner == advertisement@.owner,
        r.registration_epoch == advertisement@.registration_epoch,
        lineage_views(r.lineages@) == advertisement@.lineages,
        r.expires_at_unix_ms == advertisement@.expires_at_unix_ms,
{
    BundleAdvertisementRecord {
        key: advertisement.key(),
        generation: advertisement.generation(),
        owner: advertisement.owner(),
        registration_epoch: advertisement.registration_epoch(),
        lineages: copy_lineages(advertisement.lineages()),
        expires_at_unix_ms: advertisement.expires_at_unix_ms(),
    }
}

/// A stored advertisement that answers a lookup, with a lease on it.
#[derive(Debug)]
pub struct BundleQueryHit {
    pub advertisement: BundleAdvertisementRecord,
    pub lease_id: uuid::Uuid,
    pub lease_expires_at_unix_ms: u64,
}

/// Why a hit is not believed.
#[derive(Debug, PartialEq, Eq)]
pub enum DirectoryHitError {
    Advertisement(BundleDirectoryError),
    /// The advertisement does not answer the lookup.
    Incompatible,
    Lease(BundleDirectoryError),
}

/// The advertisement that a record stands for, to one who asked for an identity.
pub open spec fn hit_advertisement(
    query: &BundleDiscoveryQuery,
    record: BundleAdvertisementRecord,
) -> AdvertisementView {
    AdvertisementView {
        identity: query@.identity,
        key: record.key,
        generation: record.generation,
        owner: record.owner,
        registration_epoch: record.registration_epoch,
        expires_at_unix_ms: record.expires_at_unix_ms,
        lineages: lineages_in_order(query@.identity, lineage_views(record.lineages@)),
    }
}

/// Turns a hit into a candidate, if it is a complete bundle of the identity that was asked for,
/// answers the lookup, and its lease does not outlive it.
pub fn directory_hit(query: &BundleDiscoveryQuery, hit: BundleQueryHit) -> (r: Result<
    RemoteBundleCandidate,
    DirectoryHitError,
>)
    ensures
        ({
            let record = hit.advertisement;
            let complete = advertisable(
                query@.identity,
                record.key,
                lineage_views(record.lineages@),
            );
            let advertisement = hit_advertisement(query, record);
            let leased = hit.lease_expires_at_unix_ms <= record.expires_at_unix_ms;
            match r {
                Ok(candidate) => {
                    &&& complete
                    &&& advertisement.matches(query@)
                    &&& leased
                    &&& candidate@ == (CandidateView {
                        advertisement,
                        lease_id: hit.lease_id,
                        lease_expires_at_unix_ms: hit.lease_expires_at_unix_ms,
                    })
                },
                Err(DirectoryHitError::Advertisement(e)) => !complete && advertisement_refused(
                    query@.identity,
                    record.key,
                    lineage_views(record.lineages@),
                    e,
                ),
                Err(DirectoryHitError::Incompatible) => complete && !advertisement.matches(query@),
                Err(DirectoryHitError::Lease(e)) => complete && advertisement.matches(query@)
                    && !leased && e == BundleDirectoryError::LeaseOutlivesAdvertisement,
            }
        }),
{
    let record = hit.advertisement;
    let advertisement = match BundleAdvertisement::new(
        query.identity().clone(),
        record.key,
        record.generation,
        record.owner,
        record.registration_epoch,
        record.expires_at_unix_ms,
        record.lineages,
    ) {
        Ok(advertisement) => advertisement,
        Err(e) => {
            return Err(DirectoryHitError::Advertisement(e));
        },
    };
    if !advertisement.matches(query) {
        return Err(DirectoryHitError::Incompatible);
    }
    match RemoteBundleCandidate::new(advertisement, hit.lease_id, hit.lease_expires_at_unix_ms) {
        Ok(candidate) => Ok(candidate),
        Err(e) => Err(DirectoryHitError::Lease(e)),
    }
}

/// A stored advertisement comes back whole: whoever asks for its bundle while it is live gets from
/// its record exactly the advertisement that was published.
pub proof fn stored_advertisements_come_back_whole(
    query: &BundleDiscoveryQuery,
    advertisement: AdvertisementView,
    record: BundleAdvertisementRecord,
)
    requires
        advertisement.wf(),
        advertisement.matches(query@),
        record.key == advertisement.key,
        record.generation == advertisement.generation,
        record.owner == advertisement.owner,
        record.registration_epoch == advertisement.registration_epoch,
        lineage_views(record.lineages@) == advertisement.lineages,
        record.expires_at_unix_ms == advertisement.expires_at_unix_ms,
    ensures
        advertisable(query@.identity, record.key, lineage_views(record.lineages@)),
        hit_advertisement(query, record) == advertisement,
{
    let identity = advertisement.identity;
    let lineages = advertisement.lineages;
    let ids = lineage_ids(lineages);
    let ordered = lineages_in_order(identity, lineages);
    ascending_keys_are_distinct(ids);
    assert forall|i: int| 0 <= i < lineages.len() implies #[trigger] ordered[i] == lineages[i] by {
        let resource = identity.resources[i].resource;
        assert(identity.ids()[i] == resource);
        assert(ids[i] == lineages[i].resource);
        let j = choose|j: int| 0 <= j < lineages.len() && lineages[j].resource == resource;
        assert(lineages[i].resource == resource);
        assert(ids[j] == ids[i]);
    }
    assert(ids.len() == identity.ids().len());
    assert(ordered =~= lineages);
}

} // verus!
