//! What the bundle directory is told and asked.

use crate::ids::{BundleKey, InstanceId, LogicalResourceId, RegistrationEpoch, SequenceHash};
use crate::lists::{contains_key, copy_hashes};
use crate::manifest::{
    lineage_ids, lineage_views, BundleResourceLineage, CacheIdentity, IdentityView, LineageView,
    ResourceRequirement, ResourceRole,
};
use crate::ordered::{
    ascending_keys_are_distinct, ascending_sequences_with_equal_keys_are_equal, distinct_up_to,
    first_repeat, firsts, pairs_map, pairs_map_holds_the_pairs, KeyMap,
};
use vstd::prelude::*;

verus! {

/// A lease identifier as the directory issues it. The library only carries it.
#[verifier::external_type_specification]
#[verifier::external_body]
pub struct ExUuid(uuid::Uuid);

/// Why an advertisement or a lease is refused.
#[allow(inconsistent_fields)]
#[derive(Debug, PartialEq, Eq)]
pub enum BundleDirectoryError {
    ManifestMismatch,
    IncompleteResources { expected: Vec<LogicalResourceId>, actual: Vec<LogicalResourceId> },
    DuplicateResource(LogicalResourceId),
    InvalidResourceBlockCount {
        resource: LogicalResourceId,
        role: ResourceRole,
        expected: u64,
        actual: usize,
    },
    /// The last block of a history does not end at the boundary.
    ResourceBoundaryMismatch { resource: LogicalResourceId, boundary_tokens: u64 },
    /// A capsule belongs to another boundary.
    CapsuleBoundaryMismatch { resource: LogicalResourceId },
    /// No history ends with the hash that names the bundle.
    MissingCanonicalHistoryBoundary,
    LeaseOutlivesAdvertisement,
}

/// Why no bundle was had, in a form fit for metrics.
#[derive(Clone, Copy, Debug, PartialEq, Eq, Structural)]
pub enum BundleMissReason {
    NotFound,
    Incompatible,
    Incomplete,
    Expired,
    Canceled,
    OwnerLost,
    TimedOut,
    TransferFailed,
    ChecksumFailed,
    CommitFailed,
}

impl BundleMissReason {
    pub open spec fn label(self) -> Seq<char> {
        match self {
            BundleMissReason::NotFound => "not_found"@,
            BundleMissReason::Incompatible => "incompatible"@,
            BundleMissReason::Incomplete => "incomplete"@,
            BundleMissReason::Expired => "expired"@,
            BundleMissReason::Canceled => "canceled"@,
            BundleMissReason::OwnerLost => "owner_lost"@,
            BundleMissReason::TimedOut => "timed_out"@,
            BundleMissReason::TransferFailed => "transfer_failed"@,
            BundleMissReason::ChecksumFailed => "checksum_failed"@,
            BundleMissReason::CommitFailed => "commit_failed"@,
        }
    }

    pub fn as_label(self) -> (r: &'static str)
        ensures
            r@ == self.label(),
    {
        match self {
            BundleMissReason::NotFound => "not_found",
            BundleMissReason::Incompatible => "incompatible",
            BundleMissReason::Incomplete => "incomplete",
            BundleMissReason::Expired => "expired",
            BundleMissReason::Canceled => "canceled",
            BundleMissReason::OwnerLost => "owner_lost",
            BundleMissReason::TimedOut => "timed_out",
            BundleMissReason::TransferFailed => "transfer_failed",
            BundleMissReason::ChecksumFailed => "checksum_failed",
            BundleMissReason::CommitFailed => "commit_failed",
        }
    }
}

/// The blocks that one resource of a bundle holds up to its boundary.
pub open spec fn expected_blocks(requirement: ResourceRequirement, boundary_tokens: u64) -> int {
    match requirement.role {
        ResourceRole::PrefixHistory => boundary_tokens as int
            / requirement.native_block_tokens as int,
        ResourceRole::BoundaryCapsule => 1,
    }
}

/// Computes [`expected_blocks`].
pub fn expected_block_count(requirement: &ResourceRequirement, boundary_tokens: u64) -> (r: u64)
    requires
        requirement.native_block_tokens > 0,
    ensures
        r == expected_blocks(*requirement, boundary_tokens),
{
    match requirement.role {
        ResourceRole::PrefixHistory => boundary_tokens / requirement.native_block_tokens,
        ResourceRole::BoundaryCapsule => 1,
    }
}

/// The lineage of a resource in a list of lineages with distinct resources.
pub open spec fn lineage_for(
    lineages: Seq<LineageView>,
    resource: LogicalResourceId,
) -> LineageView {
    lineages[choose|i: int| 0 <= i < lineages.len() && lineages[i].resource == resource]
}

/// The lineages in the order of the identity's resources.
pub open spec fn lineages_in_order(
    identity: IdentityView,
    lineages: Seq<LineageView>,
) -> Seq<LineageView> {
    Seq::new(
        identity.resources.len(),
        |i: int| lineage_for(lineages, identity.resources[i].resource),
    )
}

/// What is wrong with the lineage of one resource.
pub open spec fn lineage_fault(
    requirement: ResourceRequirement,
    key: BundleKey,
    hashes: Seq<SequenceHash>,
) -> Option<BundleDirectoryError> {
    let expected = expected_blocks(requirement, key.boundary_tokens);
    if hashes.len() != expected {
        Some(
            BundleDirectoryError::InvalidResourceBlockCount {
                resource: requirement.resource,
                role: requirement.role,
                expected: expected as u64,
                actual: hashes.len() as usize,
            },
        )
    } else if requirement.role == ResourceRole::PrefixHistory {
        if hashes.len() == 0 || hashes.last().position + 1 != expected {
            Some(
                BundleDirectoryError::ResourceBoundaryMismatch {
                    resource: requirement.resource,
                    boundary_tokens: key.boundary_tokens,
                },
            )
        } else {
            None
        }
    } else if hashes.last() != key.boundary_hash {
        Some(BundleDirectoryError::CapsuleBoundaryMismatch { resource: requirement.resource })
    } else {
        None
    }
}

/// Whether some history ends with the hash that names the bundle.
pub open spec fn canonical_boundary(
    identity: IdentityView,
    key: BundleKey,
    ordered: Seq<LineageView>,
) -> bool {
    exists|i: int|
        0 <= i < identity.resources.len() && (#[trigger] identity.resources[i]).role
            == ResourceRole::PrefixHistory && ordered[i].hashes.len() > 0
            && ordered[i].hashes.last() == key.boundary_hash
}

/// The mathematical content of a [`BundleAdvertisement`].
pub struct AdvertisementView {
    pub identity: IdentityView,
    pub key: BundleKey,
    pub generation: u64,
    pub owner: InstanceId,
    pub registration_epoch: RegistrationEpoch,
    pub expires_at_unix_ms: u64,
    pub lineages: Seq<LineageView>,
}

impl AdvertisementView {
    /// Every resource of the identity has a lineage that reaches the boundary.
    pub open spec fn wf(self) -> bool {
        &&& self.identity.wf()
        &&& self.key.compatible(self.identity)
        &&& lineage_ids(self.lineages) == self.identity.ids()
        &&& forall|i: int|
            0 <= i < self.lineages.len() ==> lineage_fault(
                self.identity.resources[i],
                self.key,
                (#[trigger] self.lineages[i]).hashes,
            ) is None
        &&& canonical_boundary(self.identity, self.key, self.lineages)
    }

    pub open spec fn matches(self, query: QueryView) -> bool {
        &&& self.identity == query.identity
        &&& self.expires_at_unix_ms > query.now_unix_ms
        &&& query.candidates.contains(self.key)
    }
}

/// One owner's offer of a complete bundle.
#[derive(Debug, PartialEq, Eq)]
pub struct BundleAdvertisement {
    identity: CacheIdentity,
    key: BundleKey,
    generation: u64,
    owner: InstanceId,
    registration_epoch: RegistrationEpoch,
    expires_at_unix_ms: u64,
    lineages: Vec<BundleResourceLineage>,
}

impl View for BundleAdvertisement {
    type V = AdvertisementView;

    closed spec fn view(&self) -> AdvertisementView {
        AdvertisementView {
            identity: self.identity@,
            key: self.key,
            generation: self.generation,
            owner: self.owner,
            registration_epoch: self.registration_epoch,
            expires_at_unix_ms: self.expires_at_unix_ms,
            lineages: lineage_views(self.lineages@),
        }
    }
}

impl Clone for BundleAdvertisement {
    fn clone(&self) -> (r: Self)
        ensures
            r@ == self@,
    {
        proof {
            use_type_invariant(self);
        }
        let mut lineages: Vec<BundleResourceLineage> = Vec::new();
        let mut at: usize = 0;
        while at < self.lineages.len()
            invariant
                at <= self.lineages@.len(),
                lineages@.len() == at,
                forall|i: int| 0 <= i < at ==> (#[trigger] lineages@[i])@ == self.lineages@[i]@,
            decreases self.lineages@.len() - at,
        {
            lineages.push(
                BundleResourceLineage {
                    resource: self.lineages[at].resource,
                    hashes: copy_hashes(self.lineages[at].hashes.as_slice()),
                },
            );
            at = at + 1;
        }
        assert(lineage_views(lineages@) =~= lineage_views(self.lineages@));
        BundleAdvertisement {
            identity: self.identity.clone(),
            key: self.key,
            generation: self.generation,
            owner: self.owner,
            registration_epoch: self.registration_epoch,
            expires_at_unix_ms: self.expires_at_unix_ms,
            lineages,
        }
    }
}

/// Whether the lineages are refused with `e`, given that they cover the identity's resources.
pub open spec fn first_fault(
    identity: IdentityView,
    key: BundleKey,
    ordered: Seq<LineageView>,
    e: BundleDirectoryError,
) -> bool {
    exists|at: int|
        {
            &&& 0 <= at < ordered.len()
            &&& lineage_fault(identity.resources[at], key, (#[trigger] ordered[at]).hashes)
                == Some(e)
            &&& forall|i: int|
                0 <= i < at ==> lineage_fault(
                    identity.resources[i],
                    key,
                    (#[trigger] ordered[i]).hashes,
                ) is None
        }
}

/// Whether lineages are refused as a bundle of an identity at a key's boundary with this error.
pub open spec fn advertisement_refused(
    identity: IdentityView,
    key: BundleKey,
    lineages: Seq<LineageView>,
    e: BundleDirectoryError,
) -> bool {
    let ids = lineage_ids(lineages);
    let ordered = lineages_in_order(identity, lineages);
    let complete = key.compatible(identity) && distinct_up_to(ids, ids.len() as int)
        && ids.to_set() == identity.id_set();
    match e {
        BundleDirectoryError::ManifestMismatch => !key.compatible(identity),
        BundleDirectoryError::DuplicateResource(resource) => {
            &&& key.compatible(identity)
            &&& exists|at: int| #[trigger] first_repeat(ids, at) && ids[at] == resource
        },
        BundleDirectoryError::IncompleteResources { expected, actual } => {
            &&& key.compatible(identity)
            &&& distinct_up_to(ids, ids.len() as int)
            &&& ids.to_set() != identity.id_set()
            &&& expected@ == identity.ids()
            &&& crate::ordered::ascending(actual@)
            &&& actual@.to_set() == ids.to_set()
        },
        BundleDirectoryError::MissingCanonicalHistoryBoundary => {
            &&& complete
            &&& forall|i: int|
                0 <= i < ordered.len() ==> lineage_fault(
                    identity.resources[i],
                    key,
                    (#[trigger] ordered[i]).hashes,
                ) is None
            &&& !canonical_boundary(identity, key, ordered)
        },
        BundleDirectoryError::LeaseOutlivesAdvertisement => false,
        _ => complete && first_fault(identity, key, ordered, e),
    }
}

/// Whether lineages make up a complete bundle of an identity at a key's boundary.
pub open spec fn advertisable(
    identity: IdentityView,
    key: BundleKey,
    lineages: Seq<LineageView>,
) -> bool {
    let ids = lineage_ids(lineages);
    let ordered = lineages_in_order(identity, lineages);
    &&& key.compatible(identity)
    &&& distinct_up_to(ids, ids.len() as int)
    &&& ids.to_set() == identity.id_set()
    &&& forall|i: int|
        0 <= i < ordered.len() ==> lineage_fault(
            identity.resources[i],
            key,
            (#[trigger] ordered[i]).hashes,
        ) is None
    &&& canonical_boundary(identity, key, ordered)
}

impl BundleAdvertisement {
    #[verifier::type_invariant]
    spec fn valid(self) -> bool {
        self@.wf()
    }

    /// Checks that the lineages make up a complete bundle at the key's boundary.
    pub fn new(
        identity: CacheIdentity,
        key: BundleKey,
        generation: u64,
        owner: InstanceId,
        registration_epoch: RegistrationEpoch,
        expires_at_unix_ms: u64,
        lineages: Vec<BundleResourceLineage>,
    ) -> (r: Result<Self, BundleDirectoryError>)
        ensures
            r is Ok <==> advertisable(identity@, key, lineage_views(lineages@)),
            match r {
                Ok(advertisement) => {
                    &&& advertisement@ == (AdvertisementView {
                        identity: identity@,
                        key,
                        generation,
                        owner,
                        registration_epoch,
                        expires_at_unix_ms,
                        lineages: lineages_in_order(identity@, lineage_views(lineages@)),
                    })
                    &&& advertisement@.wf()
                },
                Err(e) => advertisement_refused(identity@, key, lineage_views(lineages@), e),
            },
    {
        if !key.is_compatible_with(&identity) {
            return Err(BundleDirectoryError::ManifestMismatch);
        }
        let ghost offered = lineage_views(lineages@);
        let ghost ids = lineage_ids(offered);
        let ghost ordered = lineages_in_order(identity@, offered);
        let ghost given = lineages@;
        let mut pairs: Vec<(LogicalResourceId, Vec<SequenceHash>)> = Vec::new();
        for lineage in iter: lineages.into_iter()
            invariant
                iter.seq() == given,
                pairs@.len() == iter.index(),
                forall|i: int|
                    0 <= i < pairs@.len() ==> #[trigger] pairs@[i] == (
                        given[i].resource,
                        given[i].hashes,
                    ),
        {
            pairs.push((lineage.resource, lineage.hashes));
        }
        let ghost listed = pairs@;
        assert(firsts(listed) =~= ids);
        let map = match KeyMap::from_entries(pairs) {
            Ok(map) => map,
            Err(resource) => {
                return Err(BundleDirectoryError::DuplicateResource(resource));
            },
        };
        proof {
            pairs_map_holds_the_pairs(listed);
        }
        let expected = identity.resource_ids();
        if !crate::bundle::offload::holds_exactly_the_resources(&identity, &map) {
            return Err(
                BundleDirectoryError::IncompleteResources { expected, actual: map.keys() },
            );
        }
        let entries = map.into_entries();
        proof {
            ascending_sequences_with_equal_keys_are_equal(firsts(entries@), identity@.ids());
            pairs_map_holds_the_pairs(entries@);
            ascending_keys_are_distinct(firsts(entries@));
            assert forall|i: int| 0 <= i < entries@.len() implies ordered[i] == (LineageView {
                resource: (#[trigger] entries@[i]).0,
                hashes: entries@[i].1@,
            }) by {
                let resource = entries@[i].0;
                assert(firsts(entries@)[i] == resource);
                assert(identity@.ids()[i] == resource);
                assert(firsts(entries@).to_set().contains(resource));
                assert(ids.to_set().contains(resource));
                let j = choose|j: int| 0 <= j < offered.len() && offered[j].resource == resource;
                assert(exists|j: int| 0 <= j < offered.len() && offered[j].resource == resource)
                    by {
                    let w = choose|w: int| 0 <= w < ids.len() && ids[w] == resource;
                    assert(offered[w].resource == resource);
                }
                assert(pairs_map(listed)[listed[j].0] == listed[j].1);
                assert(pairs_map(entries@)[entries@[i].0] == entries@[i].1);
            }
        }
        let requirements = identity.resources();
        let mut canonical = false;
        let mut at: usize = 0;
        while at < entries.len()
            invariant
                at <= entries@.len(),
                requirements@ == identity@.resources,
                identity@.wf(),
                entries@.len() == ordered.len(),
                ordered.len() == identity@.resources.len(),
                forall|i: int|
                    0 <= i < entries@.len() ==> ordered[i] == (LineageView {
                        resource: (#[trigger] entries@[i]).0,
                        hashes: entries@[i].1@,
                    }),
                forall|i: int|
                    0 <= i < at ==> lineage_fault(
                        identity@.resources[i],
                        key,
                        (#[trigger] ordered[i]).hashes,
                    ) is None,
                canonical == exists|i: int|
                    0 <= i < at && (#[trigger] identity@.resources[i]).role
                        == ResourceRole::PrefixHistory && ordered[i].hashes.len() > 0
                        && ordered[i].hashes.last() == key.boundary_hash,
                key.compatible(identity@),
                distinct_up_to(ids, ids.len() as int),
                ids.to_set() == identity@.id_set(),
                given == lineages@,
                offered == lineage_views(given),
                ids == lineage_ids(offered),
                ordered == lineages_in_order(identity@, offered),
            decreases entries@.len() - at,
        {
            let requirement = requirements[at];
            let hashes = &entries[at].1;
            let count: usize = hashes.len();
            assert(crate::manifest::requirement_fits(
                identity@.resources[at as int],
                identity@.alignment_tokens,
            ));
            let wanted: u64 = expected_block_count(&requirement, key.boundary_tokens);
            let ghost fault = lineage_fault(requirement, key, ordered[at as int].hashes);
            if count as u64 != wanted {
                let e = BundleDirectoryError::InvalidResourceBlockCount {
                    resource: requirement.resource,
                    role: requirement.role,
                    expected: wanted,
                    actual: count,
                };
                assert(fault == Some(e));
                return Err(e);
            }
            if requirement.role == ResourceRole::PrefixHistory {
                if count == 0 || hashes[count - 1].position != wanted - 1 {
                    let e = BundleDirectoryError::ResourceBoundaryMismatch {
                        resource: requirement.resource,
                        boundary_tokens: key.boundary_tokens,
                    };
                    assert(fault == Some(e));
                    return Err(e);
                }
                if hashes[count - 1] == key.boundary_hash {
                    assert(identity@.resources[at as int].role == ResourceRole::PrefixHistory);
                    canonical = true;
                }
            } else if hashes[count - 1] != key.boundary_hash {
                let e = BundleDirectoryError::CapsuleBoundaryMismatch {
                    resource: requirement.resource,
                };
                assert(fault == Some(e));
                return Err(e);
            }
            assert(fault is None);
            at = at + 1;
        }
        if !canonical {
            return Err(BundleDirectoryError::MissingCanonicalHistoryBoundary);
        }
        let sorted = Self::lineages_of(entries);
        proof {
            assert(lineage_views(sorted@) =~= ordered);
            assert(lineage_ids(ordered) =~= identity@.ids());
        }
        Ok(
            BundleAdvertisement {
                identity,
                key,
                generation,
                owner,
                registration_epoch,
                expires_at_unix_ms,
                lineages: sorted,
            },
        )
    }

    fn lineages_of(entries: Vec<(LogicalResourceId, Vec<SequenceHash>)>) -> (r: Vec<
        BundleResourceLineage,
    >)
        ensures
            r@.len() == entries@.len(),
            forall|i: int|
                0 <= i < r@.len() ==> (#[trigger] r@[i])@ == (LineageView {
                    resource: entries@[i].0,
                    hashes: entries@[i].1@,
                }),
    {
        let ghost given = entries@;
        let mut lineages: Vec<BundleResourceLineage> = Vec::new();
        for entry in iter: entries.into_iter()
            invariant
                iter.seq() == given,
                lineages@.len() == iter.index(),
                forall|i: int|
                    0 <= i < lineages@.len() ==> (#[trigger] lineages@[i])@ == (LineageView {
                        resource: given[i].0,
                        hashes: given[i].1@,
                    }),
        {
            lineages.push(BundleResourceLineage { resource: entry.0, hashes: entry.1 });
        }
        lineages
    }

    /// The same offer in the name of another owner.
    pub fn with_owner(&self, owner: InstanceId) -> (r: Self)
        ensures
            r@ == (AdvertisementView { owner, ..self@ }),
    {
        let copy = self.clone();
        proof {
            use_type_invariant(&copy);
        }
        BundleAdvertisement {
            identity: copy.identity,
            key: copy.key,
            generation: copy.generation,
            owner,
            registration_epoch: copy.registration_epoch,
            expires_at_unix_ms: copy.expires_at_unix_ms,
            lineages: copy.lineages,
        }
    }

    pub fn identity(&self) -> (r: &CacheIdentity)
        ensures
            r@ == self@.identity,
            self@.wf(),
    {
        proof {
            use_type_invariant(self);
        }
        &self.identity
    }

    pub fn key(&self) -> (r: BundleKey)
        ensures
            r == self@.key,
    {
        self.key
    }

    pub fn generation(&self) -> (r: u64)
        ensures
            r == self@.generation,
    {
        self.generation
    }

    pub fn owner(&self) -> (r: InstanceId)
        ensures
            r == self@.owner,
    {
        self.owner
    }

    pub fn registration_epoch(&self) -> (r: RegistrationEpoch)
        ensures
            r == self@.registration_epoch,
    {
        self.registration_epoch
    }

    pub fn expires_at_unix_ms(&self) -> (r: u64)
        ensures
            r == self@.expires_at_unix_ms,
    {
        self.expires_at_unix_ms
    }

    /// The lineages, in resource order.
    pub fn lineages(&self) -> (r: &[BundleResourceLineage])
        ensures
            lineage_views(r@) == self@.lineages,
            self@.wf(),
    {
        proof {
            use_type_invariant(self);
        }
        self.lineages.as_slice()
    }

    /// The lineage of one resource.
    pub fn lineage(&self, resource: LogicalResourceId) -> (r: Option<&BundleResourceLineage>)
        ensures
            self@.wf(),
            r is Some <==> self@.identity.id_set().contains(resource),
            r is Some ==> self@.lineages.contains(r->Some_0@) && r->Some_0@.resource == resource,
    {
        proof {
            use_type_invariant(self);
        }
        let mut at: usize = 0;
        while at < self.lineages.len()
            invariant
                self@.wf(),
                at <= self.lineages@.len(),
                forall|i: int| 0 <= i < at ==> (#[trigger] self.lineages@[i]).resource != resource,
            decreases self.lineages@.len() - at,
        {
            if self.lineages[at].resource == resource {
                proof {
                    assert(self@.lineages[at as int].resource == resource);
                    assert(lineage_ids(self@.lineages)[at as int] == resource);
                    assert(self@.identity.ids().contains(resource));
                }
                return Some(&self.lineages[at]);
            }
            at = at + 1;
        }
        proof {
            if self@.identity.id_set().contains(resource) {
                assert(self@.identity.ids().contains(resource));
                let i = choose|i: int|
                    0 <= i < self@.identity.ids().len() && self@.identity.ids()[i] == resource;
                assert(lineage_ids(self@.lineages)[i] == resource);
                assert(self.lineages@[i].resource == resource);
            }
        }
        None
    }

    /// The resources on offer, in ascending order.
    pub fn resources(&self) -> (r: Vec<LogicalResourceId>)
        ensures
            r@ == self@.identity.ids(),
    {
        self.identity.resource_ids()
    }

    /// Whether the offer answers a query.
    pub fn matches(&self, query: &BundleDiscoveryQuery) -> (r: bool)
        ensures
            r == self@.matches(query@),
    {
        self.identity.same_as(&query.identity) && self.expires_at_unix_ms > query.now_unix_ms
            && contains_key(query.candidates.as_slice(), &self.key)
    }
}

/// The mathematical content of a [`BundleDiscoveryQuery`].
pub struct QueryView {
    pub identity: IdentityView,
    pub candidates: Seq<BundleKey>,
    pub now_unix_ms: u64,
}

/// The bundle keys that one lookup may be answered with.
#[derive(Debug)]
pub struct BundleDiscoveryQuery {
    identity: CacheIdentity,
    candidates: Vec<BundleKey>,
    now_unix_ms: u64,
}

impl View for BundleDiscoveryQuery {
    type V = QueryView;

    closed spec fn view(&self) -> QueryView {
        QueryView {
            identity: self.identity@,
            candidates: self.candidates@,
            now_unix_ms: self.now_unix_ms,
        }
    }
}

impl BundleDiscoveryQuery {
    pub fn new(identity: CacheIdentity, candidates: Vec<BundleKey>, now_unix_ms: u64) -> (r: Self)
        ensures
            r@ == (QueryView { identity: identity@, candidates: candidates@, now_unix_ms }),
    {
        BundleDiscoveryQuery { identity, candidates, now_unix_ms }
    }

    pub fn identity(&self) -> (r: &CacheIdentity)
        ensures
            r@ == self@.identity,
    {
        &self.identity
    }

    pub fn candidates(&self) -> (r: &[BundleKey])
        ensures
            r@ == self@.candidates,
    {
        self.candidates.as_slice()
    }

    pub fn now_unix_ms(&self) -> (r: u64)
        ensures
            r == self@.now_unix_ms,
    {
        self.now_unix_ms
    }
}

/// A directory's lease on one owner's complete bundle.
#[derive(Debug, PartialEq, Eq)]
pub struct RemoteBundleCandidate {
    advertisement: BundleAdvertisement,
    lease_id: uuid::Uuid,
    lease_expires_at_unix_ms: u64,
}

/// The mathematical content of a [`RemoteBundleCandidate`].
pub struct CandidateView {
    pub advertisement: AdvertisementView,
    pub lease_id: uuid::Uuid,
    pub lease_expires_at_unix_ms: u64,
}

impl View for RemoteBundleCandidate {
    type V = CandidateView;

    closed spec fn view(&self) -> CandidateView {
        CandidateView {
            advertisement: self.advertisement@,
            lease_id: self.lease_id,
            lease_expires_at_unix_ms: self.lease_expires_at_unix_ms,
        }
    }
}

impl RemoteBundleCandidate {
    #[verifier::type_invariant]
    spec fn valid(self) -> bool {
        self.lease_expires_at_unix_ms <= self.advertisement@.expires_at_unix_ms
    }

    pub fn new(
        advertisement: BundleAdvertisement,
        lease_id: uuid::Uuid,
        lease_expires_at_unix_ms: u64,
    ) -> (r: Result<Self, BundleDirectoryError>)
        ensures
            r is Ok <==> lease_expires_at_unix_ms <= advertisement@.expires_at_unix_ms,
            r is Ok ==> r->Ok_0@ == (CandidateView {
                advertisement: advertisement@,
                lease_id,
                lease_expires_at_unix_ms,
            }),
            r is Err ==> r->Err_0 == BundleDirectoryError::LeaseOutlivesAdvertisement,
    {
        if lease_expires_at_unix_ms > advertisement.expires_at_unix_ms() {
            return Err(BundleDirectoryError::LeaseOutlivesAdvertisement);
        }
        Ok(RemoteBundleCandidate { advertisement, lease_id, lease_expires_at_unix_ms })
    }

    pub fn advertisement(&self) -> (r: &BundleAdvertisement)
        ensures
            r@ == self@.advertisement,
    {
        &self.advertisement
    }

    pub fn lease_id(&self) -> (r: uuid::Uuid)
        ensures
            r == self@.lease_id,
    {
        self.lease_id
    }

    /// When the lease ends, which is never after the offer itself.
    pub fn lease_expires_at_unix_ms(&self) -> (r: u64)
        ensures
            r == self@.lease_expires_at_unix_ms,
            r <= self@.advertisement.expires_at_unix_ms,
    {
        proof {
            use_type_invariant(self);
        }
        self.lease_expires_at_unix_ms
    }
}

impl Clone for RemoteBundleCandidate {
    fn clone(&self) -> (r: Self)
        ensures
            r@ == self@,
    {
        proof {
            use_type_invariant(self);
        }
        RemoteBundleCandidate {
            advertisement: self.advertisement.clone(),
            lease_id: self.lease_id,
            lease_expires_at_unix_ms: self.lease_expires_at_unix_ms,
        }
    }
}

/// What the directory answers to a query.
#[derive(Debug, PartialEq, Eq)]
pub enum BundleDiscoveryOutcome {
    Hit(Box<RemoteBundleCandidate>),
    Miss(BundleMissReason),
}

/// How one attempt to pull a leased bundle ended.
#[derive(Clone, Copy, Debug, PartialEq, Eq, Structural)]
pub enum BundlePullOutcome {
    Pulled(BundleKey),
    Miss(BundleMissReason),
}

/// One owner's generation of a bundle that is no longer held.
#[derive(Clone, Copy, Debug, PartialEq, Eq, Structural)]
pub struct BundleInvalidation {
    pub key: BundleKey,
    pub generation: u64,
    pub owner: InstanceId,
}

/// Milliseconds since the epoch, from a clock reading that may lie before it or be too large.
pub fn unix_time_ms(since_epoch_ms: Option<u128>) -> (r: u64)
    ensures
        r == match since_epoch_ms {
            Some(ms) => if ms > u64::MAX {
                u64::MAX
            } else {
                ms as u64
            },
            None => 0,
        },
{
    match since_epoch_ms {
        Some(ms) => if ms > u64::MAX as u128 {
            u64::MAX
        } else {
            ms as u64
        },
        None => 0,
    }
}

/// An advertisement answers no query for another manifest, and none at or after its expiry.
pub proof fn advertisements_match_only_their_own_live_manifest(
    advertisement: AdvertisementView,
    query: QueryView,
)
    requires
        advertisement.matches(query),
    ensures
        advertisement.identity.manifest == query.identity.manifest,
        query.now_unix_ms < advertisement.expires_at_unix_ms,
{
}

/// A history of a bundle has exactly the native blocks that fit before the boundary; a capsule has
/// one block.
pub proof fn expected_blocks_fill_the_prefix(requirement: ResourceRequirement, boundary_tokens: u64)
    requires
        requirement.native_block_tokens > 0,
    ensures
        ({
            let native = requirement.native_block_tokens as int;
            let blocks = expected_blocks(requirement, boundary_tokens);
            match requirement.role {
                ResourceRole::PrefixHistory => blocks * native <= boundary_tokens < (blocks + 1)
                    * native,
                ResourceRole::BoundaryCapsule => blocks == 1,
            }
        }),
{
    let native = requirement.native_block_tokens as int;
    let tokens = boundary_tokens as int;
    assert(tokens / native * native <= tokens < (tokens / native + 1) * native)
        by (nonlinear_arith)
        requires
            native > 0,
    ;
}

/// A lineage fits its resource exactly if a history has all of its native blocks up to the boundary
/// and its last one is at the place that ends there, or a capsule is the one block under the hash
/// that names the bundle.
pub proof fn fitting_lineages_end_at_the_boundary(
    requirement: ResourceRequirement,
    key: BundleKey,
    hashes: Seq<SequenceHash>,
)
    requires
        requirement.native_block_tokens > 0,
        key.boundary_tokens as int % requirement.native_block_tokens as int == 0,
    ensures
        lineage_fault(requirement, key, hashes) is None <==> match requirement.role {
            ResourceRole::PrefixHistory => {
                &&& hashes.len() > 0
                &&& hashes.len() * requirement.native_block_tokens == key.boundary_tokens
                &&& hashes.last().position == hashes.len() - 1
            },
            ResourceRole::BoundaryCapsule => hashes == seq![key.boundary_hash],
        },
{
    let native = requirement.native_block_tokens as int;
    let tokens = key.boundary_tokens as int;
    let count = hashes.len() as int;
    assert(count == tokens / native <==> count * native == tokens) by (nonlinear_arith)
        requires
            native > 0,
            tokens % native == 0,
    ;
    if requirement.role is BoundaryCapsule && hashes.len() == 1 {
        assert(hashes =~= seq![hashes.last()]);
    }
}

/// What is advertised is every resource once, in the order of the identity, each with the lineage
/// that was handed in for it.
pub proof fn advertised_lineages_are_those_handed_in(
    identity: IdentityView,
    key: BundleKey,
    lineages: Seq<LineageView>,
    i: int,
)
    requires
        advertisable(identity, key, lineages),
        0 <= i < identity.resources.len(),
    ensures
        lineages.len() == identity.id_set().len(),
        lineages_in_order(identity, lineages).len() == identity.resources.len(),
        lineages_in_order(identity, lineages)[i].resource == identity.resources[i].resource,
        lineages.contains(lineages_in_order(identity, lineages)[i]),
{
    let ids = lineage_ids(lineages);
    let resource = identity.resources[i].resource;
    assert(identity.ids()[i] == resource);
    assert(identity.ids().contains(resource));
    assert(identity.id_set().contains(resource));
    assert(ids.to_set().contains(resource));
    assert(ids.contains(resource));
    let at = choose|at: int| 0 <= at < ids.len() && ids[at] == resource;
    assert(lineages[at].resource == resource);
    let found = choose|k: int| 0 <= k < lineages.len() && lineages[k].resource == resource;
    assert(lineages[found] == lineages_in_order(identity, lineages)[i]);
    assert(ids.no_duplicates()) by {
        assert forall|x: int, y: int| 0 <= x < ids.len() && 0 <= y < ids.len() && x != y implies ids[x]
            != ids[y] by {
            if x < y {
                assert(ids[x] != ids[y]);
            } else {
                assert(ids[y] != ids[x]);
            }
        }
    }
    ids.unique_seq_to_set();
}

/// An offer answers a query exactly if it is of the same identity, still live, and one of the
/// bundles asked for; a query that asks for more or earlier is answered by no less.
pub proof fn offers_answer_the_queries_they_fit(
    advertisement: AdvertisementView,
    query: QueryView,
    wider: QueryView,
)
    requires
        wider.identity == query.identity,
        wider.now_unix_ms <= query.now_unix_ms,
        forall|key: BundleKey| #[trigger]
            query.candidates.contains(key) ==> wider.candidates.contains(key),
    ensures
        advertisement.matches(query) ==> advertisement.matches(wider),
        query.candidates.contains(advertisement.key) && query.identity == advertisement.identity ==> (
        advertisement.matches(query) <==> query.now_unix_ms < advertisement.expires_at_unix_ms),
        !query.candidates.contains(advertisement.key) ==> !advertisement.matches(query),
        query.identity != advertisement.identity ==> !advertisement.matches(query),
{
}

/// An advertised bundle is named by a history of its own: the last block of some history carries
/// the hash that names the bundle.
pub proof fn advertised_bundles_are_named_by_a_history(
    identity: IdentityView,
    key: BundleKey,
    lineages: Seq<LineageView>,
)
    requires
        advertisable(identity, key, lineages),
    ensures
        key.manifest == identity.manifest,
        exists|i: int|
            {
                let own = lineages_in_order(identity, lineages)[i];
                &&& 0 <= i < identity.resources.len()
                &&& (#[trigger] identity.resources[i]).role is PrefixHistory
                &&& own.hashes.len() > 0
                &&& own.hashes[own.hashes.len() - 1] == key.boundary_hash
            },
{
    let ordered = lineages_in_order(identity, lineages);
    let i = choose|i: int|
        0 <= i < identity.resources.len() && (#[trigger] identity.resources[i]).role
            == ResourceRole::PrefixHistory && ordered[i].hashes.len() > 0
            && ordered[i].hashes.last() == key.boundary_hash;
    assert(identity.resources[i].role is PrefixHistory);
}

/// Lineages are refused only where they do not make up a complete bundle, and for what is wrong
/// with them.
pub proof fn advertisements_are_refused_for_cause(
    identity: IdentityView,
    key: BundleKey,
    lineages: Seq<LineageView>,
    e: BundleDirectoryError,
)
    requires
        advertisement_refused(identity, key, lineages, e),
    ensures
        !advertisable(identity, key, lineages),
        e is ManifestMismatch <==> key.manifest != identity.manifest,
        e matches BundleDirectoryError::DuplicateResource(resource) ==> exists|i: int, j: int|
            0 <= i < j < lineages.len() && (#[trigger] lineages[i]).resource == resource && (
            #[trigger] lineages[j]).resource == resource,
        e matches BundleDirectoryError::InvalidResourceBlockCount {
            resource,
            role,
            expected,
            actual,
        } ==> exists|i: int|
            {
                let own = lineages_in_order(identity, lineages)[i];
                &&& 0 <= i < identity.resources.len()
                &&& (#[trigger] identity.resources[i]).resource == resource
                &&& identity.resources[i].role == role
                &&& actual == own.hashes.len() as usize
                &&& own.hashes.len() != expected_blocks(
                    identity.resources[i],
                    key.boundary_tokens,
                )
            },
        !(e is LeaseOutlivesAdvertisement),
{
    let ids = lineage_ids(lineages);
    let ordered = lineages_in_order(identity, lineages);
    match e {
        BundleDirectoryError::DuplicateResource(resource) => {
            let at = choose|at: int| #[trigger] first_repeat(ids, at) && ids[at] == resource;
            let i = choose|i: int| 0 <= i < at && #[trigger] ids[i] == ids[at];
            assert(lineages[i].resource == resource && lineages[at].resource == resource);
            assert(ids[i] == ids[at]);
        },
        BundleDirectoryError::InvalidResourceBlockCount { .. } => {
            let at = choose|at: int|
                {
                    &&& 0 <= at < ordered.len()
                    &&& lineage_fault(identity.resources[at], key, (#[trigger] ordered[at]).hashes)
                        == Some(e)
                };
            assert(identity.resources[at].resource == identity.resources[at].resource);
            assert(ordered[at].hashes == ordered[at].hashes);
        },
        BundleDirectoryError::ManifestMismatch => {},
        BundleDirectoryError::IncompleteResources { .. } => {},
        BundleDirectoryError::MissingCanonicalHistoryBoundary => {},
        BundleDirectoryError::LeaseOutlivesAdvertisement => {},
        _ => {
            let at = choose|at: int|
                {
                    &&& 0 <= at < ordered.len()
                    &&& lineage_fault(identity.resources[at], key, (#[trigger] ordered[at]).hashes)
                        == Some(e)
                };
            assert(ordered[at].hashes == ordered[at].hashes);
        },
    }
}

/// The labels of the reasons tell them apart.
pub proof fn miss_labels_are_told_apart(a: BundleMissReason, b: BundleMissReason)
    requires
        a.label() == b.label(),
    ensures
        a == b,
{
    reveal_strlit("not_found");
    reveal_strlit("incompatible");
    reveal_strlit("incomplete");
    reveal_strlit("expired");
    reveal_strlit("canceled");
    reveal_strlit("owner_lost");
    reveal_strlit("timed_out");
    reveal_strlit("transfer_failed");
    reveal_strlit("checksum_failed");
    reveal_strlit("commit_failed");
    assert("not_found"@.len() == 9 && "not_found"@[0] == 'n');
    assert("incompatible"@.len() == 12 && "incompatible"@[0] == 'i');
    assert("incomplete"@.len() == 10 && "incomplete"@[0] == 'i');
    assert("expired"@.len() == 7 && "expired"@[0] == 'e');
    assert("canceled"@.len() == 8 && "canceled"@[0] == 'c');
    assert("owner_lost"@.len() == 10 && "owner_lost"@[0] == 'o');
    assert("timed_out"@.len() == 9 && "timed_out"@[0] == 't');
    assert("transfer_failed"@.len() == 15 && "transfer_failed"@[0] == 't');
    assert("checksum_failed"@.len() == 15 && "checksum_failed"@[0] == 'c');
    assert("commit_failed"@.len() == 13 && "commit_failed"@[0] == 'c');
    assert(a.label().len() == b.label().len());
    assert(a.label()[0] == b.label()[0]);
}

} // verus!
