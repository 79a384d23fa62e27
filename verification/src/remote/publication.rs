//! What an owner publishes of its bundles, and how it keeps that up to date.

use crate::bundle::catalog::{
    after_refusal, catalog_commits, catalog_refuses, hit_by, hit_in_order, invalidated_keys,
    BundleCatalog, BundleCatalogError,
};
use crate::bundle::index::{BlockPin, BundleResourcePin, CommitDisposition};
use crate::ids::{BundleKey, InstanceId, LogicalResourceId, RegistrationEpoch, SequenceHash};
use crate::lists::{copy_hashes, copy_lineages};
use crate::manifest::{
    lineage_views, BundleResourceLineage, CacheIdentity, IdentityView, LineageView,
};
use crate::offload::completion::CommittedMetadata;
use crate::ordered::{key_order, key_order_is_unique, KeyMap};
use crate::policy::dependency::ResourceLineage;
use crate::remote::search::{
    advertisable, advertisement_refused, lineages_in_order, AdvertisementView, BundleAdvertisement,
    BundleDirectoryError, BundleInvalidation,
};
use vstd::prelude::*;

verus! {

/// How long an advertisement is good for.
pub const BUNDLE_DIRECTORY_TTL_MS: u64 = 300_000;

/// How often advertisements are renewed.
pub const BUNDLE_DIRECTORY_REFRESH_MS: u64 = 150_000;

/// How many advertisements are renewed at a time.
pub const MAX_CONCURRENT_BUNDLE_REFRESHES: usize = 16;

/// When an advertisement that is published now ends.
pub fn advertisement_expiry(now_unix_ms: u64) -> (r: u64)
    ensures
        r == if now_unix_ms + BUNDLE_DIRECTORY_TTL_MS <= u64::MAX {
            (now_unix_ms + BUNDLE_DIRECTORY_TTL_MS) as u64
        } else {
            u64::MAX
        },
{
    if now_unix_ms <= u64::MAX - BUNDLE_DIRECTORY_TTL_MS {
        now_unix_ms + BUNDLE_DIRECTORY_TTL_MS
    } else {
        u64::MAX
    }
}

/// Everything that an owner's advertisement of one bundle is made from.
#[derive(Debug)]
pub struct BundlePublication {
    identity: CacheIdentity,
    key: BundleKey,
    generation: u64,
    lineages: Vec<BundleResourceLineage>,
}

/// The mathematical content of a [`BundlePublication`].
pub struct PublishedView {
    pub identity: IdentityView,
    pub key: BundleKey,
    pub generation: u64,
    pub lineages: Seq<LineageView>,
}

impl View for BundlePublication {
    type V = PublishedView;

    closed spec fn view(&self) -> PublishedView {
        PublishedView {
            identity: self.identity@,
            key: self.key,
            generation: self.generation,
            lineages: lineage_views(self.lineages@),
        }
    }
}

impl BundlePublication {
    pub fn new(
        identity: CacheIdentity,
        key: BundleKey,
        generation: u64,
        lineages: Vec<BundleResourceLineage>,
    ) -> (r: Self)
        ensures
            r@ == (PublishedView {
                identity: identity@,
                key,
                generation,
                lineages: lineage_views(lineages@),
            }),
    {
        BundlePublication { identity, key, generation, lineages }
    }

    pub fn key(&self) -> (r: &BundleKey)
        ensures
            *r == self@.key,
    {
        &self.key
    }

    pub fn generation(&self) -> (r: u64)
        ensures
            r == self@.generation,
    {
        self.generation
    }

    /// The same publication once more.
    pub fn copied(&self) -> (r: Self)
        ensures
            r@ == self@,
    {
        BundlePublication {
            identity: self.identity.clone(),
            key: self.key,
            generation: self.generation,
            lineages: copy_lineages(self.lineages.as_slice()),
        }
    }

    /// The advertisement of this bundle by an owner, until some time.
    pub fn advertisement(
        &self,
        owner: InstanceId,
        registration_epoch: RegistrationEpoch,
        expires_at_unix_ms: u64,
    ) -> (r: Result<BundleAdvertisement, BundleDirectoryError>)
        ensures
            r is Ok ==> {
                &&& r->Ok_0@.wf()
                &&& r->Ok_0@ == (AdvertisementView {
                    identity: self@.identity,
                    key: self@.key,
                    generation: self@.generation,
                    owner,
                    registration_epoch,
                    expires_at_unix_ms,
                    lineages: lineages_in_order(self@.identity, self@.lineages),
                })
            },
            r is Ok <==> advertisable(self@.identity, self@.key, self@.lineages),
            r is Err ==> advertisement_refused(
                self@.identity,
                self@.key,
                self@.lineages,
                r->Err_0,
            ),
    {
        BundleAdvertisement::new(
            self.identity.clone(),
            self.key,
            self.generation,
            owner,
            registration_epoch,
            expires_at_unix_ms,
            copy_lineages(self.lineages.as_slice()),
        )
    }
}

/// The mathematical content of a [`BundlePublications`].
pub struct PublicationsView {
    pub publications: Map<BundleKey, PublishedView>,
    pub started: bool,
}

impl PublicationsView {
    /// What is still published once a generation of a bundle is withdrawn.
    pub open spec fn without(self, key: BundleKey, generation: u64) -> PublicationsView {
        if self.publications.contains_key(key) && self.publications[key].generation == generation {
            PublicationsView { publications: self.publications.remove(key), ..self }
        } else {
            self
        }
    }
}

/// The bundles that an owner publishes now.
#[derive(Debug)]
pub struct BundlePublications {
    publications: KeyMap<BundleKey, BundlePublication>,
    started: bool,
}

impl View for BundlePublications {
    type V = PublicationsView;

    closed spec fn view(&self) -> PublicationsView {
        PublicationsView {
            publications: self.publications@.map_values(
                |publication: BundlePublication| publication@,
            ),
            started: self.started,
        }
    }
}

impl BundlePublications {
    pub fn new() -> (r: Self)
        ensures
            r@ == (PublicationsView { publications: Map::empty(), started: false }),
    {
        let r = BundlePublications { publications: KeyMap::new(), started: false };
        assert(r@.publications =~= Map::<BundleKey, PublishedView>::empty());
        r
    }

    /// Publishes a bundle in place of what its key published before; whether renewal is to be
    /// started, which is said once.
    pub fn track(&mut self, publication: BundlePublication) -> (r: bool)
        ensures
            final(self)@ == (PublicationsView {
                publications: old(self)@.publications.insert(publication@.key, publication@),
                started: true,
            }),
            r == !old(self)@.started,
    {
        let first = !self.started;
        let key = *publication.key();
        self.publications.insert(key, publication);
        self.started = true;
        assert(self@.publications =~= old(self)@.publications.insert(
            publication@.key,
            publication@,
        ));
        first
    }

    /// Stops publishing exactly this generation of a bundle; a newer one stays.
    pub fn forget(&mut self, key: &BundleKey, generation: u64)
        ensures
            final(self)@ == old(self)@.without(*key, generation),
    {
        let current = match self.publications.get(key) {
            Some(publication) => publication.generation() == generation,
            None => false,
        };
        if current {
            self.publications.remove(key);
            assert(self@.publications =~= old(self)@.publications.remove(*key));
        }
    }

    pub fn get(&self, key: &BundleKey) -> (r: Option<&BundlePublication>)
        ensures
            r is Some <==> self@.publications.contains_key(*key),
            r is Some ==> r->Some_0@ == self@.publications[*key],
    {
        self.publications.get(key)
    }

    /// A copy of everything that is published now, in key order.
    pub fn snapshot(&self) -> (r: Vec<BundlePublication>)
        ensures
            r@.len() == key_order(self@.publications.dom()).len(),
            forall|i: int|
                0 <= i < r@.len() ==> (#[trigger] r@[i])@ == self@.publications[key_order(
                    self@.publications.dom(),
                )[i]],
    {
        let keys = self.publications.keys();
        proof {
            key_order_is_unique(keys@);
            assert(self@.publications.dom() =~= self.publications@.dom());
        }
        let mut copies: Vec<BundlePublication> = Vec::new();
        let mut at: usize = 0;
        while at < keys.len()
            invariant
                at <= keys@.len(),
                keys@.to_set() == self.publications@.dom(),
                copies@.len() == at,
                forall|i: int|
                    0 <= i < at ==> (#[trigger] copies@[i])@ == self@.publications[keys@[i]],
            decreases keys@.len() - at,
        {
            proof {
                assert(keys@.contains(keys@[at as int]));
                assert(keys@.to_set().contains(keys@[at as int]));
            }
            if let Some(publication) = self.publications.get(&keys[at]) {
                copies.push(publication.copied());
            }
            at = at + 1;
        }
        copies
    }
}

/// The end of the batch of renewals that starts at some place of a snapshot.
pub fn refresh_batch_end(start: usize, count: usize) -> (r: usize)
    requires
        start <= count,
    ensures
        r == if start + MAX_CONCURRENT_BUNDLE_REFRESHES <= count {
            start + MAX_CONCURRENT_BUNDLE_REFRESHES
        } else {
            count as int
        },
        start < count ==> start < r,
{
    if count - start > MAX_CONCURRENT_BUNDLE_REFRESHES {
        start + MAX_CONCURRENT_BUNDLE_REFRESHES
    } else {
        count
    }
}

/// Evicts blocks: every bundle built on one of them is removed, and the owner's exact generations
/// of them are to be withdrawn from the directory.
pub fn invalidate_resource_blocks<P: BundleResourcePin>(
    catalog: &mut BundleCatalog<P>,
    resource: LogicalResourceId,
    hashes: &[SequenceHash],
    owner: InstanceId,
) -> (r: Vec<BundleInvalidation>)
    requires
        old(catalog).wf(),
    ensures
        final(catalog).wf(),
        final(catalog)@ == old(catalog)@.without(
            hit_by(old(catalog)@.dependencies, resource, hashes@),
        ),
        withdrawn_keys(r@) == hit_in_order(
            old(catalog)@.dependencies,
            resource,
            hashes@,
            hashes@.len() as int,
        ),
        withdrawn_keys(r@).no_duplicates(),
        withdrawn_keys(r@).to_set() == hit_by(old(catalog)@.dependencies, resource, hashes@),
        forall|i: int|
            0 <= i < r@.len() ==> {
                &&& (#[trigger] r@[i]).owner == owner
                &&& r@[i].generation == old(catalog)@.committed[r@[i].key].generation
            },
{
    let removed = catalog.invalidate_resource(resource, hashes);
    let mut withdrawn: Vec<BundleInvalidation> = Vec::new();
    let mut at: usize = 0;
    while at < removed.len()
        invariant
            at <= removed@.len(),
            withdrawn@.len() == at,
            forall|i: int|
                0 <= i < at ==> #[trigger] withdrawn@[i] == (BundleInvalidation {
                    key: removed@[i].key,
                    generation: removed@[i].generation,
                    owner,
                }),
        decreases removed@.len() - at,
    {
        withdrawn.push(
            BundleInvalidation { key: removed[at].key, generation: removed[at].generation, owner },
        );
        at = at + 1;
    }
    assert(withdrawn_keys(withdrawn@) =~= invalidated_keys(removed@));
    withdrawn
}

/// The bundles of a list of withdrawals.
pub open spec fn withdrawn_keys(withdrawn: Seq<BundleInvalidation>) -> Seq<BundleKey> {
    Seq::new(withdrawn.len(), |i: int| withdrawn[i].key)
}

/// Why a pulled bundle does not become visible.
#[derive(Debug, PartialEq, Eq)]
pub enum PulledCommitError {
    MissingLineage { resource: LogicalResourceId },
    /// No block manager serves the resource.
    NoManager { resource: LogicalResourceId },
    /// Not every block of the resource is held locally.
    Incomplete { resource: LogicalResourceId },
    Catalog(BundleCatalogError),
}

/// What keeps one pulled resource from being committed, given its lineage and the pins on it.
pub open spec fn pulled_fault<B>(
    resource: LogicalResourceId,
    lineages: Map<LogicalResourceId, Vec<SequenceHash>>,
    pins: Map<LogicalResourceId, Vec<B>>,
) -> Option<PulledCommitError> {
    if !lineages.contains_key(resource) {
        Some(PulledCommitError::MissingLineage { resource })
    } else if !pins.contains_key(resource) {
        Some(PulledCommitError::NoManager { resource })
    } else if pins[resource]@.len() != lineages[resource]@.len() {
        Some(PulledCommitError::Incomplete { resource })
    } else {
        None
    }
}

/// Whether every resource of an identity was pulled whole.
pub open spec fn pulled_whole<B>(
    identity: IdentityView,
    lineages: Map<LogicalResourceId, Vec<SequenceHash>>,
    pins: Map<LogicalResourceId, Vec<B>>,
) -> bool {
    forall|i: int|
        0 <= i < identity.resources.len() ==> pulled_fault(
            (#[trigger] identity.resources[i]).resource,
            lineages,
            pins,
        ) is None
}

/// The pulled lineages as the bundle's dependencies, in resource order.
pub open spec fn pulled_lineages(
    identity: IdentityView,
    lineages: Map<LogicalResourceId, Vec<SequenceHash>>,
    dependencies: Seq<ResourceLineage>,
) -> bool {
    &&& dependencies.len() == identity.resources.len()
    &&& forall|i: int|
        0 <= i < dependencies.len() ==> {
            &&& (#[trigger] dependencies[i]).resource == identity.resources[i].resource
            &&& dependencies[i].role == identity.resources[i].role
            &&& dependencies[i].hashes@ == lineages[identity.resources[i].resource]@
        }
}

/// Commits a pulled bundle: every resource must be pinned whole, and then all of it becomes visible
/// with the blocks it depends on.
pub fn commit_pulled_bundle<B: BlockPin>(
    catalog: &mut BundleCatalog<Vec<B>>,
    identity: CacheIdentity,
    key: BundleKey,
    generation: u64,
    lineages: &KeyMap<LogicalResourceId, Vec<SequenceHash>>,
    pins: KeyMap<LogicalResourceId, Vec<B>>,
) -> (r: Result<CommittedMetadata, PulledCommitError>)
    requires
        old(catalog).wf(),
    ensures
        final(catalog).wf(),
        match r {
            Ok(metadata) => {
                &&& pulled_whole(identity@, lineages@, pins@)
                &&& metadata.identity@ == identity@
                &&& metadata.key == key
                &&& metadata.generation == generation
                &&& exists|
                    dependencies: Seq<ResourceLineage>,
                    disposition: CommitDisposition,
                |
                    pulled_lineages(identity@, lineages@, dependencies)
                        && #[trigger] catalog_commits(
                        old(catalog)@,
                        final(catalog)@,
                        identity@,
                        key,
                        generation,
                        pins@,
                        dependencies,
                        disposition,
                    )
            },
            Err(PulledCommitError::Catalog(e)) => {
                &&& pulled_whole(identity@, lineages@, pins@)
                &&& final(catalog)@ == after_refusal(old(catalog)@, key, e)
                &&& exists|dependencies: Seq<ResourceLineage>|
                    pulled_lineages(identity@, lineages@, dependencies)
                        && #[trigger] catalog_refuses(
                        old(catalog)@,
                        identity@,
                        key,
                        generation,
                        pins@.dom(),
                        dependencies,
                        e,
                    )
            },
            Err(e) => {
                &&& final(catalog)@ == old(catalog)@
                &&& exists|at: int|
                    {
                        &&& 0 <= at < identity@.resources.len()
                        &&& pulled_fault(
                            (#[trigger] identity@.resources[at]).resource,
                            lineages@,
                            pins@,
                        ) == Some(e)
                        &&& forall|i: int|
                            0 <= i < at ==> pulled_fault(
                                (#[trigger] identity@.resources[i]).resource,
                                lineages@,
                                pins@,
                            ) is None
                    }
            },
        },
{
    let requirements = identity.resources();
    let mut dependencies: Vec<ResourceLineage> = Vec::new();
    let mut at: usize = 0;
    while at < requirements.len()
        invariant
            at <= requirements@.len(),
            requirements@ == identity@.resources,
            *catalog == *old(catalog),
            catalog.wf(),
            forall|i: int|
                0 <= i < at ==> pulled_fault(
                    (#[trigger] requirements@[i]).resource,
                    lineages@,
                    pins@,
                ) is None,
            dependencies@.len() == at,
            forall|i: int|
                0 <= i < at ==> {
                    &&& (#[trigger] dependencies@[i]).resource == requirements@[i].resource
                    &&& dependencies@[i].role == requirements@[i].role
                    &&& dependencies@[i].hashes@ == lineages@[requirements@[i].resource]@
                },
        decreases requirements@.len() - at,
    {
        let requirement = requirements[at];
        let resource = requirement.resource;
        let ghost fault = pulled_fault(requirements@[at as int].resource, lineages@, pins@);
        let hashes = match lineages.get(&resource) {
            Some(hashes) => hashes,
            None => {
                let e = PulledCommitError::MissingLineage { resource };
                assert(fault == Some(e));
                return Err(e);
            },
        };
        let held = match pins.get(&resource) {
            Some(held) => held.len(),
            None => {
                let e = PulledCommitError::NoManager { resource };
                assert(fault == Some(e));
                return Err(e);
            },
        };
        if held != hashes.len() {
            let e = PulledCommitError::Incomplete { resource };
            assert(fault == Some(e));
            return Err(e);
        }
        assert(fault is None);
        dependencies.push(
            ResourceLineage {
                resource,
                role: requirement.role,
                hashes: copy_hashes(hashes.as_slice()),
            },
        );
        at = at + 1;
    }
    assert(pulled_lineages(identity@, lineages@, dependencies@));
    match catalog.commit(&identity, key, generation, &pins, dependencies.as_slice()) {
        Ok(_) => Ok(CommittedMetadata { identity, key, generation }),
        Err(e) => Err(PulledCommitError::Catalog(e)),
    }
}

/// Withdrawing a generation of a bundle ends that one and nothing else: a newer generation under
/// the same key stays published, and so does every other bundle.
pub proof fn withdrawing_spares_every_other_publication(
    before: PublicationsView,
    key: BundleKey,
    generation: u64,
    other: BundleKey,
)
    requires
        before.publications.contains_key(other),
    ensures
        ({
            let after = before.without(key, generation).publications;
            if other == key && before.publications[other].generation == generation {
                !after.contains_key(other)
            } else {
                after.contains_key(other) && after[other] == before.publications[other]
            }
        }),
{
}

/// A bundle was pulled whole exactly if every resource of its identity has a lineage and as many
/// pinned blocks as that lineage has hashes.
pub proof fn bundles_are_pulled_whole_block_for_block<B>(
    identity: IdentityView,
    lineages: Map<LogicalResourceId, Vec<SequenceHash>>,
    pins: Map<LogicalResourceId, Vec<B>>,
)
    ensures
        pulled_whole(identity, lineages, pins) <==> forall|i: int|
            0 <= i < identity.resources.len() ==> {
                let resource = (#[trigger] identity.resources[i]).resource;
                &&& lineages.contains_key(resource)
                &&& pins.contains_key(resource)
                &&& pins[resource]@.len() == lineages[resource]@.len()
            },
{
    if pulled_whole(identity, lineages, pins) {
        assert forall|i: int| 0 <= i < identity.resources.len() implies ({
            let resource = (#[trigger] identity.resources[i]).resource;
            &&& lineages.contains_key(resource)
            &&& pins.contains_key(resource)
            &&& pins[resource]@.len() == lineages[resource]@.len()
        }) by {
            assert(pulled_fault(identity.resources[i].resource, lineages, pins) is None);
        }
    }
}

/// A pulled bundle depends on the pulled hashes of each of its resources, under that resource's own
/// role.
pub proof fn pulled_bundles_depend_on_what_was_pulled(
    identity: IdentityView,
    lineages: Map<LogicalResourceId, Vec<SequenceHash>>,
    dependencies: Seq<ResourceLineage>,
    i: int,
)
    requires
        pulled_lineages(identity, lineages, dependencies),
        0 <= i < identity.resources.len(),
    ensures
        dependencies.len() == identity.resources.len(),
        dependencies[i].resource == identity.resources[i].resource,
        dependencies[i].role == identity.resources[i].role,
        dependencies[i].hashes@ == lineages[identity.resources[i].resource]@,
{
}

} // verus!
