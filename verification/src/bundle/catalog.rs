//! Committed bundles, their block dependencies and their retired generations as one transaction.

use crate::bundle::index::{
    after_commit, commit_accepted, commit_refused, lease_of, one_can_be_gone, reacquires,
    references, BundleIndex, BundleIndexError, BundleLease, BundleResourcePin, CommitDisposition,
    Committed, LeaseView,
};
use crate::ids::{BundleKey, LogicalResourceId, ResourceBlock, SequenceHash};
use crate::manifest::{CacheIdentity, IdentityView};
use crate::ordered::{
    ascending, ascending_keys_are_distinct, key_order, key_order_is_unique, KeyMap,
};
use crate::policy::dependency::{
    dependents_of, event_keys, lineages_back, lineages_hold, lineages_refused,
    BundleDependencyIndex, Dependencies, DependencyError, InvalidationEvent, ResourceLineage,
};
use vstd::prelude::*;

verus! {

/// Why the catalog refuses a commit.
#[derive(Debug, PartialEq, Eq)]
pub enum BundleCatalogError {
    Index(BundleIndexError),
    Dependency(DependencyError),
    /// The generation was invalidated and cannot be published again.
    RetiredGeneration { retired: u64, attempted: u64 },
}

/// A bundle that an invalidation removed, with the generation it had.
#[derive(Clone, Copy, Debug, PartialEq, Eq, Structural)]
pub struct InvalidatedBundle {
    pub key: BundleKey,
    pub generation: u64,
}

/// The bundles of a list of removed ones.
pub open spec fn invalidated_keys(invalidated: Seq<InvalidatedBundle>) -> Seq<BundleKey> {
    Seq::new(invalidated.len(), |i: int| invalidated[i].key)
}

/// The mathematical content of a [`BundleCatalog`].
pub struct CatalogView<R> {
    pub committed: Committed<R>,
    pub dependencies: Dependencies,
    pub retired: Map<BundleKey, u64>,
}

impl<R> CatalogView<R> {
    /// A bundle is visible exactly while its dependencies are known, and no visible bundle is
    /// retired.
    pub open spec fn wf(self) -> bool {
        &&& self.committed.dom() == self.dependencies.dom()
        &&& self.retired.dom().disjoint(self.committed.dom())
    }

    /// The catalog without a bundle, of which no generation is retired on that account.
    pub open spec fn dropping(self, key: BundleKey) -> CatalogView<R> {
        CatalogView {
            committed: self.committed.remove(key),
            dependencies: self.dependencies.remove(key),
            ..self
        }
    }

    /// The catalog without some bundles, whose generations are retired.
    pub open spec fn without(self, keys: Set<BundleKey>) -> CatalogView<R> {
        CatalogView {
            committed: self.committed.remove_keys(keys),
            dependencies: self.dependencies.remove_keys(keys),
            retired: self.retired.union_prefer_right(
                Map::new(
                    |key: BundleKey| keys.contains(key),
                    |key: BundleKey| self.committed[key].generation,
                ),
            ),
        }
    }
}

/// The bundles that depend on one of some blocks of a resource.
pub open spec fn hit_by(
    known: Dependencies,
    resource: LogicalResourceId,
    hashes: Seq<SequenceHash>,
) -> Set<BundleKey> {
    known.dom().filter(
        |key: BundleKey|
            exists|i: int|
                0 <= i < hashes.len() && known[key].contains(
                    ResourceBlock { resource, hash: #[trigger] hashes[i] },
                ),
    )
}

/// The bundles of which the block at a place is the first of some evicted ones that they depend
/// on.
pub open spec fn first_hit_at(
    known: Dependencies,
    resource: LogicalResourceId,
    hashes: Seq<SequenceHash>,
    at: int,
) -> Set<BundleKey> {
    known.dom().filter(
        |key: BundleKey|
            {
                &&& known[key].contains(ResourceBlock { resource, hash: hashes[at] })
                &&& forall|i: int|
                    0 <= i < at ==> !known[key].contains(
                        ResourceBlock { resource, hash: #[trigger] hashes[i] },
                    )
            },
    )
}

/// The bundles that the first of some evicted blocks take with them, in the order in which they
/// go: block after block, and those of one block in key order.
pub open spec fn hit_in_order(
    known: Dependencies,
    resource: LogicalResourceId,
    hashes: Seq<SequenceHash>,
    end: int,
) -> Seq<BundleKey>
    decreases end,
{
    if end <= 0 {
        Seq::empty()
    } else {
        hit_in_order(known, resource, hashes, end - 1) + key_order(
            first_hit_at(known, resource, hashes, end - 1),
        )
    }
}

/// Whether the generation is newer than every invalidated one of the bundle.
pub open spec fn outlives_retirement(
    retired: Map<BundleKey, u64>,
    key: BundleKey,
    generation: u64,
) -> bool {
    retired.contains_key(key) ==> retired[key] < generation
}

/// Whether a commit is accepted, does this, and takes the catalog from `before` to `after`. The
/// bundle then depends on exactly the blocks of the given lineages, also where this generation of
/// it was committed already, and nothing of it stays retired.
pub open spec fn catalog_commits<P: BundleResourcePin>(
    before: CatalogView<P::Reference>,
    after: CatalogView<P::Reference>,
    identity: IdentityView,
    key: BundleKey,
    generation: u64,
    pins: Map<LogicalResourceId, P>,
    lineages: Seq<ResourceLineage>,
    disposition: CommitDisposition,
) -> bool {
    &&& commit_accepted(before.committed, identity, key, generation, pins.dom(), disposition)
    &&& outlives_retirement(before.retired, key, generation)
    &&& lineages_back(lineages, key)
    &&& after_commit(before.committed, after.committed, key, generation, pins, disposition)
    &&& after.dependencies.contains_key(key)
    &&& after.dependencies.remove(key) == before.dependencies.remove(key)
    &&& forall|block: ResourceBlock|
        after.dependencies[key].contains(block) <==> #[trigger] lineages_hold(lineages, block)
    &&& after.retired == before.retired.remove(key)
}

/// Whether the index has room for a commit and its generation is not retired.
pub open spec fn catalog_has_room<R>(
    before: CatalogView<R>,
    identity: IdentityView,
    key: BundleKey,
    generation: u64,
    resources: Set<LogicalResourceId>,
) -> bool {
    &&& commit_accepted(
        before.committed,
        identity,
        key,
        generation,
        resources,
        CommitDisposition::Install,
    ) || commit_accepted(
        before.committed,
        identity,
        key,
        generation,
        resources,
        CommitDisposition::Idempotent,
    )
    &&& outlives_retirement(before.retired, key, generation)
}

/// Whether a commit is refused with this error.
pub open spec fn catalog_refuses<R>(
    before: CatalogView<R>,
    identity: IdentityView,
    key: BundleKey,
    generation: u64,
    resources: Set<LogicalResourceId>,
    lineages: Seq<ResourceLineage>,
    e: BundleCatalogError,
) -> bool {
    match e {
        BundleCatalogError::Index(e) => commit_refused(
            before.committed,
            identity,
            key,
            generation,
            resources,
            e,
        ),
        BundleCatalogError::RetiredGeneration { retired, attempted } => {
            &&& key.compatible(identity)
            &&& resources == identity.id_set()
            &&& before.retired.contains_key(key)
            &&& retired == before.retired[key]
            &&& attempted == generation
            &&& attempted <= retired
        },
        BundleCatalogError::Dependency(e) => {
            &&& catalog_has_room(before, identity, key, generation, resources)
            &&& lineages_refused(lineages, key, e)
        },
    }
}

/// The catalog after a refused commit. Where only the lineages do not fit, the bundle under the key
/// is gone, whatever generation of it was visible; otherwise nothing has changed.
pub open spec fn after_refusal<R>(
    before: CatalogView<R>,
    key: BundleKey,
    e: BundleCatalogError,
) -> CatalogView<R> {
    match e {
        BundleCatalogError::Dependency(_) => before.dropping(key),
        _ => before,
    }
}

/// Committed bundles together with what they depend on.
pub struct BundleCatalog<P: BundleResourcePin> {
    index: BundleIndex<P>,
    dependencies: BundleDependencyIndex,
    retired: KeyMap<BundleKey, u64>,
}

impl<P: BundleResourcePin> View for BundleCatalog<P> {
    type V = CatalogView<P::Reference>;

    closed spec fn view(&self) -> CatalogView<P::Reference> {
        CatalogView {
            committed: self.index@,
            dependencies: self.dependencies@,
            retired: self.retired@,
        }
    }
}

impl<P: BundleResourcePin> BundleCatalog<P> {
    pub closed spec fn wf(&self) -> bool {
        self.dependencies.wf() && self@.wf()
    }

    pub fn new() -> (r: Self)
        ensures
            r.wf(),
            r@ == (CatalogView::<P::Reference> {
                committed: Map::empty(),
                dependencies: Map::empty(),
                retired: Map::empty(),
            }),
    {
        let r = BundleCatalog {
            index: BundleIndex::new(),
            dependencies: BundleDependencyIndex::new(),
            retired: KeyMap::new(),
        };
        assert(r@.committed.dom() =~= r@.dependencies.dom());
        r
    }

    pub fn index(&self) -> (r: &BundleIndex<P>)
        ensures
            r@ == self@.committed,
    {
        &self.index
    }

    /// Publishes a complete bundle together with the blocks it depends on. A bundle whose lineages
    /// do not fit is taken out of the catalog; any other refusal changes nothing.
    pub fn commit(
        &mut self,
        identity: &CacheIdentity,
        key: BundleKey,
        generation: u64,
        resources: &KeyMap<LogicalResourceId, P>,
        lineages: &[ResourceLineage],
    ) -> (r: Result<CommitDisposition, BundleCatalogError>)
        requires
            old(self).wf(),
        ensures
            final(self).wf(),
            final(self)@.wf(),
            match r {
                Ok(disposition) => catalog_commits(
                    old(self)@,
                    final(self)@,
                    identity@,
                    key,
                    generation,
                    resources@,
                    lineages@,
                    disposition,
                ),
                Err(e) => final(self)@ == after_refusal(old(self)@, key, e) && catalog_refuses(
                    old(self)@,
                    identity@,
                    key,
                    generation,
                    resources@.dom(),
                    lineages@,
                    e,
                ),
            },
    {
        let disposition = match self.index.validate_commit(identity, key, generation, resources) {
            Ok(disposition) => disposition,
            Err(e) => {
                return Err(BundleCatalogError::Index(e));
            },
        };
        if let Some(retired) = self.retired.get(&key) {
            if generation <= *retired {
                return Err(
                    BundleCatalogError::RetiredGeneration {
                        retired: *retired,
                        attempted: generation,
                    },
                );
            }
        }
        match self.dependencies.track(key, lineages) {
            Ok(()) => {},
            Err(e) => {
                self.index.remove(key);
                self.dependencies.untrack(key);
                proof {
                    let after = old(self)@.dropping(key);
                    assert(self@.committed =~= after.committed);
                    assert(self@.dependencies =~= after.dependencies);
                }
                return Err(BundleCatalogError::Dependency(e));
            },
        }
        self.retired.remove(&key);
        if disposition == CommitDisposition::Install {
            self.index.install(key, generation, resources);
        }
        proof {
            assert(self@.committed.dom() =~= self@.dependencies.dom());
        }
        Ok(disposition)
    }

    /// Pins every resource of one visible bundle, or none.
    pub fn lease_exact(&self, identity: &CacheIdentity, key: &BundleKey) -> (r: Option<
        BundleLease<P>,
    >)
        ensures
            match r {
                Some(lease) => key.compatible(identity@) && lease_of(
                    self@.committed,
                    *key,
                    lease@,
                ),
                None => key.compatible(identity@) && self@.committed.contains_key(*key)
                    ==> one_can_be_gone(self@.committed[*key].resources),
            },
    {
        self.index.lease_exact(identity, key)
    }

    /// The bundles that depend on a block, in key order.
    pub fn dependents(&self, resource: LogicalResourceId, hash: SequenceHash) -> (r: Vec<BundleKey>)
        requires
            self.wf(),
        ensures
            ascending(r@),
            r@.to_set() == dependents_of(self@.dependencies, ResourceBlock { resource, hash }),
    {
        self.dependencies.dependents(resource, hash)
    }

    /// Removes one bundle and retires its generation.
    pub fn invalidate_key(&mut self, key: BundleKey) -> (r: Option<u64>)
        requires
            old(self).wf(),
        ensures
            final(self).wf(),
            final(self)@.wf(),
            match r {
                Some(generation) => {
                    &&& old(self)@.committed.contains_key(key)
                    &&& generation == old(self)@.committed[key].generation
                    &&& final(self)@ == old(self)@.without(set![key])
                },
                None => !old(self)@.committed.contains_key(key) && final(self)@ == old(self)@,
            },
    {
        let ghost before = self@;
        match self.index.remove(key) {
            Some(generation) => {
                self.dependencies.untrack(key);
                self.retired.insert(key, generation);
                proof {
                    let after = before.without(set![key]);
                    assert(self@.committed =~= after.committed);
                    assert(self@.dependencies =~= after.dependencies);
                    assert(self@.retired =~= after.retired);
                    assert(self@.committed.dom() =~= self@.dependencies.dom());
                }
                Some(generation)
            },
            None => {
                assert(self@.committed =~= before.committed);
                None
            },
        }
    }

    /// Removes every bundle that depends on one of the evicted blocks, and retires their
    /// generations.
    pub fn invalidate_resource(
        &mut self,
        resource: LogicalResourceId,
        hashes: &[SequenceHash],
    ) -> (r: Vec<InvalidatedBundle>)
        requires
            old(self).wf(),
        ensures
            final(self).wf(),
            final(self)@.wf(),
            final(self)@ == old(self)@.without(
                hit_by(old(self)@.dependencies, resource, hashes@),
            ),
            invalidated_keys(r@) == hit_in_order(
                old(self)@.dependencies,
                resource,
                hashes@,
                hashes@.len() as int,
            ),
            invalidated_keys(r@).no_duplicates(),
            invalidated_keys(r@).to_set() == hit_by(old(self)@.dependencies, resource, hashes@),
            forall|i: int|
                0 <= i < r@.len() ==> (#[trigger] r@[i]).generation
                    == old(self)@.committed[r@[i].key].generation,
    {
        let ghost before = self@;
        let mut invalidated: Vec<InvalidatedBundle> = Vec::new();
        let mut at: usize = 0;
        proof {
            let none = hit_by(before.dependencies, resource, hashes@.subrange(0, 0));
            assert(none =~= Set::<BundleKey>::empty());
            assert(before.committed.remove_keys(none) =~= before.committed);
            assert(before.dependencies.remove_keys(none) =~= before.dependencies);
            assert(before.without(none).retired =~= before.retired);
            assert(invalidated_keys(invalidated@).to_set() =~= none);
            assert(invalidated_keys(invalidated@) =~= Seq::<BundleKey>::empty());
        }
        while at < hashes.len()
            invariant
                at <= hashes@.len(),
                self.wf(),
                before.wf(),
                self@ == before.without(
                    hit_by(before.dependencies, resource, hashes@.subrange(0, at as int)),
                ),
                invalidated_keys(invalidated@) == hit_in_order(
                    before.dependencies,
                    resource,
                    hashes@,
                    at as int,
                ),
                invalidated_keys(invalidated@).no_duplicates(),
                invalidated_keys(invalidated@).to_set() == hit_by(
                    before.dependencies,
                    resource,
                    hashes@.subrange(0, at as int),
                ),
                forall|i: int|
                    0 <= i < invalidated@.len() ==> (#[trigger] invalidated@[i]).generation
                        == before.committed[invalidated@[i].key].generation,
            decreases hashes@.len() - at,
        {
            let hash = hashes[at];
            let ghost middle = self@;
            let ghost listed = invalidated@;
            let ghost done = hit_by(before.dependencies, resource, hashes@.subrange(0, at as int));
            let ghost now = dependents_of(middle.dependencies, ResourceBlock { resource, hash });
            let events = self.dependencies.invalidate(resource, hash);
            self.retire(&events, &mut invalidated, Ghost(middle));
            proof {
                let next = hit_by(before.dependencies, resource, hashes@.subrange(0, at + 1));
                let more = hashes@.subrange(0, at + 1);
                let less = hashes@.subrange(0, at as int);
                assert forall|key: BundleKey| next.contains(key) <==> done.contains(key)
                    || now.contains(key) by {
                    if before.dependencies.contains_key(key) {
                        if next.contains(key) {
                            let i = choose|i: int|
                                0 <= i < more.len() && before.dependencies[key].contains(
                                    ResourceBlock { resource, hash: #[trigger] more[i] },
                                );
                            if i < at {
                                assert(less[i] == more[i]);
                            }
                        }
                        if done.contains(key) {
                            let i = choose|i: int|
                                0 <= i < less.len() && before.dependencies[key].contains(
                                    ResourceBlock { resource, hash: #[trigger] less[i] },
                                );
                            assert(more[i] == less[i]);
                        }
                        assert(more[at as int] == hash);
                    }
                }
                assert(next =~= done.union(now));
                let fresh = first_hit_at(before.dependencies, resource, hashes@, at as int);
                assert forall|key: BundleKey| now.contains(key) <==> fresh.contains(key) by {
                    if before.dependencies.contains_key(key) {
                        if fresh.contains(key) && done.contains(key) {
                            let i = choose|i: int|
                                0 <= i < less.len() && before.dependencies[key].contains(
                                    ResourceBlock { resource, hash: #[trigger] less[i] },
                                );
                            assert(hashes@[i] == less[i]);
                        }
                        if now.contains(key) {
                            assert forall|i: int|
                                0 <= i < at implies !before.dependencies[key].contains(
                                ResourceBlock { resource, hash: #[trigger] hashes@[i] },
                            ) by {
                                assert(less[i] == hashes@[i]);
                            }
                        }
                    }
                }
                assert(now =~= fresh);
                key_order_is_unique(event_keys(events@));
                let after = before.without(next);
                assert(self@.committed =~= after.committed);
                assert(self@.dependencies =~= after.dependencies);
                assert(self@.retired =~= after.retired);
                let all = invalidated_keys(invalidated@);
                let first = invalidated_keys(listed);
                let last = event_keys(events@);
                assert(all == first + last);
                assert forall|key: BundleKey| all.to_set().contains(key) <==> next.contains(
                    key,
                ) by {
                    assert(first.to_set().contains(key) <==> done.contains(key));
                    assert(last.to_set().contains(key) <==> now.contains(key));
                    if all.contains(key) {
                        let i = choose|i: int| 0 <= i < all.len() && all[i] == key;
                        if i < first.len() {
                            assert(first[i] == key);
                        } else {
                            assert(last[i - first.len()] == key);
                        }
                    }
                    if first.contains(key) {
                        let i = choose|i: int| 0 <= i < first.len() && first[i] == key;
                        assert(all[i] == key);
                    }
                    if last.contains(key) {
                        let i = choose|i: int| 0 <= i < last.len() && last[i] == key;
                        assert(all[first.len() + i] == key);
                    }
                }
                assert(all.to_set() =~= next);
                assert forall|i: int| 0 <= i < invalidated@.len() implies (
                #[trigger] invalidated@[i]).generation
                    == before.committed[invalidated@[i].key].generation by {
                    if i < listed.len() {
                        assert(invalidated@[i] == listed[i]);
                    } else {
                        let key = invalidated@[i].key;
                        assert(all[i] == key);
                        assert(last[i - first.len()] == key);
                        assert(last.contains(key));
                        assert(last.to_set().contains(key));
                        assert(now.contains(key));
                    }
                }
            }
            at = at + 1;
        }
        assert(hashes@.subrange(0, at as int) =~= hashes@);
        invalidated
    }

    /// Takes the bundles of some invalidations out of the index and retires their generations.
    fn retire(
        &mut self,
        events: &Vec<InvalidationEvent>,
        invalidated: &mut Vec<InvalidatedBundle>,
        Ghost(middle): Ghost<CatalogView<P::Reference>>,
    )
        requires
            middle.wf(),
            old(self).dependencies.wf(),
            old(self)@.committed == middle.committed,
            old(self)@.retired == middle.retired,
            old(self)@.dependencies == middle.dependencies.remove_keys(
                event_keys(events@).to_set(),
            ),
            ascending(event_keys(events@)),
            event_keys(events@).to_set().subset_of(middle.committed.dom()),
            invalidated_keys(old(invalidated)@).no_duplicates(),
            invalidated_keys(old(invalidated)@).to_set().disjoint(middle.committed.dom()),
        ensures
            final(self).wf(),
            final(self)@ == middle.without(event_keys(events@).to_set()),
            invalidated_keys(final(invalidated)@) == invalidated_keys(old(invalidated)@)
                + event_keys(events@),
            invalidated_keys(final(invalidated)@).no_duplicates(),
            forall|i: int|
                0 <= i < old(invalidated)@.len() ==> final(invalidated)@[i]
                    == #[trigger] old(invalidated)@[i],
            forall|i: int|
                old(invalidated)@.len() <= i < final(invalidated)@.len() ==> (
                #[trigger] final(invalidated)@[i]).generation
                    == middle.committed[final(invalidated)@[i].key].generation,
    {
        let ghost keys = event_keys(events@);
        let mut at: usize = 0;
        proof {
            ascending_keys_are_distinct(keys);
            let none = keys.subrange(0, 0).to_set();
            assert(none =~= Set::<BundleKey>::empty());
            assert(self@.committed =~= middle.without(none).committed);
            assert(self@.retired =~= middle.without(none).retired);
            assert(invalidated_keys(invalidated@) =~= invalidated_keys(old(invalidated)@)
                + keys.subrange(0, 0));
        }
        while at < events.len()
            invariant
                at <= events@.len(),
                keys == event_keys(events@),
                keys.no_duplicates(),
                keys.to_set().subset_of(middle.committed.dom()),
                self.dependencies == old(self).dependencies,
                self@.committed == middle.without(keys.subrange(0, at as int).to_set()).committed,
                self@.retired == middle.without(keys.subrange(0, at as int).to_set()).retired,
                invalidated@.len() == old(invalidated)@.len() + at,
                invalidated_keys(invalidated@) == invalidated_keys(old(invalidated)@)
                    + keys.subrange(0, at as int),
                forall|i: int|
                    0 <= i < old(invalidated)@.len() ==> invalidated@[i] == #[trigger] old(
                        invalidated,
                    )@[i],
                forall|i: int|
                    old(invalidated)@.len() <= i < invalidated@.len() ==> (
                    #[trigger] invalidated@[i]).generation
                        == middle.committed[invalidated@[i].key].generation,
            decreases events@.len() - at,
        {
            let key = events[at].key;
            let ghost done = keys.subrange(0, at as int);
            let ghost more = keys.subrange(0, at + 1);
            proof {
                assert(keys[at as int] == key);
                assert(keys.contains(key));
                assert(keys.to_set().contains(key));
                assert(more =~= done.push(key));
                assert(!done.contains(key)) by {
                    if done.contains(key) {
                        let i = choose|i: int| 0 <= i < done.len() && done[i] == key;
                        assert(keys[i] == keys[at as int]);
                    }
                }
                assert(!done.to_set().contains(key));
                assert forall|k: BundleKey| more.to_set().contains(k) <==> done.to_set().contains(k)
                    || k == key by {
                    if done.contains(k) {
                        let i = choose|i: int| 0 <= i < done.len() && done[i] == k;
                        assert(more[i] == k);
                    }
                    if more.contains(k) {
                        let i = choose|i: int| 0 <= i < more.len() && more[i] == k;
                        if i < at {
                            assert(done[i] == k);
                        }
                    }
                    assert(more[at as int] == key);
                }
            }
            let ghost was = self@;
            let ghost listed = invalidated@;
            if let Some(generation) = self.index.remove(key) {
                self.retired.insert(key, generation);
                invalidated.push(InvalidatedBundle { key, generation });
            }
            proof {
                assert(was.committed.contains_key(key));
                assert(self@.committed =~= middle.without(more.to_set()).committed);
                assert(self@.retired =~= middle.without(more.to_set()).retired);
                assert(invalidated_keys(invalidated@) =~= invalidated_keys(listed).push(key));
                assert(invalidated_keys(invalidated@) =~= invalidated_keys(old(invalidated)@)
                    + more);
            }
            at = at + 1;
        }
        proof {
            assert(keys.subrange(0, at as int) =~= keys);
            let all = invalidated_keys(invalidated@);
            let first = invalidated_keys(old(invalidated)@);
            assert forall|i: int, j: int|
                0 <= i < all.len() && 0 <= j < all.len() && i != j implies all[i] != all[j] by {
                let n = first.len();
                assert(i < n ==> first.to_set().contains(first[i]));
                assert(j < n ==> first.to_set().contains(first[j]));
                assert(i >= n ==> keys.to_set().contains(keys[i - n]));
                assert(j >= n ==> keys.to_set().contains(keys[j - n]));
            }
            assert(self@.committed.dom() =~= self@.dependencies.dom());
        }
    }
}

/// An invalidated generation never becomes visible again: after an invalidation, a commit of the
/// same bundle is accepted only with a newer generation.
pub proof fn invalidated_generations_stay_retired<R>(
    catalog: CatalogView<R>,
    keys: Set<BundleKey>,
    key: BundleKey,
    generation: u64,
)
    requires
        catalog.wf(),
        keys.subset_of(catalog.committed.dom()),
        keys.contains(key),
    ensures
        !catalog.without(keys).committed.contains_key(key),
        outlives_retirement(catalog.without(keys).retired, key, generation) <==> generation
            > catalog.committed[key].generation,
{
}

/// An eviction removes every bundle built on an evicted block from visibility and from the
/// dependencies, and leaves every other bundle as it was.
pub proof fn eviction_hides_exactly_the_dependents<R>(
    catalog: CatalogView<R>,
    resource: LogicalResourceId,
    hashes: Seq<SequenceHash>,
    key: BundleKey,
    at: int,
)
    requires
        catalog.wf(),
        catalog.committed.contains_key(key),
        0 <= at < hashes.len(),
    ensures
        catalog.dependencies[key].contains(ResourceBlock { resource, hash: hashes[at] })
            ==> !catalog.without(
            hit_by(catalog.dependencies, resource, hashes),
        ).committed.contains_key(key),
        !hit_by(catalog.dependencies, resource, hashes).contains(key) ==> {
            let after = catalog.without(hit_by(catalog.dependencies, resource, hashes));
            &&& after.committed.contains_key(key)
            &&& after.committed[key] == catalog.committed[key]
            &&& after.dependencies[key] == catalog.dependencies[key]
        },
        catalog.without(hit_by(catalog.dependencies, resource, hashes)).wf(),
{
    let after = catalog.without(hit_by(catalog.dependencies, resource, hashes));
    assert(after.committed.dom() =~= after.dependencies.dom());
}

/// What is leased is what was committed: under the key of a bundle that was just installed, every
/// lease is of that generation and has a pin for exactly every resource of the identity, had back
/// from a reference to the very pin that was committed.
pub proof fn installed_bundles_are_leased_whole<P: BundleResourcePin>(
    before: CatalogView<P::Reference>,
    after: CatalogView<P::Reference>,
    identity: IdentityView,
    key: BundleKey,
    generation: u64,
    pins: Map<LogicalResourceId, P>,
    lineages: Seq<ResourceLineage>,
    lease: LeaseView<P>,
)
    requires
        catalog_commits(
            before,
            after,
            identity,
            key,
            generation,
            pins,
            lineages,
            CommitDisposition::Install,
        ),
        lease_of(after.committed, key, lease),
    ensures
        lease.generation == generation,
        lease.resources.dom() == identity.id_set(),
        forall|resource: LogicalResourceId| #[trigger]
            lease.resources.contains_key(resource) ==> exists|reference: P::Reference|
                #[trigger] references(pins[resource], reference) && reacquires(
                    reference,
                    Some(lease.resources[resource]),
                ),
{
    assert forall|resource: LogicalResourceId| #[trigger]
        lease.resources.contains_key(resource) implies exists|reference: P::Reference|
        #[trigger] references(pins[resource], reference) && reacquires(
            reference,
            Some(lease.resources[resource]),
        ) by {
        let reference = after.committed[key].resources[resource];
        assert(after.committed[key].resources.contains_key(resource));
        assert(pins.contains_key(resource));
        assert(references(pins[resource], reference));
    }
}

/// An eviction ends a bundle exactly if one of the evicted blocks is one that it depends on; its
/// generation is then retired, and every other bundle and retirement stays.
pub proof fn evictions_end_exactly_what_they_touch<R>(
    catalog: CatalogView<R>,
    resource: LogicalResourceId,
    hashes: Seq<SequenceHash>,
    key: BundleKey,
)
    requires
        catalog.wf(),
    ensures
        ({
            let after = catalog.without(hit_by(catalog.dependencies, resource, hashes));
            let touched = catalog.committed.contains_key(key) && exists|i: int|
                0 <= i < hashes.len() && catalog.dependencies[key].contains(
                    ResourceBlock { resource, hash: #[trigger] hashes[i] },
                );
            &&& after.committed.contains_key(key) <==> catalog.committed.contains_key(key)
                && !touched
            &&& after.dependencies.contains_key(key) <==> catalog.committed.contains_key(key)
                && !touched
            &&& touched ==> after.retired.contains_key(key) && after.retired[key]
                == catalog.committed[key].generation
            &&& !touched ==> (after.retired.contains_key(key) <==> catalog.retired.contains_key(
                key,
            ))
            &&& after.retired.contains_key(key) && !touched ==> after.retired[key]
                == catalog.retired[key]
            &&& after.committed.contains_key(key) ==> after.committed[key]
                == catalog.committed[key] && after.dependencies[key] == catalog.dependencies[key]
        }),
{
    let hit = hit_by(catalog.dependencies, resource, hashes);
    assert(hit.contains(key) <==> catalog.dependencies.contains_key(key) && exists|i: int|
        0 <= i < hashes.len() && catalog.dependencies[key].contains(
            ResourceBlock { resource, hash: #[trigger] hashes[i] },
        ));
    assert(catalog.dependencies.contains_key(key) <==> catalog.committed.contains_key(key)) by {
        assert(catalog.dependencies.dom().contains(key) <==> catalog.committed.dom().contains(key));
    }
}

/// What one evicted block takes with it goes in key order.
pub proof fn one_block_takes_its_dependents_in_key_order(
    known: Dependencies,
    resource: LogicalResourceId,
    hash: SequenceHash,
    order: Seq<BundleKey>,
)
    requires
        ascending(order),
        forall|key: BundleKey| #[trigger]
            order.contains(key) <==> known.contains_key(key) && known[key].contains(
                ResourceBlock { resource, hash },
            ),
    ensures
        hit_in_order(known, resource, seq![hash], 1) == order,
{
    let hashes = seq![hash];
    let first = first_hit_at(known, resource, hashes, 0);
    assert forall|key: BundleKey| first.contains(key) <==> order.to_set().contains(key) by {
        assert(order.contains(key) <==> order.to_set().contains(key));
    }
    assert(first =~= order.to_set());
    key_order_is_unique(order);
    assert(hit_in_order(known, resource, hashes, 0) =~= Seq::empty());
    assert(hit_in_order(known, resource, hashes, 1) =~= order);
}

/// Evicting some blocks and then others takes the same bundles in the same order as evicting all of
/// them at once.
pub proof fn evictions_go_block_after_block(
    known: Dependencies,
    resource: LogicalResourceId,
    hashes: Seq<SequenceHash>,
    more: Seq<SequenceHash>,
)
    ensures
        hit_in_order(known, resource, hashes + more, (hashes.len() + more.len()) as int)
            == hit_in_order(known, resource, hashes, hashes.len() as int) + hit_in_order(
            known.remove_keys(hit_by(known, resource, hashes)),
            resource,
            more,
            more.len() as int,
        ),
{
    let all = hashes + more;
    let n = hashes.len() as int;
    same_hits(known, resource, hashes, all, n);
    rest_in_order(known, resource, hashes, more, more.len() as int);
}

proof fn same_hits(
    known: Dependencies,
    resource: LogicalResourceId,
    hashes: Seq<SequenceHash>,
    all: Seq<SequenceHash>,
    end: int,
)
    requires
        0 <= end <= hashes.len(),
        hashes.is_prefix_of(all),
    ensures
        hit_in_order(known, resource, all, end) == hit_in_order(known, resource, hashes, end),
    decreases end,
{
    if end > 0 {
        same_hits(known, resource, hashes, all, end - 1);
        assert forall|i: int| 0 <= i < hashes.len() implies #[trigger] hashes[i] == all[i] by {
            assert(all.subrange(0, hashes.len() as int)[i] == all[i]);
        }
        let a = first_hit_at(known, resource, hashes, end - 1);
        let b = first_hit_at(known, resource, all, end - 1);
        assert forall|key: BundleKey| a.contains(key) <==> b.contains(key) by {
            if a.contains(key) {
                assert forall|i: int| 0 <= i < end - 1 implies !known[key].contains(
                    ResourceBlock { resource, hash: #[trigger] all[i] },
                ) by {
                    assert(hashes[i] == all[i]);
                }
            }
            if b.contains(key) {
                assert forall|i: int| 0 <= i < end - 1 implies !known[key].contains(
                    ResourceBlock { resource, hash: #[trigger] hashes[i] },
                ) by {
                    assert(hashes[i] == all[i]);
                }
            }
        }
        assert(a =~= b);
    }
}

proof fn rest_in_order(
    known: Dependencies,
    resource: LogicalResourceId,
    hashes: Seq<SequenceHash>,
    more: Seq<SequenceHash>,
    end: int,
)
    requires
        0 <= end <= more.len(),
    ensures
        hit_in_order(known, resource, hashes + more, hashes.len() + end) == hit_in_order(
            known,
            resource,
            hashes + more,
            hashes.len() as int,
        ) + hit_in_order(
            known.remove_keys(hit_by(known, resource, hashes)),
            resource,
            more,
            end,
        ),
    decreases end,
{
    let all = hashes + more;
    let n = hashes.len() as int;
    let hit = hit_by(known, resource, hashes);
    let left = known.remove_keys(hit);
    let start = hit_in_order(known, resource, all, n);
    if end > 0 {
        rest_in_order(known, resource, hashes, more, end - 1);
        let a = first_hit_at(known, resource, all, n + end - 1);
        let b = first_hit_at(left, resource, more, end - 1);
        assert(all[n + end - 1] == more[end - 1]);
        assert forall|key: BundleKey| a.contains(key) <==> b.contains(key) by {
            if a.contains(key) {
                assert(!hit.contains(key)) by {
                    if hit.contains(key) {
                        let i = choose|i: int|
                            0 <= i < hashes.len() && known[key].contains(
                                ResourceBlock { resource, hash: #[trigger] hashes[i] },
                            );
                        assert(all[i] == hashes[i]);
                    }
                }
                assert forall|i: int| 0 <= i < end - 1 implies !left[key].contains(
                    ResourceBlock { resource, hash: #[trigger] more[i] },
                ) by {
                    assert(all[n + i] == more[i]);
                }
            }
            if b.contains(key) {
                assert forall|i: int| 0 <= i < n + end - 1 implies !known[key].contains(
                    ResourceBlock { resource, hash: #[trigger] all[i] },
                ) by {
                    if i < n {
                        assert(all[i] == hashes[i]);
                    } else {
                        assert(all[i] == more[i - n]);
                    }
                }
            }
        }
        assert(a =~= b);
        let before = hit_in_order(left, resource, more, end - 1);
        assert(start + before + key_order(a) =~= start + (before + key_order(b)));
    } else {
        assert(start + hit_in_order(left, resource, more, 0) =~= start);
    }
}

/// A commit is accepted only for a complete bundle of the manifest, of a generation that is neither
/// older than the visible one nor retired, with lineages that end at the bundle; the bundle then
/// depends on exactly their blocks, and on no other bundle's account does anything change.
pub proof fn accepted_commits_are_complete_and_current<P: BundleResourcePin>(
    before: CatalogView<P::Reference>,
    after: CatalogView<P::Reference>,
    identity: IdentityView,
    key: BundleKey,
    generation: u64,
    pins: Map<LogicalResourceId, P>,
    lineages: Seq<ResourceLineage>,
    disposition: CommitDisposition,
    block: ResourceBlock,
    other: BundleKey,
)
    requires
        catalog_commits(
            before,
            after,
            identity,
            key,
            generation,
            pins,
            lineages,
            disposition,
        ),
        before.wf(),
        other != key,
    ensures
        key.manifest == identity.manifest,
        pins.dom() == identity.id_set(),
        before.committed.contains_key(key) ==> before.committed[key].generation <= generation,
        before.retired.contains_key(key) ==> before.retired[key] < generation,
        disposition is Idempotent <==> before.committed.contains_key(key)
            && before.committed[key].generation == generation,
        disposition is Idempotent ==> after.committed == before.committed,
        after.committed.contains_key(key),
        after.committed[key].generation == generation,
        !after.retired.contains_key(key),
        after.dependencies[key].contains(block) <==> exists|i: int|
            0 <= i < lineages.len() && (#[trigger] lineages[i]).resource == block.resource
                && lineages[i].hashes@.contains(block.hash),
        after.committed.contains_key(other) <==> before.committed.contains_key(other),
        after.committed[other] == before.committed[other],
        after.dependencies[other] == before.dependencies[other],
        after.retired.contains_key(other) <==> before.retired.contains_key(other),
        after.retired[other] == before.retired[other],
{
    assert(after.dependencies[key].contains(block) <==> lineages_hold(lineages, block));
    assert(after.dependencies.remove(key)[other] == before.dependencies.remove(key)[other]);
    if disposition is Install {
        assert(after.committed.dom().contains(other) <==> before.committed.dom().insert(
            key,
        ).contains(other));
        assert(after.committed.remove(key)[other] == before.committed.remove(key)[other]);
    }
}

/// A commit is refused only where something is wrong with it: one of a complete bundle of the
/// manifest, newer than what is retired and no older than what is visible, with lineages that end
/// at the bundle, is never refused. Only unfit lineages cost the bundle its place; any other refusal
/// changes nothing.
pub proof fn sound_commits_are_not_refused<R>(
    before: CatalogView<R>,
    identity: IdentityView,
    key: BundleKey,
    generation: u64,
    resources: Set<LogicalResourceId>,
    lineages: Seq<ResourceLineage>,
    e: BundleCatalogError,
    other: BundleKey,
)
    requires
        catalog_refuses(before, identity, key, generation, resources, lineages, e),
    ensures
        ({
            let fits = key.manifest == identity.manifest && resources == identity.id_set();
            let visible = before.committed.contains_key(key);
            let retired = before.retired.contains_key(key);
            let after = after_refusal(before, key, e);
            &&& match e {
                BundleCatalogError::Index(_) => !fits || visible
                    && before.committed[key].generation > generation,
                BundleCatalogError::RetiredGeneration { retired: last, attempted } => fits
                    && retired && last == before.retired[key] && attempted == generation
                    && generation <= before.retired[key],
                BundleCatalogError::Dependency(_) => fits && !lineages_back(lineages, key),
            }
            &&& !(e is Dependency) ==> after == before
            &&& e is Dependency ==> !after.committed.contains_key(key)
                && !after.dependencies.contains_key(key) && after.retired == before.retired
            &&& other != key ==> (after.committed.contains_key(other)
                <==> before.committed.contains_key(other)) && after.committed[other]
                == before.committed[other] && after.dependencies[other]
                == before.dependencies[other]
        }),
{
    match e {
        BundleCatalogError::Dependency(d) => {
            crate::policy::dependency::lineages_are_refused_for_what_is_wrong(lineages, key, d);
        },
        BundleCatalogError::Index(i) => {
            if let BundleIndexError::MissingResources { resources: missing } = i {
                let gone = identity.id_set().difference(resources);
                assert(missing@.contains(missing@[0]));
                assert(missing@.to_set().contains(missing@[0]));
                assert(gone.contains(missing@[0]));
            }
        },
        _ => {},
    }
}

} // verus!
