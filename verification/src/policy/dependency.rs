//! Which committed bundles depend on which blocks.

use crate::ids::{BundleKey, LogicalResourceId, ResourceBlock, SequenceHash};
use crate::manifest::ResourceRole;
use crate::ordered::{ascending, KeyMap, KeySet};
use vstd::prelude::*;

verus! {

/// The blocks of one resource that a bundle is built from.
#[derive(Debug, PartialEq, Eq)]
pub struct ResourceLineage {
    pub resource: LogicalResourceId,
    pub role: ResourceRole,
    pub hashes: Vec<SequenceHash>,
}

/// Why lineages are refused.
#[derive(Clone, Copy, Debug, PartialEq, Eq, Structural)]
pub enum DependencyError {
    /// A dependency set needs at least one resource.
    NoResources,
    DuplicateResource { resource: LogicalResourceId },
    EmptyLineage { resource: LogicalResourceId },
    /// The lineage does not end at the bundle's boundary.
    BoundaryMismatch { resource: LogicalResourceId },
    /// A capsule is one logical object.
    CapsuleNotAtomic { resource: LogicalResourceId },
}

/// One bundle that an evicted block took with it.
#[derive(Clone, Copy, Debug, PartialEq, Eq, Structural)]
pub struct InvalidationEvent {
    pub key: BundleKey,
    pub resource: LogicalResourceId,
    pub hash: SequenceHash,
}

impl InvalidationEvent {
    pub fn key(self) -> (r: BundleKey)
        ensures
            r == self.key,
    {
        self.key
    }

    pub fn resource(self) -> (r: LogicalResourceId)
        ensures
            r == self.resource,
    {
        self.resource
    }

    pub fn hash(self) -> (r: SequenceHash)
        ensures
            r == self.hash,
    {
        self.hash
    }
}

impl ResourceLineage {
    pub fn new(
        resource: LogicalResourceId,
        role: ResourceRole,
        hashes: Vec<SequenceHash>,
    ) -> (r: Self)
        ensures
            r == (ResourceLineage { resource, role, hashes }),
    {
        ResourceLineage { resource, role, hashes }
    }

    /// What keeps the lineage from backing a bundle.
    pub open spec fn defect(self, key: BundleKey) -> Option<DependencyError> {
        if self.hashes@.len() == 0 {
            Some(DependencyError::EmptyLineage { resource: self.resource })
        } else if self.hashes@.last() != key.boundary_hash {
            Some(DependencyError::BoundaryMismatch { resource: self.resource })
        } else if self.role == ResourceRole::BoundaryCapsule && self.hashes@.len() != 1 {
            Some(DependencyError::CapsuleNotAtomic { resource: self.resource })
        } else {
            None
        }
    }

    pub fn validate(&self, key: BundleKey) -> (r: Result<(), DependencyError>)
        ensures
            r == match self.defect(key) {
                Some(e) => Err::<(), DependencyError>(e),
                None => Ok(()),
            },
    {
        let count: usize = self.hashes.len();
        if count == 0 {
            return Err(DependencyError::EmptyLineage { resource: self.resource });
        }
        if self.hashes[count - 1] != key.boundary_hash {
            return Err(DependencyError::BoundaryMismatch { resource: self.resource });
        }
        if self.role == ResourceRole::BoundaryCapsule && count != 1 {
            return Err(DependencyError::CapsuleNotAtomic { resource: self.resource });
        }
        Ok(())
    }
}

/// What is wrong with the lineage at a position, given those before it.
pub open spec fn lineage_defect(
    lineages: Seq<ResourceLineage>,
    key: BundleKey,
    at: int,
) -> Option<DependencyError> {
    if exists|i: int| 0 <= i < at && (#[trigger] lineages[i]).resource == lineages[at].resource {
        Some(DependencyError::DuplicateResource { resource: lineages[at].resource })
    } else {
        lineages[at].defect(key)
    }
}

/// Whether the lineages form a dependency set of the bundle.
pub open spec fn lineages_back(lineages: Seq<ResourceLineage>, key: BundleKey) -> bool {
    &&& lineages.len() > 0
    &&& forall|i: int| 0 <= i < lineages.len() ==> #[trigger] lineage_defect(lineages, key, i) is None
}

/// `e` is what the first unfit lineage is refused for.
pub open spec fn lineages_refused(
    lineages: Seq<ResourceLineage>,
    key: BundleKey,
    e: DependencyError,
) -> bool {
    if lineages.len() == 0 {
        e == DependencyError::NoResources
    } else {
        exists|at: int|
            {
                &&& 0 <= at < lineages.len()
                &&& #[trigger] lineage_defect(lineages, key, at) == Some(e)
                &&& forall|i: int|
                    0 <= i < at ==> #[trigger] lineage_defect(lineages, key, i) is None
            }
    }
}

/// Whether a block belongs to one of the lineages.
pub open spec fn lineages_hold(lineages: Seq<ResourceLineage>, block: ResourceBlock) -> bool {
    exists|i: int|
        0 <= i < lineages.len() && (#[trigger] lineages[i]).resource == block.resource
            && lineages[i].hashes@.contains(block.hash)
}

/// For each known bundle the blocks it depends on.
pub type Dependencies = Map<BundleKey, Set<ResourceBlock>>;

/// The bundles that depend on a block.
pub open spec fn dependents_of(known: Dependencies, block: ResourceBlock) -> Set<BundleKey> {
    known.dom().filter(|key: BundleKey| known[key].contains(block))
}

/// The known bundles without those that depend on a block.
pub open spec fn without_dependents(known: Dependencies, block: ResourceBlock) -> Dependencies {
    known.remove_keys(dependents_of(known, block))
}

/// An index from bundles to their blocks, and back.
#[derive(Debug)]
pub struct BundleDependencyIndex {
    by_block: KeyMap<ResourceBlock, KeySet<BundleKey>>,
    by_bundle: KeyMap<BundleKey, KeySet<ResourceBlock>>,
}

impl View for BundleDependencyIndex {
    type V = Dependencies;

    closed spec fn view(&self) -> Dependencies {
        self.by_bundle@.map_values(|blocks: KeySet<ResourceBlock>| blocks@)
    }
}

impl BundleDependencyIndex {
    /// A block leads to a bundle exactly when the bundle leads to the block, and no block leads
    /// nowhere.
    pub closed spec fn wf(&self) -> bool {
        &&& forall|block: ResourceBlock, key: BundleKey|
            #![trigger self.leads(block, key)]
            self.leads(block, key) <==> self@.contains_key(key) && self@[key].contains(block)
        &&& forall|block: ResourceBlock|
            self.by_block@.contains_key(block) ==> (#[trigger] self.by_block@[block])@ != Set::<
                BundleKey,
            >::empty()
    }

    spec fn leads(&self, block: ResourceBlock, key: BundleKey) -> bool {
        self.by_block@.contains_key(block) && self.by_block@[block]@.contains(key)
    }

    pub fn new() -> (r: Self)
        ensures
            r.wf(),
            r@ == Dependencies::empty(),
    {
        let r = BundleDependencyIndex { by_block: KeyMap::new(), by_bundle: KeyMap::new() };
        assert(r@ =~= Dependencies::empty());
        r
    }

    /// Makes a bundle depend on the blocks of its lineages, and on nothing else.
    pub fn track(&mut self, key: BundleKey, lineages: &[ResourceLineage]) -> (r: Result<
        (),
        DependencyError,
    >)
        requires
            old(self).wf(),
        ensures
            final(self).wf(),
            match r {
                Ok(()) => {
                    &&& lineages_back(lineages@, key)
                    &&& final(self)@.dom() == old(self)@.dom().insert(key)
                    &&& final(self)@.remove(key) == old(self)@.remove(key)
                    &&& forall|block: ResourceBlock|
                        final(self)@[key].contains(block) <==> #[trigger] lineages_hold(
                            lineages@,
                            block,
                        )
                },
                Err(e) => lineages_refused(lineages@, key, e) && *final(self) == *old(self),
            },
    {
        if lineages.len() == 0 {
            return Err(DependencyError::NoResources);
        }
        let mut blocks: KeySet<ResourceBlock> = KeySet::new();
        let mut seen: KeySet<LogicalResourceId> = KeySet::new();
        let mut at: usize = 0;
        while at < lineages.len()
            invariant
                at <= lineages@.len(),
                *self == *old(self),
                old(self).wf(),
                forall|i: int| 0 <= i < at ==> #[trigger] lineage_defect(lineages@, key, i) is None,
                forall|resource: LogicalResourceId|
                    seen@.contains(resource) <==> exists|i: int|
                        0 <= i < at && (#[trigger] lineages@[i]).resource == resource,
                forall|block: ResourceBlock|
                    blocks@.contains(block) <==> #[trigger] lineages_hold(
                        lineages@.subrange(0, at as int),
                        block,
                    ),
            decreases lineages@.len() - at,
        {
            let lineage = &lineages[at];
            let ghost seen_before = seen@;
            let fresh = seen.insert(lineage.resource);
            if !fresh {
                assert(lineage_defect(lineages@, key, at as int) == Some(
                    DependencyError::DuplicateResource { resource: lineage.resource },
                ));
                return Err(DependencyError::DuplicateResource { resource: lineage.resource });
            }
            match lineage.validate(key) {
                Ok(()) => {},
                Err(e) => {
                    assert(lineage_defect(lineages@, key, at as int) == Some(e));
                    return Err(e);
                },
            }
            assert(lineage_defect(lineages@, key, at as int) is None);
            let ghost before = blocks@;
            Self::add_blocks(&mut blocks, lineage);
            proof {
                let done = lineages@.subrange(0, at as int);
                let next = lineages@.subrange(0, at + 1);
                assert forall|block: ResourceBlock|
                    blocks@.contains(block) <==> #[trigger] lineages_hold(next, block) by {
                    assert(before.contains(block) <==> lineages_hold(done, block));
                    if lineages_hold(done, block) {
                        let i = choose|i: int|
                            0 <= i < done.len() && (#[trigger] done[i]).resource == block.resource
                                && done[i].hashes@.contains(block.hash);
                        assert(next[i].resource == block.resource);
                    }
                    if lineages_hold(next, block) {
                        let i = choose|i: int|
                            0 <= i < next.len() && (#[trigger] next[i]).resource == block.resource
                                && next[i].hashes@.contains(block.hash);
                        if i < at {
                            assert(done[i].resource == block.resource);
                        }
                    }
                    assert(next[at as int] == *lineage);
                }
                assert forall|resource: LogicalResourceId|
                    seen@.contains(resource) <==> exists|i: int|
                        0 <= i < at + 1 && (#[trigger] lineages@[i]).resource == resource by {
                    if seen_before.contains(resource) {
                        let i = choose|i: int|
                            0 <= i < at && (#[trigger] lineages@[i]).resource == resource;
                        assert(lineages@[i].resource == resource);
                    }
                    assert(lineages@[at as int].resource == lineage.resource);
                }
            }
            at = at + 1;
        }
        proof {
            assert(lineages@.subrange(0, at as int) =~= lineages@);
            assert forall|block: ResourceBlock|
                blocks@.contains(block) <==> #[trigger] lineages_hold(lineages@, block) by {
                assert(blocks@.contains(block) <==> lineages_hold(
                    lineages@.subrange(0, at as int),
                    block,
                ));
            }
        }
        self.untrack(key);
        let ghost cleared = *self;
        let listed = blocks.keys();
        let mut next: usize = 0;
        while next < listed.len()
            invariant
                next <= listed@.len(),
                ascending(listed@),
                self.by_bundle == cleared.by_bundle,
                forall|block: ResourceBlock, other: BundleKey|
                    #![trigger self.leads(block, other)]
                    self.leads(block, other) <==> cleared.leads(block, other) || (other == key
                        && listed@.subrange(0, next as int).contains(block)),
                forall|block: ResourceBlock|
                    self.by_block@.contains_key(block) ==> (#[trigger] self.by_block@[block])@
                        != Set::<BundleKey>::empty(),
            decreases listed@.len() - next,
        {
            let ghost was = *self;
            let block = listed[next];
            self.link(block, key);
            proof {
                let done = listed@.subrange(0, next as int);
                let more = listed@.subrange(0, next + 1);
                assert(more =~= done.push(block));
                assert forall|b: ResourceBlock, other: BundleKey|
                    #![trigger self.leads(b, other)]
                    self.leads(b, other) <==> cleared.leads(b, other) || (other == key
                        && more.contains(b)) by {
                    assert(self.leads(b, other) <==> was.leads(b, other) || (b == block && other
                        == key));
                    if more.contains(b) && b != block {
                        let i = choose|i: int| 0 <= i < more.len() && more[i] == b;
                        assert(done[i] == b);
                    }
                    if done.contains(b) {
                        let i = choose|i: int| 0 <= i < done.len() && done[i] == b;
                        assert(more[i] == b);
                    }
                    assert(more[next as int] == block);
                }
            }
            next = next + 1;
        }
        let ghost linked = *self;
        let ghost stored = blocks@;
        self.by_bundle.insert(key, blocks);
        proof {
            assert(listed@.subrange(0, next as int) =~= listed@);
            assert forall|block: ResourceBlock| listed@.contains(block) <==> stored.contains(
                block,
            ) by {
                assert(listed@.to_set().contains(block) <==> listed@.contains(block));
            }
            assert(self@ =~= cleared@.insert(key, stored));
            assert(self@.remove(key) =~= old(self)@.remove(key));
            assert forall|block: ResourceBlock, other: BundleKey|
                #![trigger self.leads(block, other)]
                self.leads(block, other) <==> self@.contains_key(other) && self@[other].contains(
                    block,
                ) by {
                assert(self.leads(block, other) == linked.leads(block, other));
            }
        }
        Ok(())
    }

    /// Adds the blocks of one lineage to a set.
    fn add_blocks(blocks: &mut KeySet<ResourceBlock>, lineage: &ResourceLineage)
        ensures
            forall|block: ResourceBlock| #[trigger]
                final(blocks)@.contains(block) <==> old(blocks)@.contains(block) || (block.resource
                    == lineage.resource && lineage.hashes@.contains(block.hash)),
    {
        let mut at: usize = 0;
        while at < lineage.hashes.len()
            invariant
                at <= lineage.hashes@.len(),
                forall|block: ResourceBlock| #[trigger]
                    blocks@.contains(block) <==> old(blocks)@.contains(block) || (block.resource
                        == lineage.resource && lineage.hashes@.subrange(0, at as int).contains(
                        block.hash,
                    )),
            decreases lineage.hashes@.len() - at,
        {
            let ghost before = blocks@;
            blocks.insert(ResourceBlock { resource: lineage.resource, hash: lineage.hashes[at] });
            proof {
                let done = lineage.hashes@.subrange(0, at as int);
                let more = lineage.hashes@.subrange(0, at + 1);
                assert(more =~= done.push(lineage.hashes@[at as int]));
                assert forall|hash: SequenceHash| more.contains(hash) <==> done.contains(hash)
                    || hash == lineage.hashes@[at as int] by {
                    if done.contains(hash) {
                        let i = choose|i: int| 0 <= i < done.len() && done[i] == hash;
                        assert(more[i] == hash);
                    }
                    if more.contains(hash) {
                        let i = choose|i: int| 0 <= i < more.len() && more[i] == hash;
                        if i < at {
                            assert(done[i] == hash);
                        }
                    }
                    assert(more[at as int] == lineage.hashes@[at as int]);
                }
                assert forall|block: ResourceBlock| #[trigger]
                    blocks@.contains(block) <==> old(blocks)@.contains(block) || (block.resource
                        == lineage.resource && more.contains(block.hash)) by {
                    assert(before.contains(block) <==> old(blocks)@.contains(block) || (
                    block.resource == lineage.resource && done.contains(block.hash)));
                }
            }
            at = at + 1;
        }
        assert(lineage.hashes@.subrange(0, at as int) =~= lineage.hashes@);
    }

    /// Leads a block to one more bundle.
    fn link(&mut self, block: ResourceBlock, key: BundleKey)
        requires
            forall|b: ResourceBlock|
                old(self).by_block@.contains_key(b) ==> (#[trigger] old(self).by_block@[b])@
                    != Set::<BundleKey>::empty(),
        ensures
            final(self).by_bundle == old(self).by_bundle,
            forall|b: ResourceBlock, other: BundleKey|
                #![trigger final(self).leads(b, other)]
                final(self).leads(b, other) <==> old(self).leads(b, other) || (b == block && other
                    == key),
            forall|b: ResourceBlock|
                final(self).by_block@.contains_key(b) ==> (#[trigger] final(self).by_block@[b])@
                    != Set::<BundleKey>::empty(),
    {
        let mut keys: KeySet<BundleKey> = match self.by_block.remove(&block) {
            Some(keys) => keys,
            None => KeySet::new(),
        };
        keys.insert(key);
        assert(keys@.contains(key));
        self.by_block.insert(block, keys);
    }

    /// Keeps a block from leading to a bundle.
    fn unlink(&mut self, block: ResourceBlock, key: BundleKey)
        requires
            forall|b: ResourceBlock|
                old(self).by_block@.contains_key(b) ==> (#[trigger] old(self).by_block@[b])@
                    != Set::<BundleKey>::empty(),
        ensures
            final(self).by_bundle == old(self).by_bundle,
            forall|b: ResourceBlock, other: BundleKey|
                #![trigger final(self).leads(b, other)]
                final(self).leads(b, other) <==> old(self).leads(b, other) && !(b == block && other
                    == key),
            forall|b: ResourceBlock|
                final(self).by_block@.contains_key(b) ==> (#[trigger] final(self).by_block@[b])@
                    != Set::<BundleKey>::empty(),
    {
        if let Some(mut keys) = self.by_block.remove(&block) {
            let ghost held = keys@;
            keys.remove(&key);
            let ghost left = keys@;
            if !keys.is_empty() {
                self.by_block.insert(block, keys);
            }
            proof {
                assert forall|other: BundleKey| held.contains(other) && other != key implies left
                    != Set::<BundleKey>::empty() by {
                    assert(left.contains(other));
                }
                assert forall|b: ResourceBlock, other: BundleKey|
                    #![trigger self.leads(b, other)]
                    self.leads(b, other) <==> old(self).leads(b, other) && !(b == block && other
                        == key) by {
                    if b == block {
                        assert(left.contains(other) <==> held.contains(other) && other != key);
                    }
                }
            }
        }
    }

    /// Forgets a bundle and all of its dependencies.
    pub fn untrack(&mut self, key: BundleKey)
        requires
            old(self).wf(),
        ensures
            final(self).wf(),
            final(self)@ == old(self)@.remove(key),
    {
        let ghost before = *self;
        let blocks = match self.by_bundle.remove(&key) {
            Some(blocks) => blocks,
            None => {
                assert(self@ =~= before@.remove(key));
                assert forall|b: ResourceBlock, other: BundleKey|
                    #![trigger self.leads(b, other)]
                    self.leads(b, other) <==> self@.contains_key(other) && self@[other].contains(
                        b,
                    ) by {
                    assert(self.leads(b, other) == before.leads(b, other));
                }
                return ;
            },
        };
        let listed = blocks.keys();
        let mut at: usize = 0;
        while at < listed.len()
            invariant
                at <= listed@.len(),
                self.by_bundle@ == before.by_bundle@.remove(key),
                forall|b: ResourceBlock, other: BundleKey|
                    #![trigger self.leads(b, other)]
                    self.leads(b, other) <==> before.leads(b, other) && !(other == key
                        && listed@.subrange(0, at as int).contains(b)),
                forall|b: ResourceBlock|
                    self.by_block@.contains_key(b) ==> (#[trigger] self.by_block@[b])@ != Set::<
                        BundleKey,
                    >::empty(),
            decreases listed@.len() - at,
        {
            let ghost was = *self;
            let block = listed[at];
            self.unlink(block, key);
            proof {
                let done = listed@.subrange(0, at as int);
                let more = listed@.subrange(0, at + 1);
                assert(more =~= done.push(block));
                assert forall|b: ResourceBlock, other: BundleKey|
                    #![trigger self.leads(b, other)]
                    self.leads(b, other) <==> before.leads(b, other) && !(other == key
                        && more.contains(b)) by {
                    assert(self.leads(b, other) <==> was.leads(b, other) && !(b == block && other
                        == key));
                    if more.contains(b) && b != block {
                        let i = choose|i: int| 0 <= i < more.len() && more[i] == b;
                        assert(done[i] == b);
                    }
                    if done.contains(b) {
                        let i = choose|i: int| 0 <= i < done.len() && done[i] == b;
                        assert(more[i] == b);
                    }
                    assert(more[at as int] == block);
                }
            }
            at = at + 1;
        }
        proof {
            assert(listed@.subrange(0, at as int) =~= listed@);
            assert(self@ =~= before@.remove(key));
            assert forall|b: ResourceBlock, other: BundleKey|
                #![trigger self.leads(b, other)]
                self.leads(b, other) <==> self@.contains_key(other) && self@[other].contains(b) by {
                assert(listed@.contains(b) <==> listed@.to_set().contains(b));
                assert(before.leads(b, other) <==> before@.contains_key(other)
                    && before@[other].contains(b));
            }
        }
    }

    /// Forgets every bundle that depends on an evicted block, and lists them in key order.
    pub fn invalidate(&mut self, resource: LogicalResourceId, hash: SequenceHash) -> (r: Vec<
        InvalidationEvent,
    >)
        requires
            old(self).wf(),
        ensures
            final(self).wf(),
            final(self)@ == without_dependents(old(self)@, ResourceBlock { resource, hash }),
            ascending(event_keys(r@)),
            event_keys(r@).to_set() == dependents_of(old(self)@, ResourceBlock { resource, hash }),
            forall|i: int|
                0 <= i < r@.len() ==> (#[trigger] r@[i]).resource == resource && r@[i].hash == hash,
    {
        let ghost block = ResourceBlock { resource, hash };
        let ghost before = *self;
        let keys = self.dependents(resource, hash);
        let mut events: Vec<InvalidationEvent> = Vec::new();
        let mut at: usize = 0;
        proof {
            assert(self@ =~= before@.remove_keys(keys@.subrange(0, 0).to_set()));
        }
        while at < keys.len()
            invariant
                at <= keys@.len(),
                self.wf(),
                self@ == before@.remove_keys(keys@.subrange(0, at as int).to_set()),
                event_keys(events@) == keys@.subrange(0, at as int),
                forall|i: int|
                    0 <= i < events@.len() ==> (#[trigger] events@[i]).resource == resource
                        && events@[i].hash == hash,
            decreases keys@.len() - at,
        {
            let key = keys[at];
            self.untrack(key);
            events.push(InvalidationEvent { key, resource, hash });
            proof {
                let done = keys@.subrange(0, at as int);
                let more = keys@.subrange(0, at + 1);
                assert(more =~= done.push(key));
                assert(event_keys(events@) =~= more);
                assert forall|k: BundleKey| more.to_set().contains(k) <==> done.to_set().contains(k)
                    || k == key by {
                    if done.contains(k) {
                        let i = choose|i: int| 0 <= i < done.len() && done[i] == k;
                        assert(more[i] == k);
                    }
                    if more.contains(k) {
                        let i = choose|i: int| 0 <= i < more.len() && more[i] == k;
                        if i < at {
                            assert(done[i] == k);
                        }
                    }
                    assert(more[at as int] == key);
                }
                assert(self@ =~= before@.remove_keys(more.to_set()));
            }
            at = at + 1;
        }
        assert(keys@.subrange(0, at as int) =~= keys@);
        events
    }

    /// The bundles that depend on a block, in key order.
    pub fn dependents(&self, resource: LogicalResourceId, hash: SequenceHash) -> (r: Vec<BundleKey>)
        requires
            self.wf(),
        ensures
            ascending(r@),
            r@.to_set() == dependents_of(self@, ResourceBlock { resource, hash }),
    {
        let block = ResourceBlock { resource, hash };
        match self.by_block.get(&block) {
            Some(keys) => {
                proof {
                    assert forall|key: BundleKey|
                        keys@.contains(key) <==> dependents_of(self@, block).contains(key) by {
                        assert(self.leads(block, key) <==> self@.contains_key(key)
                            && self@[key].contains(block));
                    }
                    assert(keys@ =~= dependents_of(self@, block));
                }
                keys.keys()
            },
            None => {
                let none: Vec<BundleKey> = Vec::new();
                proof {
                    assert forall|key: BundleKey| !dependents_of(self@, block).contains(key) by {
                        assert(!self.leads(block, key));
                    }
                    assert(none@.to_set() =~= dependents_of(self@, block));
                }
                none
            },
        }
    }
}

/// The bundles of a list of invalidations.
pub open spec fn event_keys(events: Seq<InvalidationEvent>) -> Seq<BundleKey> {
    Seq::new(events.len(), |i: int| events[i].key)
}

/// Evicting a block leaves no bundle that depends on it, and leaves every other bundle as it was.
pub proof fn eviction_removes_exactly_the_dependents(
    known: Dependencies,
    block: ResourceBlock,
    key: BundleKey,
)
    ensures
        dependents_of(without_dependents(known, block), block) == Set::<BundleKey>::empty(),
        known.contains_key(key) && !known[key].contains(block) ==> without_dependents(
            known,
            block,
        ).contains_key(key) && without_dependents(known, block)[key] == known[key],
        without_dependents(known, block).contains_key(key) ==> known.contains_key(key)
            && without_dependents(known, block)[key] == known[key],
{
    assert(dependents_of(without_dependents(known, block), block) =~= Set::<BundleKey>::empty());
}

/// A history block that is shared by a shallow and a deep bundle takes both with it, while the
/// capsule of one boundary takes only the bundles that hold that capsule.
pub proof fn eviction_reaches_every_bundle_built_on_the_block(
    known: Dependencies,
    block: ResourceBlock,
    shallow: BundleKey,
    deep: BundleKey,
)
    requires
        known.contains_key(shallow),
        known.contains_key(deep),
        known[shallow].contains(block),
    ensures
        !without_dependents(known, block).contains_key(shallow),
        without_dependents(known, block).contains_key(deep) <==> !known[deep].contains(block),
{
}

/// Lineages back a bundle exactly if there is at least one, each is of a resource of its own, and
/// each ends with the hash that names the bundle, a capsule with nothing before it.
pub proof fn backing_lineages_end_at_the_bundle(lineages: Seq<ResourceLineage>, key: BundleKey)
    ensures
        lineages_back(lineages, key) <==> {
            &&& lineages.len() > 0
            &&& forall|i: int|
                0 <= i < lineages.len() ==> {
                    let hashes = (#[trigger] lineages[i]).hashes@;
                    &&& hashes.len() > 0
                    &&& hashes[hashes.len() - 1] == key.boundary_hash
                    &&& lineages[i].role is BoundaryCapsule ==> hashes.len() == 1
                }
            &&& forall|i: int, j: int|
                0 <= i < j < lineages.len() ==> (#[trigger] lineages[i]).resource != (
                #[trigger] lineages[j]).resource
        },
{
    let fits = {
        &&& forall|i: int|
            0 <= i < lineages.len() ==> {
                let hashes = (#[trigger] lineages[i]).hashes@;
                &&& hashes.len() > 0
                &&& hashes[hashes.len() - 1] == key.boundary_hash
                &&& lineages[i].role is BoundaryCapsule ==> hashes.len() == 1
            }
        &&& forall|i: int, j: int|
            0 <= i < j < lineages.len() ==> (#[trigger] lineages[i]).resource != (
            #[trigger] lineages[j]).resource
    };
    if lineages_back(lineages, key) {
        assert forall|i: int| 0 <= i < lineages.len() implies ({
            let hashes = (#[trigger] lineages[i]).hashes@;
            &&& hashes.len() > 0
            &&& hashes[hashes.len() - 1] == key.boundary_hash
            &&& lineages[i].role is BoundaryCapsule ==> hashes.len() == 1
        }) by {
            assert(lineage_defect(lineages, key, i) is None);
        }
        assert forall|i: int, j: int| 0 <= i < j < lineages.len() implies (
        #[trigger] lineages[i]).resource != (#[trigger] lineages[j]).resource by {
            assert(lineage_defect(lineages, key, j) is None);
        }
    }
    if fits {
        assert forall|i: int| 0 <= i < lineages.len() implies #[trigger] lineage_defect(
            lineages,
            key,
            i,
        ) is None by {
            assert(lineages[i].hashes@.len() > 0);
        }
    }
}

/// Lineages are refused for what is wrong with them, and only where something is.
pub proof fn lineages_are_refused_for_what_is_wrong(
    lineages: Seq<ResourceLineage>,
    key: BundleKey,
    e: DependencyError,
)
    requires
        lineages_refused(lineages, key, e),
    ensures
        !lineages_back(lineages, key),
        match e {
            DependencyError::NoResources => lineages.len() == 0,
            DependencyError::DuplicateResource { resource } => exists|i: int, j: int|
                0 <= i < j < lineages.len() && (#[trigger] lineages[i]).resource == resource && (
                #[trigger] lineages[j]).resource == resource,
            DependencyError::EmptyLineage { resource } => exists|i: int|
                0 <= i < lineages.len() && (#[trigger] lineages[i]).resource == resource
                    && lineages[i].hashes@.len() == 0,
            DependencyError::BoundaryMismatch { resource } => exists|i: int|
                0 <= i < lineages.len() && (#[trigger] lineages[i]).resource == resource
                    && lineages[i].hashes@.last() != key.boundary_hash,
            DependencyError::CapsuleNotAtomic { resource } => exists|i: int|
                0 <= i < lineages.len() && (#[trigger] lineages[i]).resource == resource
                    && lineages[i].role is BoundaryCapsule && lineages[i].hashes@.len() > 1,
        },
{
    if lineages.len() > 0 {
        let at = choose|at: int|
            {
                &&& 0 <= at < lineages.len()
                &&& #[trigger] lineage_defect(lineages, key, at) == Some(e)
                &&& forall|i: int|
                    0 <= i < at ==> #[trigger] lineage_defect(lineages, key, i) is None
            };
        assert(lineages[at].resource == lineages[at].resource);
    }
}

/// A bundle depends on a block exactly while it is known and the block is one of its own.
pub proof fn dependents_are_the_bundles_of_the_block(
    known: Dependencies,
    block: ResourceBlock,
    key: BundleKey,
)
    ensures
        dependents_of(known, block).contains(key) <==> known.contains_key(key)
            && known[key].contains(block),
        without_dependents(known, block).contains_key(key) <==> known.contains_key(key)
            && !known[key].contains(block),
{
}

} // verus!
