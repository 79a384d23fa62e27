//! The registry of complete committed bundles.

use crate::ids::{BlockId, BundleKey, CacheManifestId, LogicalResourceId, SequenceHash};
use crate::manifest::{CacheIdentity, IdentityView};
use crate::ordered::{ascending, first_repeat, firsts, pairs_map, KeyMap, MapKey};
use vstd::prelude::*;

verus! {

/// A strong pin on one resource of a bundle, from which a non-owning reference can be made.
pub trait BundleResourcePin: Sized {
    type Reference: BundleResourceReference<Pin = Self>;

    fn make_reference(&self) -> (r: Self::Reference);
}

/// A non-owning reference to one resource of a bundle, from which a pin may be had again.
pub trait BundleResourceReference {
    type Pin;

    fn reacquire(&self) -> (r: Option<Self::Pin>);
}

impl BundleResourcePin for u8 {
    type Reference = u8;

    fn make_reference(&self) -> (r: u8)
        ensures
            r == *self,
    {
        *self
    }
}

impl BundleResourceReference for u8 {
    type Pin = u8;

    fn reacquire(&self) -> (r: Option<u8>)
        ensures
            r == Some(*self),
    {
        Some(*self)
    }
}

/// A pin on one block, from which a non-owning reference can be made.
pub trait BlockPin: Sized {
    type Weak: WeakBlockPin<Pin = Self>;

    fn downgrade(&self) -> (r: Self::Weak);

    /// Another pin on the same block.
    fn share(&self) -> (r: Self);
}

/// A non-owning reference to one block, from which a pin may be had again.
pub trait WeakBlockPin: Sized {
    type Pin;

    fn upgrade(&self) -> (r: Option<Self::Pin>);
}

impl<B: BlockPin> BundleResourcePin for Vec<B> {
    type Reference = Vec<B::Weak>;

    fn make_reference(&self) -> (r: Vec<B::Weak>)
        ensures
            r@.len() == self@.len(),
            forall|i: int|
                0 <= i < r@.len() ==> call_ensures(
                    B::downgrade,
                    (&self@[i],),
                    #[trigger] r@[i],
                ),
    {
        let mut weak: Vec<B::Weak> = Vec::new();
        let mut at: usize = 0;
        while at < self.len()
            invariant
                at <= self@.len(),
                weak@.len() == at,
                forall|i: int|
                    0 <= i < at ==> call_ensures(B::downgrade, (&self@[i],), #[trigger] weak@[i]),
            decreases self@.len() - at,
        {
            let reference = self[at].downgrade();
            weak.push(reference);
            at = at + 1;
        }
        weak
    }
}

impl<W: WeakBlockPin> BundleResourceReference for Vec<W> {
    type Pin = Vec<W::Pin>;

    fn reacquire(&self) -> (r: Option<Vec<W::Pin>>)
        ensures
            match r {
                Some(pins) => {
                    &&& pins@.len() == self@.len()
                    &&& forall|i: int|
                        0 <= i < pins@.len() ==> call_ensures(
                            W::upgrade,
                            (&self@[i],),
                            Some(#[trigger] pins@[i]),
                        )
                },
                None => exists|i: int|
                    0 <= i < self@.len() && call_ensures(
                        W::upgrade,
                        (&#[trigger] self@[i],),
                        None::<W::Pin>,
                    ),
            },
    {
        let mut pins: Vec<W::Pin> = Vec::new();
        let mut at: usize = 0;
        while at < self.len()
            invariant
                at <= self@.len(),
                pins@.len() == at,
                forall|i: int|
                    0 <= i < at ==> call_ensures(
                        W::upgrade,
                        (&self@[i],),
                        Some(#[trigger] pins@[i]),
                    ),
            decreases self@.len() - at,
        {
            match self[at].upgrade() {
                Some(pin) => {
                    pins.push(pin);
                },
                None => {
                    assert(call_ensures(W::upgrade, (&self@[at as int],), None::<W::Pin>));
                    return None;
                },
            }
            at = at + 1;
        }
        Some(pins)
    }
}

/// A block that something else keeps in place.
impl BlockPin for () {
    type Weak = ();

    fn downgrade(&self) -> (r: ()) {
    }

    fn share(&self) -> (r: ()) {
    }
}

impl WeakBlockPin for () {
    type Pin = ();

    fn upgrade(&self) -> (r: Option<()>)
        ensures
            r == Some(()),
    {
        Some(())
    }
}

/// A pinned block by its place and its hash, with what keeps it in place.
#[derive(Clone, Copy, Debug, PartialEq, Eq)]
pub struct PinnedBlock<H> {
    pub block_id: BlockId,
    pub sequence_hash: SequenceHash,
    pub handle: H,
}

/// A non-owning reference to a [`PinnedBlock`].
#[derive(Clone, Copy, Debug, PartialEq, Eq)]
pub struct WeakPinnedBlock<W> {
    pub block_id: BlockId,
    pub sequence_hash: SequenceHash,
    pub handle: W,
}

impl<H> PinnedBlock<H> {
    /// Whether another pin is one on the same block, had by sharing this one.
    pub open spec fn shared_as(self, other: PinnedBlock<H>) -> bool where H: BlockPin {
        &&& other.block_id == self.block_id
        &&& other.sequence_hash == self.sequence_hash
        &&& call_ensures(H::share, (&self.handle,), other.handle)
    }
}

impl<H: BlockPin> BlockPin for PinnedBlock<H> {
    type Weak = WeakPinnedBlock<H::Weak>;

    fn downgrade(&self) -> (r: WeakPinnedBlock<H::Weak>)
        ensures
            r.block_id == self.block_id,
            r.sequence_hash == self.sequence_hash,
            call_ensures(H::downgrade, (&self.handle,), r.handle),
    {
        WeakPinnedBlock {
            block_id: self.block_id,
            sequence_hash: self.sequence_hash,
            handle: self.handle.downgrade(),
        }
    }

    fn share(&self) -> (r: PinnedBlock<H>)
        ensures
            self.shared_as(r),
    {
        PinnedBlock {
            block_id: self.block_id,
            sequence_hash: self.sequence_hash,
            handle: self.handle.share(),
        }
    }
}

impl<W: WeakBlockPin> WeakBlockPin for WeakPinnedBlock<W> {
    type Pin = PinnedBlock<W::Pin>;

    fn upgrade(&self) -> (r: Option<PinnedBlock<W::Pin>>)
        ensures
            match r {
                Some(pin) => {
                    &&& pin.block_id == self.block_id
                    &&& pin.sequence_hash == self.sequence_hash
                    &&& call_ensures(W::upgrade, (&self.handle,), Some(pin.handle))
                },
                None => call_ensures(W::upgrade, (&self.handle,), None::<W::Pin>),
            },
    {
        match self.handle.upgrade() {
            Some(handle) => Some(
                PinnedBlock {
                    block_id: self.block_id,
                    sequence_hash: self.sequence_hash,
                    handle,
                },
            ),
            None => None,
        }
    }
}

/// Whether making a reference to the pin can give this one.
pub open spec fn references<P: BundleResourcePin>(pin: P, reference: P::Reference) -> bool {
    call_ensures(P::make_reference, (&pin,), reference)
}

/// Whether reacquiring from the reference can give this.
pub open spec fn reacquires<R: BundleResourceReference>(reference: R, pin: Option<R::Pin>) -> bool {
    call_ensures(R::reacquire, (&reference,), pin)
}

/// One committed bundle.
#[derive(Debug)]
struct CommittedBundle<R> {
    generation: u64,
    resources: KeyMap<LogicalResourceId, R>,
}

/// The mathematical content of one committed bundle.
pub struct CommittedView<R> {
    pub generation: u64,
    pub resources: Map<LogicalResourceId, R>,
}

/// Whether reacquiring every resource can give these pins.
pub open spec fn yields_pins<R: BundleResourceReference>(
    resources: Map<LogicalResourceId, R>,
    pins: Map<LogicalResourceId, R::Pin>,
) -> bool {
    &&& pins.dom() == resources.dom()
    &&& forall|resource: LogicalResourceId| #[trigger]
        pins.contains_key(resource) ==> reacquires(resources[resource], Some(pins[resource]))
}

/// Whether some resource can turn out to be gone.
pub open spec fn one_can_be_gone<R: BundleResourceReference>(
    resources: Map<LogicalResourceId, R>,
) -> bool {
    exists|resource: LogicalResourceId| #[trigger]
        resources.contains_key(resource) && reacquires(resources[resource], None)
}

/// Every resource of a bundle, pinned together.
#[derive(Debug)]
pub struct BundleLease<P> {
    key: BundleKey,
    generation: u64,
    resources: KeyMap<LogicalResourceId, P>,
}

/// The mathematical content of a [`BundleLease`].
pub struct LeaseView<P> {
    pub key: BundleKey,
    pub generation: u64,
    pub resources: Map<LogicalResourceId, P>,
}

impl<P> View for BundleLease<P> {
    type V = LeaseView<P>;

    closed spec fn view(&self) -> LeaseView<P> {
        LeaseView { key: self.key, generation: self.generation, resources: self.resources@ }
    }
}

impl<P> BundleLease<P> {
    pub fn key(&self) -> (r: &BundleKey)
        ensures
            *r == self@.key,
    {
        &self.key
    }

    pub fn generation(&self) -> (r: u64)
        ensures
            r == self@.generation,
    {
        self.generation
    }

    pub fn resources(&self) -> (r: &KeyMap<LogicalResourceId, P>)
        ensures
            r@ == self@.resources,
    {
        &self.resources
    }

    pub fn into_resources(self) -> (r: KeyMap<LogicalResourceId, P>)
        ensures
            r@ == self@.resources,
    {
        self.resources
    }
}

/// Why the index refuses a commit.
#[derive(Debug, PartialEq, Eq)]
pub enum BundleIndexError {
    ManifestMismatch { expected: CacheManifestId, actual: CacheManifestId },
    UnexpectedResource { resource: LogicalResourceId },
    DuplicateResource { resource: LogicalResourceId },
    MissingResources { resources: Vec<LogicalResourceId> },
    StaleGeneration { current: u64, attempted: u64 },
}

/// What a valid commit does.
#[derive(Clone, Copy, Debug, PartialEq, Eq, Structural)]
pub enum CommitDisposition {
    Install,
    /// The same generation is committed already.
    Idempotent,
}

/// The committed bundles.
pub type Committed<R> = Map<BundleKey, CommittedView<R>>;

/// `resource` is the smallest one of the set that the identity does not have.
pub open spec fn smallest_unexpected(
    identity: IdentityView,
    resources: Set<LogicalResourceId>,
    resource: LogicalResourceId,
) -> bool {
    &&& resources.contains(resource)
    &&& !identity.id_set().contains(resource)
    &&& forall|other: LogicalResourceId|
        resources.contains(other) && !#[trigger] identity.id_set().contains(other) ==> resource
            == other || resource.before(other)
}

/// Whether a commit is refused, and for what.
pub open spec fn commit_refused<R>(
    committed: Committed<R>,
    identity: IdentityView,
    key: BundleKey,
    generation: u64,
    resources: Set<LogicalResourceId>,
    e: BundleIndexError,
) -> bool {
    match e {
        BundleIndexError::ManifestMismatch { expected, actual } => {
            &&& !key.compatible(identity)
            &&& expected == identity.manifest
            &&& actual == key.manifest
        },
        BundleIndexError::UnexpectedResource { resource } => {
            &&& key.compatible(identity)
            &&& smallest_unexpected(identity, resources, resource)
        },
        BundleIndexError::MissingResources { resources: missing } => {
            &&& key.compatible(identity)
            &&& resources.subset_of(identity.id_set())
            &&& missing@.len() > 0
            &&& ascending(missing@)
            &&& missing@.to_set() == identity.id_set().difference(resources)
        },
        BundleIndexError::StaleGeneration { current, attempted } => {
            &&& key.compatible(identity)
            &&& resources == identity.id_set()
            &&& committed.contains_key(key)
            &&& current == committed[key].generation
            &&& attempted == generation
            &&& current > attempted
        },
        BundleIndexError::DuplicateResource { resource } => false,
    }
}

/// Whether a commit is accepted, and what it does.
pub open spec fn commit_accepted<R>(
    committed: Committed<R>,
    identity: IdentityView,
    key: BundleKey,
    generation: u64,
    resources: Set<LogicalResourceId>,
    disposition: CommitDisposition,
) -> bool {
    &&& key.compatible(identity)
    &&& resources == identity.id_set()
    &&& committed.contains_key(key) ==> committed[key].generation <= generation
    &&& disposition == (if committed.contains_key(key) && committed[key].generation == generation {
        CommitDisposition::Idempotent
    } else {
        CommitDisposition::Install
    })
}

/// The committed bundles after an accepted commit of pins.
pub open spec fn after_commit<P: BundleResourcePin>(
    before: Committed<P::Reference>,
    after: Committed<P::Reference>,
    key: BundleKey,
    generation: u64,
    pins: Map<LogicalResourceId, P>,
    disposition: CommitDisposition,
) -> bool {
    match disposition {
        CommitDisposition::Idempotent => after == before,
        CommitDisposition::Install => {
            &&& after.dom() == before.dom().insert(key)
            &&& after.remove(key) == before.remove(key)
            &&& after[key].generation == generation
            &&& after[key].resources.dom() == pins.dom()
            &&& forall|resource: LogicalResourceId| #[trigger]
                pins.contains_key(resource) ==> references(
                    pins[resource],
                    after[key].resources[resource],
                )
        },
    }
}

/// The key that a candidate boundary stands for.
pub open spec fn candidate_key(identity: IdentityView, candidate: (SequenceHash, u64)) -> BundleKey {
    BundleKey {
        manifest: identity.manifest,
        boundary_hash: candidate.0,
        boundary_tokens: candidate.1,
    }
}

/// Whether a candidate boundary names a committed bundle.
pub open spec fn candidate_committed<R>(
    committed: Committed<R>,
    identity: IdentityView,
    candidate: (SequenceHash, u64),
) -> bool {
    identity.aligned(candidate.1) && committed.contains_key(candidate_key(identity, candidate))
}

/// Whether the candidate at `at` is passed over only because one of its resources was gone.
pub open spec fn candidate_gone<R: BundleResourceReference>(
    committed: Committed<R>,
    identity: IdentityView,
    candidates: Seq<(SequenceHash, u64)>,
    at: int,
) -> bool {
    candidate_committed(committed, identity, candidates[at]) ==> one_can_be_gone(
        committed[candidate_key(identity, candidates[at])].resources,
    )
}

/// Whether a lease is one of the bundle at a candidate boundary.
pub open spec fn lease_of<P: BundleResourcePin>(
    committed: Committed<P::Reference>,
    key: BundleKey,
    lease: LeaseView<P>,
) -> bool {
    &&& committed.contains_key(key)
    &&& lease.key == key
    &&& lease.generation == committed[key].generation
    &&& yields_pins(committed[key].resources, lease.resources)
}

/// Whether a lookup among candidate boundaries can give this: the greatest committed boundary
/// whose resources are all there, the last of equal ones.
pub open spec fn longest_lease<P: BundleResourcePin>(
    committed: Committed<P::Reference>,
    identity: IdentityView,
    candidates: Seq<(SequenceHash, u64)>,
    lease: Option<LeaseView<P>>,
) -> bool {
    match lease {
        Some(lease) => exists|at: int|
            {
                &&& 0 <= at < candidates.len()
                &&& identity.aligned(candidates[at].1)
                &&& lease_of(committed, candidate_key(identity, candidates[at]), lease)
                &&& forall|i: int|
                    0 <= i < candidates.len() && (candidates[i].1 > candidates[at].1
                        || candidates[i].1 == candidates[at].1 && i > at)
                        ==> #[trigger] candidate_gone(committed, identity, candidates, i)
            },
        None => forall|i: int|
            0 <= i < candidates.len() ==> #[trigger] candidate_gone(
                committed,
                identity,
                candidates,
                i,
            ),
    }
}

/// The content of an optional lease.
pub open spec fn lease_view<P>(lease: Option<BundleLease<P>>) -> Option<LeaseView<P>> {
    match lease {
        Some(lease) => Some(lease@),
        None => None,
    }
}

/// Committed bundles by key. The index holds references that keep nothing alive; a lookup pins
/// every resource again or gives nothing.
pub struct BundleIndex<P: BundleResourcePin> {
    committed: KeyMap<BundleKey, CommittedBundle<P::Reference>>,
}

impl<P: BundleResourcePin> View for BundleIndex<P> {
    type V = Committed<P::Reference>;

    closed spec fn view(&self) -> Committed<P::Reference> {
        self.committed@.map_values(
            |bundle: CommittedBundle<P::Reference>|
                CommittedView { generation: bundle.generation, resources: bundle.resources@ },
        )
    }
}

impl<P: BundleResourcePin> BundleIndex<P> {
    pub fn new() -> (r: Self)
        ensures
            r@ == Committed::<P::Reference>::empty(),
    {
        let r = BundleIndex { committed: KeyMap::new() };
        assert(r@ =~= Committed::<P::Reference>::empty());
        r
    }

    /// Commits a bundle with a pin for each of its resources.
    pub fn commit(
        &mut self,
        identity: &CacheIdentity,
        key: BundleKey,
        generation: u64,
        resources: Vec<(LogicalResourceId, P)>,
    ) -> (r: Result<(), BundleIndexError>)
        ensures
            match r {
                Ok(()) => {
                    let pins = pairs_map(resources@);
                    &&& crate::ordered::distinct_up_to(
                        firsts(resources@),
                        resources@.len() as int,
                    )
                    &&& exists|disposition: CommitDisposition| #[trigger]
                        commit_accepted(
                            old(self)@,
                            identity@,
                            key,
                            generation,
                            pins.dom(),
                            disposition,
                        ) && after_commit(
                            old(self)@,
                            final(self)@,
                            key,
                            generation,
                            pins,
                            disposition,
                        )
                },
                Err(e) => {
                    &&& final(self)@ == old(self)@
                    &&& match e {
                        BundleIndexError::DuplicateResource { resource } => exists|at: int|
                            #[trigger]
                            first_repeat(firsts(resources@), at) && resources@[at].0 == resource,
                        _ => {
                            &&& crate::ordered::distinct_up_to(
                                firsts(resources@),
                                resources@.len() as int,
                            )
                            &&& commit_refused(
                                old(self)@,
                                identity@,
                                key,
                                generation,
                                pairs_map(resources@).dom(),
                                e,
                            )
                        },
                    }
                },
            },
    {
        let owned = match KeyMap::from_entries(resources) {
            Ok(owned) => owned,
            Err(resource) => {
                return Err(BundleIndexError::DuplicateResource { resource });
            },
        };
        match self.validate_commit(identity, key, generation, &owned) {
            Ok(disposition) => {
                if disposition == CommitDisposition::Install {
                    self.install(key, generation, &owned);
                }
                Ok(())
            },
            Err(e) => Err(e),
        }
    }

    /// Decides what committing pins for these resources would do.
    pub fn validate_commit<V>(
        &self,
        identity: &CacheIdentity,
        key: BundleKey,
        generation: u64,
        resources: &KeyMap<LogicalResourceId, V>,
    ) -> (r: Result<CommitDisposition, BundleIndexError>)
        ensures
            match r {
                Ok(disposition) => commit_accepted(
                    self@,
                    identity@,
                    key,
                    generation,
                    resources@.dom(),
                    disposition,
                ),
                Err(e) => commit_refused(
                    self@,
                    identity@,
                    key,
                    generation,
                    resources@.dom(),
                    e,
                ),
            },
    {
        if !key.is_compatible_with(identity) {
            return Err(
                BundleIndexError::ManifestMismatch {
                    expected: identity.manifest(),
                    actual: key.manifest,
                },
            );
        }
        let actual = resources.keys();
        let mut at: usize = 0;
        while at < actual.len()
            invariant
                key.compatible(identity@),
                at <= actual@.len(),
                ascending(actual@),
                actual@.to_set() == resources@.dom(),
                forall|i: int|
                    0 <= i < at ==> identity@.id_set().contains(#[trigger] actual@[i]),
            decreases actual@.len() - at,
        {
            let resource = actual[at];
            if identity.requirement(resource).is_none() {
                proof {
                    assert(actual@.contains(resource));
                    assert(actual@.to_set().contains(resource));
                    assert forall|other: LogicalResourceId|
                        resources@.dom().contains(other) && !#[trigger] identity@.id_set().contains(
                            other,
                        ) implies resource == other || resource.before(other) by {
                        assert(actual@.to_set().contains(other));
                        let i = choose|i: int| 0 <= i < actual@.len() && actual@[i] == other;
                        if i < at {
                            assert(identity@.id_set().contains(actual@[i]));
                        }
                    }
                }
                return Err(BundleIndexError::UnexpectedResource { resource });
            }
            at = at + 1;
        }
        proof {
            assert forall|resource: LogicalResourceId|
                resources@.dom().contains(resource) implies identity@.id_set().contains(
                    resource,
                ) by {
                assert(actual@.to_set().contains(resource));
                let i = choose|i: int| 0 <= i < actual@.len() && actual@[i] == resource;
                assert(identity@.id_set().contains(actual@[i]));
            }
        }
        let expected = identity.resource_ids();
        let missing = resources.missing_of(expected.as_slice());
        if missing.len() > 0 {
            return Err(BundleIndexError::MissingResources { resources: missing });
        }
        proof {
            assert forall|resource: LogicalResourceId|
                identity@.id_set().contains(resource) implies resources@.dom().contains(
                    resource,
                ) by {
                if !resources@.dom().contains(resource) {
                    assert(missing@.to_set().contains(resource));
                }
            }
            assert(resources@.dom() =~= identity@.id_set());
        }
        if let Some(current) = self.committed.get(&key) {
            if current.generation > generation {
                return Err(
                    BundleIndexError::StaleGeneration {
                        current: current.generation,
                        attempted: generation,
                    },
                );
            }
            if current.generation == generation {
                return Ok(CommitDisposition::Idempotent);
            }
        }
        Ok(CommitDisposition::Install)
    }

    /// Puts a bundle in place of what its key named before.
    pub fn install(
        &mut self,
        key: BundleKey,
        generation: u64,
        resources: &KeyMap<LogicalResourceId, P>,
    )
        ensures
            after_commit(
                old(self)@,
                final(self)@,
                key,
                generation,
                resources@,
                CommitDisposition::Install,
            ),
    {
        let ghost before = self@;
        let bundle = Self::prepare_validated(generation, resources);
        self.committed.insert(key, bundle);
        proof {
            assert(self@.dom() =~= before.dom().insert(key));
            assert(self@.remove(key) =~= before.remove(key));
        }
    }

    /// References to every pin, under a generation.
    fn prepare_validated(
        generation: u64,
        resources: &KeyMap<LogicalResourceId, P>,
    ) -> (r: CommittedBundle<P::Reference>)
        ensures
            r.generation == generation,
            r.resources@.dom() == resources@.dom(),
            forall|resource: LogicalResourceId| #[trigger]
                resources@.contains_key(resource) ==> references(
                    resources@[resource],
                    r.resources@[resource],
                ),
    {
        let ids = resources.keys();
        let mut made: KeyMap<LogicalResourceId, P::Reference> = KeyMap::new();
        let mut at: usize = 0;
        while at < ids.len()
            invariant
                at <= ids@.len(),
                ids@.to_set() == resources@.dom(),
                forall|resource: LogicalResourceId| #[trigger]
                    made@.contains_key(resource) <==> ids@.subrange(0, at as int).contains(
                        resource,
                    ),
                forall|resource: LogicalResourceId| #[trigger]
                    made@.contains_key(resource) ==> references(
                        resources@[resource],
                        made@[resource],
                    ),
            decreases ids@.len() - at,
        {
            let resource = ids[at];
            let ghost before = made@;
            assert(ids@.to_set().contains(resource));
            if let Some(pin) = resources.get(&resource) {
                let reference = pin.make_reference();
                made.insert(resource, reference);
            }
            proof {
                let done = ids@.subrange(0, at as int);
                let more = ids@.subrange(0, at + 1);
                assert(more =~= done.push(resource));
                assert forall|id: LogicalResourceId| #[trigger]
                    made@.contains_key(id) <==> more.contains(id) by {
                    assert(made@.contains_key(id) <==> before.contains_key(id) || id == resource);
                    if done.contains(id) {
                        let i = choose|i: int| 0 <= i < done.len() && done[i] == id;
                        assert(more[i] == id);
                    }
                    if more.contains(id) {
                        let i = choose|i: int| 0 <= i < more.len() && more[i] == id;
                        if i < at {
                            assert(done[i] == id);
                        }
                    }
                    assert(more[at as int] == resource);
                }
            }
            at = at + 1;
        }
        proof {
            assert(ids@.subrange(0, at as int) =~= ids@);
            assert forall|id: LogicalResourceId|
                made@.dom().contains(id) <==> resources@.dom().contains(id) by {
                assert(made@.contains_key(id) <==> ids@.contains(id));
                assert(ids@.contains(id) <==> ids@.to_set().contains(id));
            }
            assert(made@.dom() =~= resources@.dom());
        }
        CommittedBundle { generation, resources: made }
    }

    /// The committed generation of a bundle.
    pub fn generation(&self, key: &BundleKey) -> (r: Option<u64>)
        ensures
            r == if self@.contains_key(*key) {
                Some(self@[*key].generation)
            } else {
                None
            },
    {
        match self.committed.get(key) {
            Some(bundle) => Some(bundle.generation),
            None => None,
        }
    }

    /// Removes a bundle; whether it was committed.
    pub fn invalidate(&mut self, key: BundleKey) -> (r: bool)
        ensures
            final(self)@ == old(self)@.remove(key),
            r == old(self)@.contains_key(key),
    {
        self.remove(key).is_some()
    }

    /// Removes a bundle and tells the generation it had.
    pub fn remove(&mut self, key: BundleKey) -> (r: Option<u64>)
        ensures
            final(self)@ == old(self)@.remove(key),
            r == if old(self)@.contains_key(key) {
                Some(old(self)@[key].generation)
            } else {
                None
            },
    {
        let removed = self.committed.remove(&key);
        assert(self@ =~= old(self)@.remove(key));
        match removed {
            Some(bundle) => Some(bundle.generation),
            None => None,
        }
    }

    /// Pins every resource of one bundle, or none.
    pub fn lease_exact(&self, identity: &CacheIdentity, key: &BundleKey) -> (r: Option<
        BundleLease<P>,
    >)
        ensures
            match r {
                Some(lease) => key.compatible(identity@) && lease_of(self@, *key, lease@),
                None => key.compatible(identity@) && self@.contains_key(*key)
                    ==> one_can_be_gone(self@[*key].resources),
            },
    {
        if !key.is_compatible_with(identity) {
            return None;
        }
        self.lease(key)
    }

    fn lease(&self, key: &BundleKey) -> (r: Option<BundleLease<P>>)
        ensures
            match r {
                Some(lease) => lease_of(self@, *key, lease@),
                None => self@.contains_key(*key) ==> one_can_be_gone(self@[*key].resources),
            },
    {
        match self.committed.get(key) {
            Some(bundle) => match reacquire_resources(&bundle.resources) {
                Some(resources) => Some(
                    BundleLease { key: *key, generation: bundle.generation, resources },
                ),
                None => None,
            },
            None => None,
        }
    }

    /// Pins the bundle at the greatest candidate boundary that is complete.
    pub fn find_longest(
        &self,
        identity: &CacheIdentity,
        candidates: &[(SequenceHash, u64)],
    ) -> (r: Option<BundleLease<P>>)
        ensures
            longest_lease(self@, identity@, candidates@, lease_view(r)),
    {
        let mut best: Option<BundleLease<P>> = None;
        let ghost mut chosen: int = 0;
        let mut at: usize = 0;
        while at < candidates.len()
            invariant
                at <= candidates@.len(),
                match best {
                    Some(lease) => {
                        &&& 0 <= chosen < at
                        &&& identity@.aligned(candidates@[chosen].1)
                        &&& lease_of(self@, candidate_key(identity@, candidates@[chosen]), lease@)
                        &&& forall|i: int|
                            0 <= i < at && (candidates@[i].1 > candidates@[chosen].1
                                || candidates@[i].1 == candidates@[chosen].1 && i > chosen)
                                ==> #[trigger] candidate_gone(self@, identity@, candidates@, i)
                    },
                    None => forall|i: int|
                        0 <= i < at ==> #[trigger] candidate_gone(
                            self@,
                            identity@,
                            candidates@,
                            i,
                        ),
                },
            decreases candidates@.len() - at,
        {
            let (hash, tokens) = candidates[at];
            let offer = match BundleKey::new(identity, hash, tokens) {
                Ok(key) => self.lease(&key),
                Err(_) => None,
            };
            match offer {
                Some(lease) => {
                    let better = match &best {
                        Some(current) => tokens >= current.key.boundary_tokens,
                        None => true,
                    };
                    if better {
                        best = Some(lease);
                        proof {
                            chosen = at as int;
                        }
                    }
                },
                None => {
                    assert(candidate_gone(self@, identity@, candidates@, at as int));
                },
            }
            at = at + 1;
        }
        best
    }
}

/// Pins every resource again, or none.
pub fn reacquire_resources<R: BundleResourceReference>(
    resources: &KeyMap<LogicalResourceId, R>,
) -> (r: Option<KeyMap<LogicalResourceId, R::Pin>>)
    ensures
        match r {
            Some(pins) => yields_pins(resources@, pins@),
            None => one_can_be_gone(resources@),
        },
{
    let ids = resources.keys();
    let mut pins: KeyMap<LogicalResourceId, R::Pin> = KeyMap::new();
    let mut at: usize = 0;
    while at < ids.len()
        invariant
            at <= ids@.len(),
            ids@.to_set() == resources@.dom(),
            forall|resource: LogicalResourceId| #[trigger]
                pins@.contains_key(resource) <==> ids@.subrange(0, at as int).contains(resource),
            forall|resource: LogicalResourceId| #[trigger]
                pins@.contains_key(resource) ==> reacquires(
                    resources@[resource],
                    Some(pins@[resource]),
                ),
        decreases ids@.len() - at,
    {
        let resource = ids[at];
        let ghost before = pins@;
        assert(ids@.to_set().contains(resource));
        if let Some(reference) = resources.get(&resource) {
            match reference.reacquire() {
                Some(pin) => {
                    pins.insert(resource, pin);
                },
                None => {
                    assert(resources@.contains_key(resource) && reacquires(
                        resources@[resource],
                        None,
                    ));
                    return None;
                },
            }
        }
        proof {
            let done = ids@.subrange(0, at as int);
            let more = ids@.subrange(0, at + 1);
            assert(more =~= done.push(resource));
            assert forall|id: LogicalResourceId| #[trigger]
                pins@.contains_key(id) <==> more.contains(id) by {
                assert(pins@.contains_key(id) <==> before.contains_key(id) || id == resource);
                if done.contains(id) {
                    let i = choose|i: int| 0 <= i < done.len() && done[i] == id;
                    assert(more[i] == id);
                }
                if more.contains(id) {
                    let i = choose|i: int| 0 <= i < more.len() && more[i] == id;
                    if i < at {
                        assert(done[i] == id);
                    }
                }
                assert(more[at as int] == resource);
            }
        }
        at = at + 1;
    }
    proof {
        assert(ids@.subrange(0, at as int) =~= ids@);
        assert forall|id: LogicalResourceId|
            pins@.dom().contains(id) <==> resources@.dom().contains(id) by {
            assert(pins@.contains_key(id) <==> ids@.contains(id));
            assert(ids@.contains(id) <==> ids@.to_set().contains(id));
        }
        assert(pins@.dom() =~= resources@.dom());
    }
    Some(pins)
}

/// No commit lowers the generation of a bundle, whatever was committed in between.
pub proof fn committed_generations_never_decrease<P: BundleResourcePin>(
    before: Committed<P::Reference>,
    after: Committed<P::Reference>,
    identity: IdentityView,
    key: BundleKey,
    generation: u64,
    pins: Map<LogicalResourceId, P>,
    disposition: CommitDisposition,
    other: BundleKey,
)
    requires
        commit_accepted(before, identity, key, generation, pins.dom(), disposition),
        after_commit(before, after, key, generation, pins, disposition),
        before.contains_key(other),
    ensures
        after.contains_key(other),
        after[other].generation >= before[other].generation,
        other != key ==> after[other] == before[other],
{
    assert(before.remove(key).contains_key(other) <==> other != key);
    if other != key {
        assert(after.remove(key)[other] == before.remove(key)[other]);
    }
}

/// What a commit installs has a reference for exactly every resource of its identity.
pub proof fn only_complete_bundles_are_committed<P: BundleResourcePin>(
    before: Committed<P::Reference>,
    after: Committed<P::Reference>,
    identity: IdentityView,
    key: BundleKey,
    generation: u64,
    pins: Map<LogicalResourceId, P>,
)
    requires
        commit_accepted(
            before,
            identity,
            key,
            generation,
            pins.dom(),
            CommitDisposition::Install,
        ),
        after_commit(before, after, key, generation, pins, CommitDisposition::Install),
    ensures
        after[key].resources.dom() == identity.id_set(),
        after[key].generation == generation,
{
}

/// A lease is of one committed generation and has a pin, had back from the committed reference, for
/// every resource of the bundle and for no other.
pub proof fn leases_hold_every_committed_resource<P: BundleResourcePin>(
    committed: Committed<P::Reference>,
    key: BundleKey,
    lease: LeaseView<P>,
    resource: LogicalResourceId,
)
    requires
        lease_of(committed, key, lease),
    ensures
        lease.key == key,
        committed.contains_key(key),
        lease.generation == committed[key].generation,
        lease.resources.contains_key(resource) <==> committed[key].resources.contains_key(resource),
        lease.resources.contains_key(resource) ==> reacquires(
            committed[key].resources[resource],
            Some(lease.resources[resource]),
        ),
{
    assert(lease.resources.dom().contains(resource) <==> committed[key].resources.dom().contains(
        resource,
    ));
}

/// A commit is accepted or refused, never both, and refused only for another manifest, a resource
/// too many, a resource too few, or a generation that is older than the visible one.
pub proof fn commits_are_refused_for_cause<R>(
    committed: Committed<R>,
    identity: IdentityView,
    key: BundleKey,
    generation: u64,
    resources: Set<LogicalResourceId>,
    e: BundleIndexError,
    disposition: CommitDisposition,
)
    requires
        commit_refused(committed, identity, key, generation, resources, e),
    ensures
        !commit_accepted(committed, identity, key, generation, resources, disposition),
        match e {
            BundleIndexError::ManifestMismatch { expected, actual } => key.manifest
                != identity.manifest && expected == identity.manifest && actual == key.manifest,
            BundleIndexError::UnexpectedResource { resource } => resources.contains(resource)
                && !identity.ids().contains(resource),
            BundleIndexError::MissingResources { resources: missing } => {
                &&& missing@.len() > 0
                &&& forall|resource: LogicalResourceId| #[trigger]
                    missing@.contains(resource) <==> identity.ids().contains(resource)
                        && !resources.contains(resource)
            },
            BundleIndexError::StaleGeneration { current, attempted } => attempted == generation
                && committed[key].generation == current && generation < current,
            BundleIndexError::DuplicateResource { .. } => false,
        },
{
    match e {
        BundleIndexError::UnexpectedResource { resource } => {
            assert(identity.id_set().contains(resource) <==> identity.ids().contains(resource));
        },
        BundleIndexError::MissingResources { resources: missing } => {
            let gone = identity.id_set().difference(resources);
            assert forall|resource: LogicalResourceId| #[trigger]
                missing@.contains(resource) <==> identity.ids().contains(resource)
                    && !resources.contains(resource) by {
                assert(missing@.contains(resource) <==> missing@.to_set().contains(resource));
                assert(gone.contains(resource) <==> identity.id_set().contains(resource)
                    && !resources.contains(resource));
                assert(identity.id_set().contains(resource) <==> identity.ids().contains(resource));
            }
            assert(missing@.contains(missing@[0]));
            assert(!resources.contains(missing@[0]));
            assert(identity.id_set().contains(missing@[0]));
        },
        _ => {},
    }
}

/// A complete bundle of the manifest is accepted unless a newer generation of it is visible; the
/// same generation changes nothing, and any other takes the place of what was there.
pub proof fn commits_are_accepted_unless_older<R>(
    committed: Committed<R>,
    identity: IdentityView,
    key: BundleKey,
    generation: u64,
    resources: Set<LogicalResourceId>,
)
    requires
        key.manifest == identity.manifest,
        resources == identity.id_set(),
    ensures
        commit_accepted(
            committed,
            identity,
            key,
            generation,
            resources,
            CommitDisposition::Install,
        ) <==> !committed.contains_key(key) || committed[key].generation < generation,
        commit_accepted(
            committed,
            identity,
            key,
            generation,
            resources,
            CommitDisposition::Idempotent,
        ) <==> committed.contains_key(key) && committed[key].generation == generation,
{
}

/// Where no resource is gone, a lookup finds the greatest committed candidate, and the last one of
/// equal boundaries.
pub proof fn the_last_of_equal_candidates_is_found<P: BundleResourcePin>(
    committed: Committed<P::Reference>,
    identity: IdentityView,
    candidates: Seq<(SequenceHash, u64)>,
    lease: Option<LeaseView<P>>,
    i: int,
)
    requires
        longest_lease(committed, identity, candidates, lease),
        0 <= i < candidates.len(),
        identity.aligned(candidates[i].1),
        committed.contains_key(
            BundleKey {
                manifest: identity.manifest,
                boundary_hash: candidates[i].0,
                boundary_tokens: candidates[i].1,
            },
        ),
        forall|key: BundleKey| #[trigger]
            committed.contains_key(key) ==> !one_can_be_gone(committed[key].resources),
    ensures
        lease is Some,
        lease->Some_0.key.manifest == identity.manifest,
        lease->Some_0.key.boundary_tokens >= candidates[i].1,
        lease->Some_0.key.boundary_tokens == candidates[i].1 ==> exists|j: int|
            i <= j < candidates.len() && #[trigger] candidates[j] == (
                lease->Some_0.key.boundary_hash,
                lease->Some_0.key.boundary_tokens,
            ),
{
    assert(!candidate_gone(committed, identity, candidates, i));
    let found = lease->Some_0;
    let at = choose|at: int|
        {
            &&& 0 <= at < candidates.len()
            &&& identity.aligned(candidates[at].1)
            &&& lease_of(committed, candidate_key(identity, candidates[at]), found)
            &&& forall|k: int|
                0 <= k < candidates.len() && (candidates[k].1 > candidates[at].1
                    || candidates[k].1 == candidates[at].1 && k > at)
                    ==> #[trigger] candidate_gone(committed, identity, candidates, k)
        };
    assert(candidates[at] == (found.key.boundary_hash, found.key.boundary_tokens));
}

} // verus!
