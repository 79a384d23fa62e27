//! Capsules: boundary state that is copied as one, even where it spans several pools.

use crate::ids::{BlockId, BundleKey};
use vstd::prelude::*;

verus! {

/// Why a capsule cannot be described.
#[derive(Clone, Copy, Debug, PartialEq, Eq, Structural)]
pub enum CapsuleError {
    NoPools,
    EmptyPool,
    PoolShapeMismatch { sources: usize, destinations: usize },
}

/// Where a capsule lives.
#[derive(Clone, Copy, Debug, PartialEq, Eq, Structural)]
pub enum CapsuleStorage {
    RequestSlots { generation: u64 },
    SharedPrefix { key: BundleKey, generation: u64 },
}

impl CapsuleStorage {
    pub open spec fn version(self) -> u64 {
        match self {
            CapsuleStorage::RequestSlots { generation } => generation,
            CapsuleStorage::SharedPrefix { generation, .. } => generation,
        }
    }

    pub fn generation(self) -> (r: u64)
        ensures
            r == self.version(),
    {
        match self {
            CapsuleStorage::RequestSlots { generation } => generation,
            CapsuleStorage::SharedPrefix { generation, .. } => generation,
        }
    }

    /// The bundle that a shared capsule belongs to.
    pub fn bundle_key(&self) -> (r: Option<&BundleKey>)
        ensures
            match *self {
                CapsuleStorage::RequestSlots { .. } => r is None,
                CapsuleStorage::SharedPrefix { key, .. } => r is Some && *r->Some_0 == key,
            },
    {
        match self {
            CapsuleStorage::RequestSlots { .. } => None,
            CapsuleStorage::SharedPrefix { key, .. } => Some(key),
        }
    }
}

/// A copy within one pool, slot by slot.
#[derive(Debug, PartialEq, Eq)]
pub struct CapsulePoolCopy {
    source_slots: Vec<BlockId>,
    destination_slots: Vec<BlockId>,
}

/// The mathematical content of a [`CapsulePoolCopy`].
pub struct PoolCopyView {
    pub sources: Seq<BlockId>,
    pub destinations: Seq<BlockId>,
}

impl View for CapsulePoolCopy {
    type V = PoolCopyView;

    closed spec fn view(&self) -> PoolCopyView {
        PoolCopyView { sources: self.source_slots@, destinations: self.destination_slots@ }
    }
}

impl CapsulePoolCopy {
    #[verifier::type_invariant]
    spec fn shaped(self) -> bool {
        self.source_slots@.len() > 0 && self.source_slots@.len() == self.destination_slots@.len()
    }

    pub fn new(source_slots: Vec<BlockId>, destination_slots: Vec<BlockId>) -> (r: Result<
        Self,
        CapsuleError,
    >)
        ensures
            match r {
                Ok(pool) => {
                    &&& source_slots@.len() > 0
                    &&& source_slots@.len() == destination_slots@.len()
                    &&& pool@ == (PoolCopyView {
                        sources: source_slots@,
                        destinations: destination_slots@,
                    })
                },
                Err(CapsuleError::EmptyPool) => source_slots@.len() == 0,
                Err(CapsuleError::PoolShapeMismatch { sources, destinations }) => {
                    &&& source_slots@.len() > 0
                    &&& sources == source_slots@.len()
                    &&& destinations == destination_slots@.len()
                    &&& sources != destinations
                },
                Err(CapsuleError::NoPools) => false,
            },
    {
        if source_slots.len() == 0 {
            return Err(CapsuleError::EmptyPool);
        }
        if source_slots.len() != destination_slots.len() {
            return Err(
                CapsuleError::PoolShapeMismatch {
                    sources: source_slots.len(),
                    destinations: destination_slots.len(),
                },
            );
        }
        Ok(CapsulePoolCopy { source_slots, destination_slots })
    }

    pub fn source_slots(&self) -> (r: &[BlockId])
        ensures
            r@ == self@.sources,
            r@.len() > 0,
            r@.len() == self@.destinations.len(),
    {
        proof {
            use_type_invariant(self);
        }
        self.source_slots.as_slice()
    }

    pub fn destination_slots(&self) -> (r: &[BlockId])
        ensures
            r@ == self@.destinations,
    {
        self.destination_slots.as_slice()
    }
}

/// One capsule with the copies that move it.
#[derive(Debug)]
pub struct CapsuleDescriptor {
    storage: CapsuleStorage,
    pools: Vec<CapsulePoolCopy>,
}

impl CapsuleDescriptor {
    pub closed spec fn stored(&self) -> CapsuleStorage {
        self.storage
    }

    pub closed spec fn copies(&self) -> Seq<CapsulePoolCopy> {
        self.pools@
    }

    pub fn new(storage: CapsuleStorage, pools: Vec<CapsulePoolCopy>) -> (r: Result<
        Self,
        CapsuleError,
    >)
        ensures
            r is Ok <==> pools@.len() > 0,
            r is Ok ==> r->Ok_0.stored() == storage && r->Ok_0.copies() == pools@,
            r is Err ==> r->Err_0 == CapsuleError::NoPools,
    {
        if pools.len() == 0 {
            return Err(CapsuleError::NoPools);
        }
        Ok(CapsuleDescriptor { storage, pools })
    }

    pub fn storage(&self) -> (r: &CapsuleStorage)
        ensures
            *r == self.stored(),
    {
        &self.storage
    }

    /// All pools' copies, as one plan.
    pub fn copy_plan(&self) -> (r: CapsuleCopyPlan<'_>)
        ensures
            r.stored() == self.stored(),
            r.copies() == self.copies(),
    {
        CapsuleCopyPlan { storage: &self.storage, pools: self.pools.as_slice() }
    }
}

/// The slots of some pools, together.
pub open spec fn slot_count(pools: Seq<CapsulePoolCopy>) -> nat
    decreases pools.len(),
{
    if pools.len() == 0 {
        0
    } else {
        slot_count(pools.drop_last()) + pools.last()@.sources.len()
    }
}

proof fn part_of_slots(pools: Seq<CapsulePoolCopy>, end: int)
    requires
        0 <= end <= pools.len(),
    ensures
        slot_count(pools.subrange(0, end)) <= slot_count(pools),
    decreases pools.len(),
{
    if end < pools.len() {
        part_of_slots(pools.drop_last(), end);
        assert(pools.drop_last().subrange(0, end) =~= pools.subrange(0, end));
    } else {
        assert(pools.subrange(0, end) =~= pools);
    }
}

/// The copies of one capsule, to be made together.
#[derive(Debug)]
pub struct CapsuleCopyPlan<'a> {
    storage: &'a CapsuleStorage,
    pools: &'a [CapsulePoolCopy],
}

impl<'a> CapsuleCopyPlan<'a> {
    pub closed spec fn stored(&self) -> CapsuleStorage {
        *self.storage
    }

    pub closed spec fn copies(&self) -> Seq<CapsulePoolCopy> {
        self.pools@
    }

    pub fn generation(&self) -> (r: u64)
        ensures
            r == self.stored().version(),
    {
        self.storage.generation()
    }

    pub fn pools(&self) -> (r: &[CapsulePoolCopy])
        ensures
            r@ == self.copies(),
    {
        self.pools
    }

    /// The slots that the plan copies.
    pub fn total_slots(&self) -> (r: usize)
        requires
            slot_count(self.copies()) <= usize::MAX,
        ensures
            r == slot_count(self.copies()),
    {
        let mut total: usize = 0;
        let mut at: usize = 0;
        assert(slot_count(self.pools@.subrange(0, 0)) == 0);
        while at < self.pools.len()
            invariant
                at <= self.pools@.len(),
                slot_count(self.pools@) <= usize::MAX,
                total == slot_count(self.pools@.subrange(0, at as int)),
            decreases self.pools@.len() - at,
        {
            proof {
                let more = self.pools@.subrange(0, at + 1);
                assert(more.drop_last() =~= self.pools@.subrange(0, at as int));
                assert(more.last() == self.pools@[at as int]);
                part_of_slots(self.pools@, at + 1);
            }
            total = total + self.pools[at].source_slots().len();
            at = at + 1;
        }
        assert(self.pools@.subrange(0, at as int) =~= self.pools@);
        total
    }
}

/// The slots of some pools are those of each of them together: no pool is left out or counted
/// twice.
pub proof fn slots_add_up(first: Seq<CapsulePoolCopy>, second: Seq<CapsulePoolCopy>)
    ensures
        slot_count(first + second) == slot_count(first) + slot_count(second),
        first.len() == 1 ==> slot_count(first) == first[0]@.sources.len(),
        first.len() == 0 ==> slot_count(first) == 0,
    decreases second.len(),
{
    if second.len() == 0 {
        assert(first + second =~= first);
    } else {
        slots_add_up(first, second.drop_last());
        assert((first + second).drop_last() =~= first + second.drop_last());
        assert((first + second).last() == second.last());
    }
    if first.len() == 1 {
        assert(first.drop_last().len() == 0);
        assert(slot_count(first.drop_last()) == 0);
    }
}

/// A capsule has the generation that it was stored under, whether it is a request's own or shared.
pub proof fn capsules_carry_their_generation(generation: u64, key: BundleKey)
    ensures
        (CapsuleStorage::RequestSlots { generation }).version() == generation,
        (CapsuleStorage::SharedPrefix { key, generation }).version() == generation,
{
}

} // verus!
