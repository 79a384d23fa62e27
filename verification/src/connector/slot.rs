//! The block tables of one request, and the bundles that are saved as it grows.

use crate::bundle::admission::{offload_ids, BundleOffloadPlan, ResourceOffload};
use crate::bundle::offload::OffloadMode;
use crate::ids::{BlockId, BundleKey, LogicalResourceId, SequenceHash};
use crate::manifest::{CacheIdentity, IdentityView, ResourceRequirement, ResourceRole};
use crate::offload::plan::{child_fault, plan_fits};
use crate::ordered::{occurs_before, KeyMap};
use crate::remote::search::expected_blocks;
use vstd::prelude::*;

verus! {

/// Block tables by resource.
pub type BlockTables = Map<LogicalResourceId, Seq<BlockId>>;

/// The mathematical content of a [`RequestSlot`].
pub struct SlotView {
    pub hashes: Seq<SequenceHash>,
    pub tables: BlockTables,
    pub evaluated_tokens: usize,
}

/// The smaller of two numbers.
pub open spec fn smaller(a: int, b: int) -> int {
    if a <= b {
        a
    } else {
        b
    }
}

/// The tokens that the blocks of a resource cover; none where there is no table for it, or where
/// their number does not fit its counter.
pub open spec fn table_tokens(tables: BlockTables, requirement: ResourceRequirement) -> int {
    let tokens = tables[requirement.resource].len() * requirement.native_block_tokens;
    if tables.contains_key(requirement.resource) && tokens <= u64::MAX {
        tokens
    } else {
        0
    }
}

/// The fewest tokens that one of the first resources covers, or the limit where that is less.
pub open spec fn covered_tokens(
    tables: BlockTables,
    requirements: Seq<ResourceRequirement>,
    limit: int,
    end: int,
) -> int
    decreases end,
{
    if end <= 0 {
        limit
    } else {
        smaller(
            covered_tokens(tables, requirements, limit, end - 1),
            table_tokens(tables, requirements[end - 1]),
        )
    }
}

impl SlotView {
    /// The greatest aligned boundary that is wanted, hashed and allocated in every resource.
    pub open spec fn boundary(
        self,
        identity: IdentityView,
        desired_tokens: usize,
        block_size: usize,
    ) -> int {
        let alignment = identity.alignment_tokens as int;
        let hashed = smaller(desired_tokens as int, self.hashes.len() * block_size);
        let covered = if identity.resources.len() == 0 {
            0
        } else {
            covered_tokens(
                self.tables,
                identity.resources,
                hashed,
                identity.resources.len() as int,
            )
        };
        covered / alignment * alignment
    }

    /// Whether there is something new to save.
    pub open spec fn can_save(
        self,
        identity: IdentityView,
        desired_tokens: usize,
        block_size: usize,
    ) -> bool {
        let boundary = self.boundary(identity, desired_tokens, block_size);
        &&& boundary > 0
        &&& boundary > self.evaluated_tokens
        &&& forall|i: int|
            0 <= i < identity.resources.len() ==> (
            #[trigger] identity.resources[i]).native_block_tokens as int % block_size as int == 0
    }

    /// The blocks of one resource up to a boundary, each with the hash of the prefix it ends.
    pub open spec fn saved_blocks(
        self,
        requirement: ResourceRequirement,
        boundary: int,
        block_size: usize,
    ) -> Seq<(SequenceHash, BlockId)> {
        let native = requirement.native_block_tokens as int;
        let table = self.tables[requirement.resource];
        match requirement.role {
            ResourceRole::PrefixHistory => Seq::new(
                (boundary / native) as nat,
                |i: int| (self.hashes[(i + 1) * native / block_size as int - 1], table[i]),
            ),
            ResourceRole::BoundaryCapsule => seq![
                (self.hashes[boundary / block_size as int - 1], table[boundary / native - 1]),
            ],
        }
    }

    /// Whether this is the plan to save the bundle that the request has reached.
    pub open spec fn plans_step(
        self,
        identity: IdentityView,
        desired_tokens: usize,
        block_size: usize,
        plan: BundleOffloadPlan,
    ) -> bool {
        let boundary = self.boundary(identity, desired_tokens, block_size);
        &&& plan.identity@ == identity
        &&& plan.key == (BundleKey {
            manifest: identity.manifest,
            boundary_hash: self.hashes[boundary / block_size as int - 1],
            boundary_tokens: boundary as u64,
        })
        &&& plan.key.boundary_tokens == boundary
        &&& plan.generation == boundary
        &&& plan.mode == OffloadMode::Mirror
        &&& plan.resources@.len() == identity.resources.len()
        &&& forall|i: int|
            0 <= i < plan.resources@.len() ==> {
                &&& (#[trigger] plan.resources@[i]).resource == identity.resources[i].resource
                &&& plan.resources@[i].blocks@ == self.saved_blocks(
                    identity.resources[i],
                    boundary,
                    block_size,
                )
            }
    }
}

/// One request as its scheduler sees it.
#[derive(Debug)]
pub struct RequestSlot {
    sequence_hashes: Vec<SequenceHash>,
    resource_block_ids: KeyMap<LogicalResourceId, Vec<BlockId>>,
    evaluated_tokens: usize,
}

impl View for RequestSlot {
    type V = SlotView;

    closed spec fn view(&self) -> SlotView {
        SlotView {
            hashes: self.sequence_hashes@,
            tables: self.resource_block_ids@.map_values(|ids: Vec<BlockId>| ids@),
            evaluated_tokens: self.evaluated_tokens,
        }
    }
}

/// A table that has grown to a longer list of which it is the start; otherwise the table as it was.
pub open spec fn synced(table: Seq<BlockId>, ids: Seq<BlockId>) -> Seq<BlockId> {
    if ids.len() > table.len() && table.is_prefix_of(ids) {
        ids
    } else {
        table
    }
}

/// The table of a resource, empty where there is none.
pub open spec fn table_of(tables: BlockTables, resource: LogicalResourceId) -> Seq<BlockId> {
    if tables.contains_key(resource) {
        tables[resource]
    } else {
        Seq::empty()
    }
}

/// The tables after the first of some full lists.
pub open spec fn tables_synced(
    tables: BlockTables,
    resources: Seq<LogicalResourceId>,
    groups: Seq<Vec<BlockId>>,
    end: int,
) -> BlockTables
    decreases end,
{
    if end <= 0 {
        tables
    } else {
        let before = tables_synced(tables, resources, groups, end - 1);
        let resource = resources[end - 1];
        before.insert(resource, synced(table_of(before, resource), groups[end - 1]@))
    }
}

/// The tables after the first of some additions.
pub open spec fn tables_extended(
    tables: BlockTables,
    resources: Seq<LogicalResourceId>,
    groups: Seq<Vec<BlockId>>,
    end: int,
) -> BlockTables
    decreases end,
{
    if end <= 0 {
        tables
    } else {
        let before = tables_extended(tables, resources, groups, end - 1);
        let resource = resources[end - 1];
        before.insert(resource, table_of(before, resource) + groups[end - 1]@)
    }
}

impl RequestSlot {
    pub fn new(sequence_hashes: Vec<SequenceHash>) -> (r: Self)
        ensures
            r@ == (SlotView {
                hashes: sequence_hashes@,
                tables: Map::empty(),
                evaluated_tokens: 0,
            }),
    {
        let r = RequestSlot {
            sequence_hashes,
            resource_block_ids: KeyMap::new(),
            evaluated_tokens: 0,
        };
        assert(r@.tables =~= BlockTables::empty());
        r
    }

    pub fn evaluated_tokens(&self) -> (r: usize)
        ensures
            r == self@.evaluated_tokens,
    {
        self.evaluated_tokens
    }

    /// The number of full blocks that are hashed.
    pub fn num_hashes(&self) -> (r: usize)
        ensures
            r == self@.hashes.len(),
    {
        self.sequence_hashes.len()
    }

    /// Notes the hash of one more full block.
    pub fn push_hash(&mut self, hash: SequenceHash)
        ensures
            final(self)@ == (SlotView { hashes: old(self)@.hashes.push(hash), ..old(self)@ }),
    {
        self.sequence_hashes.push(hash);
    }

    fn take_table(&mut self, resource: &LogicalResourceId) -> (r: Vec<BlockId>)
        ensures
            r@ == table_of(old(self)@.tables, *resource),
            final(self)@ == (SlotView {
                tables: old(self)@.tables.remove(*resource),
                ..old(self)@
            }),
    {
        let table = match self.resource_block_ids.remove(resource) {
            Some(table) => table,
            None => Vec::new(),
        };
        assert(self@.tables =~= old(self)@.tables.remove(*resource));
        assert(!old(self)@.tables.contains_key(*resource) ==> table@ =~= Seq::<BlockId>::empty());
        table
    }

    fn put_table(&mut self, resource: LogicalResourceId, table: Vec<BlockId>)
        ensures
            final(self)@ == (SlotView {
                tables: old(self)@.tables.insert(resource, table@),
                ..old(self)@
            }),
    {
        self.resource_block_ids.insert(resource, table);
        assert(self@.tables =~= old(self)@.tables.insert(resource, table@));
    }

    /// Takes over the scheduler's full block lists, one group for each resource. A list only ever
    /// grows: one that does not go on from what is known is left out.
    pub fn sync_full_resource_lists(
        &mut self,
        resources: &[LogicalResourceId],
        groups: &[Vec<BlockId>],
    )
        ensures
            final(self)@ == if resources@.len() != groups@.len() {
                old(self)@
            } else {
                SlotView {
                    tables: tables_synced(
                        old(self)@.tables,
                        resources@,
                        groups@,
                        groups@.len() as int,
                    ),
                    ..old(self)@
                }
            },
    {
        if resources.len() != groups.len() {
            return ;
        }
        let ghost start = self@;
        let mut at: usize = 0;
        while at < resources.len()
            invariant
                at <= resources@.len(),
                resources@.len() == groups@.len(),
                self@ == (SlotView {
                    tables: tables_synced(start.tables, resources@, groups@, at as int),
                    ..start
                }),
            decreases resources@.len() - at,
        {
            let resource = resources[at];
            let ghost before = self@.tables;
            let mut table = self.take_table(&resource);
            let ids = &groups[at];
            if ids.len() > table.len() && starts_with(ids.as_slice(), table.as_slice()) {
                grow(&mut table, ids.as_slice());
            }
            self.put_table(resource, table);
            assert(self@.tables =~= before.insert(
                resource,
                synced(table_of(before, resource), groups@[at as int]@),
            ));
            at = at + 1;
        }
    }

    /// Takes over the scheduler's new blocks, one group for each resource.
    pub fn extend_resource_lists(
        &mut self,
        resources: &[LogicalResourceId],
        groups: &[Vec<BlockId>],
    )
        ensures
            final(self)@ == if resources@.len() != groups@.len() {
                old(self)@
            } else {
                SlotView {
                    tables: tables_extended(
                        old(self)@.tables,
                        resources@,
                        groups@,
                        groups@.len() as int,
                    ),
                    ..old(self)@
                }
            },
    {
        if resources.len() != groups.len() {
            return ;
        }
        let ghost start = self@;
        let mut at: usize = 0;
        while at < resources.len()
            invariant
                at <= resources@.len(),
                resources@.len() == groups@.len(),
                self@ == (SlotView {
                    tables: tables_extended(start.tables, resources@, groups@, at as int),
                    ..start
                }),
            decreases resources@.len() - at,
        {
            let resource = resources[at];
            let ghost before = self@.tables;
            let mut table = self.take_table(&resource);
            append(&mut table, groups[at].as_slice());
            self.put_table(resource, table);
            assert(self@.tables =~= before.insert(
                resource,
                table_of(before, resource) + groups@[at as int]@,
            ));
            at = at + 1;
        }
    }

    /// The tokens that every resource covers, up to a limit.
    fn least_covered(&self, identity: &CacheIdentity, limit: u64) -> (r: u64)
        ensures
            r == covered_tokens(
                self@.tables,
                identity@.resources,
                limit as int,
                identity@.resources.len() as int,
            ),
            r <= limit,
            forall|i: int|
                0 <= i < identity@.resources.len() ==> r <= table_tokens(
                    self@.tables,
                    #[trigger] identity@.resources[i],
                ),
    {
        let requirements = identity.resources();
        let mut least: u64 = limit;
        let mut at: usize = 0;
        while at < requirements.len()
            invariant
                at <= requirements@.len(),
                requirements@ == identity@.resources,
                least == covered_tokens(self@.tables, requirements@, limit as int, at as int),
                least <= limit,
                forall|i: int|
                    0 <= i < at ==> least <= table_tokens(
                        self@.tables,
                        #[trigger] requirements@[i],
                    ),
            decreases requirements@.len() - at,
        {
            let requirement = requirements[at];
            let covered: u64 = match self.resource_block_ids.get(&requirement.resource) {
                Some(ids) => match (ids.len() as u64).checked_mul(requirement.native_block_tokens) {
                    Some(tokens) => tokens,
                    None => 0,
                },
                None => 0,
            };
            assert(covered == table_tokens(self@.tables, requirement));
            if covered < least {
                least = covered;
            }
            at = at + 1;
        }
        least
    }

    /// Plans to save the bundle at the greatest boundary that all resources have reached, if it
    /// lies beyond what was saved before.
    pub fn offload_bundle_step(
        &self,
        identity: &CacheIdentity,
        desired_tokens: usize,
        block_size: usize,
    ) -> (r: Option<BundleOffloadPlan>)
        requires
            block_size > 0,
            self@.hashes.len() * block_size <= usize::MAX,
        ensures
            r is Some <==> self@.can_save(identity@, desired_tokens, block_size),
            r is Some ==> self@.plans_step(identity@, desired_tokens, block_size, r->Some_0),
    {
        let requirements = identity.resources();
        let alignment: u64 = identity.alignment_tokens();
        if requirements.len() == 0 {
            proof {
                assert(0int / (alignment as int) * alignment as int == 0) by (nonlinear_arith)
                    requires
                        alignment > 0,
                ;
            }
            return None;
        }
        let hashed: usize = self.sequence_hashes.len() * block_size;
        let limit: usize = if desired_tokens <= hashed {
            desired_tokens
        } else {
            hashed
        };
        let covered: u64 = self.least_covered(identity, limit as u64);
        proof {
            assert(0 <= covered as int / alignment as int * alignment as int <= covered)
                by (nonlinear_arith)
                requires
                    covered >= 0,
                    alignment > 0,
            ;
        }
        let boundary: u64 = covered / alignment * alignment;
        proof {
            assert(boundary == self@.boundary(identity@, desired_tokens, block_size));
        }
        if boundary == 0 || boundary <= self.evaluated_tokens as u64 {
            return None;
        }
        if !natives_fit(requirements, block_size) {
            return None;
        }
        let size: u64 = block_size as u64;
        proof {
            boundary_is_whole(identity@, covered as int, boundary as int, size as int);
            let blocks = boundary as int / size as int;
            assert(blocks * size == boundary && blocks >= 1 && blocks <= self@.hashes.len())
                by (nonlinear_arith)
                requires
                    blocks == boundary as int / size as int,
                    boundary as int % size as int == 0,
                    boundary > 0,
                    size > 0,
                    boundary <= self@.hashes.len() * size,
            ;
        }
        let boundary_hash = self.sequence_hashes[(boundary / size) as usize - 1];
        let mut resources: Vec<ResourceOffload> = Vec::new();
        let mut at: usize = 0;
        while at < requirements.len()
            invariant
                at <= requirements@.len(),
                requirements@ == identity@.resources,
                identity@.wf(),
                size == block_size,
                size > 0,
                boundary > 0,
                boundary as int % size as int == 0,
                boundary as int % identity@.alignment_tokens as int == 0,
                boundary <= self@.hashes.len() * size,
                boundary <= covered,
                boundary_hash == self@.hashes[boundary as int / size as int - 1],
                forall|i: int|
                    0 <= i < requirements@.len() ==> covered <= table_tokens(
                        self@.tables,
                        #[trigger] requirements@[i],
                    ),
                forall|i: int|
                    0 <= i < requirements@.len() ==> (
                    #[trigger] requirements@[i]).native_block_tokens as int % size as int == 0,
                resources@.len() == at,
                forall|i: int|
                    0 <= i < at ==> {
                        &&& (#[trigger] resources@[i]).resource == requirements@[i].resource
                        &&& resources@[i].blocks@ == self@.saved_blocks(
                            requirements@[i],
                            boundary as int,
                            block_size,
                        )
                    },
            decreases requirements@.len() - at,
        {
            let requirement = requirements[at];
            proof {
                assert(crate::manifest::requirement_fits(
                    identity@.resources[at as int],
                    identity@.alignment_tokens,
                ));
                assert(covered <= table_tokens(self@.tables, requirements@[at as int]));
            }
            let blocks = self.blocks_up_to(
                &requirement,
                boundary,
                size,
                boundary_hash,
                Ghost(identity@),
            );
            resources.push(ResourceOffload { resource: requirement.resource, blocks });
            at = at + 1;
        }
        let key = BundleKey {
            manifest: identity.manifest(),
            boundary_hash,
            boundary_tokens: boundary,
        };
        Some(
            BundleOffloadPlan {
                identity: identity.clone(),
                key,
                generation: boundary,
                mode: OffloadMode::Mirror,
                resources,
            },
        )
    }

    /// The blocks of one resource up to a boundary.
    fn blocks_up_to(
        &self,
        requirement: &ResourceRequirement,
        boundary: u64,
        size: u64,
        boundary_hash: SequenceHash,
        Ghost(identity): Ghost<IdentityView>,
    ) -> (r: Vec<(SequenceHash, BlockId)>)
        requires
            size > 0,
            size <= usize::MAX,
            boundary > 0,
            boundary as int % size as int == 0,
            boundary <= self@.hashes.len() * size,
            boundary <= table_tokens(self@.tables, *requirement),
            requirement.native_block_tokens > 0,
            requirement.native_block_tokens as int % size as int == 0,
            identity.alignment_tokens as int % requirement.native_block_tokens as int == 0,
            identity.alignment_tokens > 0,
            boundary as int % identity.alignment_tokens as int == 0,
            boundary_hash == self@.hashes[boundary as int / size as int - 1],
        ensures
            r@ == self@.saved_blocks(*requirement, boundary as int, size as usize),
    {
        let native: u64 = requirement.native_block_tokens;
        let ids = self.resource_block_ids.get(&requirement.resource).unwrap();
        let ghost table = self@.tables[requirement.resource];
        let known: usize = self.sequence_hashes.len();
        let held: usize = ids.len();
        let count: u64 = boundary / native;
        proof {
            assert(ids@ == table);
            multiples_chain(
                boundary as int,
                identity.alignment_tokens as int,
                native as int,
            );
            assert(count * native == boundary && count >= 1 && count <= table.len())
                by (nonlinear_arith)
                requires
                    count == boundary as int / native as int,
                    boundary as int % native as int == 0,
                    boundary > 0,
                    native > 0,
                    boundary <= table.len() * native,
            ;
        }
        let mut blocks: Vec<(SequenceHash, BlockId)> = Vec::new();
        match requirement.role {
            ResourceRole::PrefixHistory => {
                let mut index: u64 = 0;
                while index < count
                    invariant
                        index <= count,
                        count * native == boundary,
                        count == boundary as int / native as int,
                        count <= table.len(),
                        ids@ == table,
                        known == self@.hashes.len(),
                        held == table.len(),
                        table == self@.tables[requirement.resource],
                        size > 0,
                        native > 0,
                        native == requirement.native_block_tokens,
                        requirement.role == ResourceRole::PrefixHistory,
                        native as int % size as int == 0,
                        boundary <= self@.hashes.len() * size,
                        blocks@.len() == index,
                        forall|i: int|
                            0 <= i < index ==> #[trigger] blocks@[i] == (
                                self@.hashes[(i + 1) * native / size as int - 1],
                                table[i],
                            ),
                    decreases count - index,
                {
                    proof {
                        end_of_block(
                            index as int,
                            native as int,
                            size as int,
                            count as int,
                            self@.hashes.len() as int,
                        );
                    }
                    let end: u64 = (index + 1) * native;
                    let block: u64 = end / size;
                    assert(1 <= block <= known);
                    let hash = self.sequence_hashes[block as usize - 1];
                    blocks.push((hash, ids[index as usize]));
                    index = index + 1;
                }
            },
            ResourceRole::BoundaryCapsule => {
                blocks.push((boundary_hash, ids[count as usize - 1]));
            },
        }
        assert(blocks@ =~= self@.saved_blocks(*requirement, boundary as int, size as usize));
        blocks
    }

    /// Notes what the engine made of a planned save: an accepted one is not planned again.
    pub fn finish_bundle_step(&mut self, plan_boundary: usize, accepted: bool) -> (r: bool)
        ensures
            r == accepted,
            final(self)@ == if accepted {
                SlotView { evaluated_tokens: plan_boundary, ..old(self)@ }
            } else {
                old(self)@
            },
    {
        if accepted {
            self.evaluated_tokens = plan_boundary;
        }
        accepted
    }
}

/// What a step plans is a valid offload of the whole bundle: every resource has exactly the blocks
/// up to the boundary, and the last of them carries the hash that names the bundle.
pub proof fn planned_steps_are_complete_offloads(
    slot: SlotView,
    identity: IdentityView,
    desired_tokens: usize,
    block_size: usize,
    key: BundleKey,
    resources: Seq<ResourceOffload>,
    supported: Set<LogicalResourceId>,
)
    requires
        identity.wf(),
        identity.resources.len() > 0,
        block_size > 0,
        slot.hashes.len() * block_size <= usize::MAX,
        slot.can_save(identity, desired_tokens, block_size),
        identity.id_set().subset_of(supported),
        ({
            let boundary = slot.boundary(identity, desired_tokens, block_size);
            &&& key == (BundleKey {
                manifest: identity.manifest,
                boundary_hash: slot.hashes[boundary / block_size as int - 1],
                boundary_tokens: boundary as u64,
            })
            &&& key.boundary_tokens == boundary
            &&& resources.len() == identity.resources.len()
            &&& forall|i: int|
                0 <= i < resources.len() ==> {
                    &&& (#[trigger] resources[i]).resource == identity.resources[i].resource
                    &&& resources[i].blocks@ == slot.saved_blocks(
                        identity.resources[i],
                        boundary,
                        block_size,
                    )
                }
        }),
    ensures
        plan_fits(identity, key, resources, supported),
        offload_ids(resources) == identity.ids(),
{
    let boundary = slot.boundary(identity, desired_tokens, block_size);
    let size = block_size as int;
    let n = identity.resources.len() as int;
    let hashed = smaller(desired_tokens as int, slot.hashes.len() * block_size);
    let covered = covered_tokens(slot.tables, identity.resources, hashed, n);
    assert(offload_ids(resources) =~= identity.ids());
    boundary_is_whole(identity, covered, boundary, size);
    covered_within(slot.tables, identity.resources, hashed, n);
    assert(boundary <= hashed) by (nonlinear_arith)
        requires
            boundary == covered / (identity.alignment_tokens as int)
                * identity.alignment_tokens as int,
            covered <= hashed,
            identity.alignment_tokens > 0,
            boundary > 0,
    ;
    crate::ordered::ascending_keys_are_distinct(identity.ids());
    assert forall|i: int| 0 <= i < resources.len() implies #[trigger] child_fault(
        identity,
        key,
        resources,
        supported,
        i,
    ) is None by {
        let requirement = identity.resources[i];
        let native = requirement.native_block_tokens as int;
        let resource = resources[i].resource;
        assert(resource == requirement.resource);
        let blocks = resources[i].blocks@;
        identity.requirement_is_listed(i);
        assert(crate::manifest::requirement_fits(requirement, identity.alignment_tokens));
        multiples_chain(boundary, identity.alignment_tokens as int, native);
        let count = boundary / native;
        assert(count * native == boundary && count >= 1) by (nonlinear_arith)
            requires
                count == boundary / native,
                boundary % native == 0,
                boundary > 0,
                native > 0,
        ;
        assert(count <= boundary) by (nonlinear_arith)
            requires
                count * native == boundary,
                native >= 1,
                count >= 1,
        ;
        assert(!occurs_before(offload_ids(resources), i, resource)) by {
            if occurs_before(offload_ids(resources), i, resource) {
                let j = choose|j: int| 0 <= j < i && #[trigger] offload_ids(resources)[j] == resource;
                assert(identity.ids()[j] == identity.ids()[i]);
            }
        }
        assert(blocks.len() == expected_blocks(requirement, key.boundary_tokens));
        assert(blocks.last().0 == key.boundary_hash);
    }
}

proof fn covered_within(
    tables: BlockTables,
    requirements: Seq<ResourceRequirement>,
    limit: int,
    end: int,
)
    ensures
        covered_tokens(tables, requirements, limit, end) <= limit,
    decreases end,
{
    if end > 0 {
        covered_within(tables, requirements, limit, end - 1);
    }
}

/// Whether every native block is a run of connector blocks.
fn natives_fit(requirements: &[ResourceRequirement], block_size: usize) -> (r: bool)
    requires
        block_size > 0,
    ensures
        r == forall|i: int|
            0 <= i < requirements@.len() ==> (
            #[trigger] requirements@[i]).native_block_tokens as int % block_size as int == 0,
{
    let size: u64 = block_size as u64;
    let mut at: usize = 0;
    while at < requirements.len()
        invariant
            at <= requirements@.len(),
            size == block_size,
            size > 0,
            forall|i: int|
                0 <= i < at ==> (#[trigger] requirements@[i]).native_block_tokens as int
                    % block_size as int == 0,
        decreases requirements@.len() - at,
    {
        if requirements[at].native_block_tokens % size != 0 {
            assert(requirements@[at as int].native_block_tokens as int % block_size as int != 0);
            return false;
        }
        at = at + 1;
    }
    true
}

/// Whether a list starts with another.
fn starts_with(ids: &[BlockId], start: &[BlockId]) -> (r: bool)
    ensures
        r == start@.is_prefix_of(ids@),
{
    if start.len() > ids.len() {
        return false;
    }
    let mut at: usize = 0;
    while at < start.len()
        invariant
            at <= start@.len(),
            start@.len() <= ids@.len(),
            forall|i: int| 0 <= i < at ==> start@[i] == ids@[i],
        decreases start@.len() - at,
    {
        if start[at] != ids[at] {
            assert(ids@.subrange(0, start@.len() as int)[at as int] != start@[at as int]);
            return false;
        }
        at = at + 1;
    }
    assert(start@ =~= ids@.subrange(0, start@.len() as int));
    true
}

/// Grows a list to a longer one that it is the start of.
fn grow(table: &mut Vec<BlockId>, ids: &[BlockId])
    requires
        old(table)@.is_prefix_of(ids@),
    ensures
        final(table)@ == ids@,
{
    let mut at: usize = table.len();
    assert(table@ =~= ids@.subrange(0, at as int));
    while at < ids.len()
        invariant
            at <= ids@.len(),
            table@ == ids@.subrange(0, at as int),
        decreases ids@.len() - at,
    {
        table.push(ids[at]);
        at = at + 1;
        assert(table@ =~= ids@.subrange(0, at as int));
    }
    assert(table@ =~= ids@);
}

/// Appends a list to another.
fn append(table: &mut Vec<BlockId>, ids: &[BlockId])
    ensures
        final(table)@ == old(table)@ + ids@,
{
    let mut at: usize = 0;
    assert(table@ =~= old(table)@ + ids@.subrange(0, 0));
    while at < ids.len()
        invariant
            at <= ids@.len(),
            table@ == old(table)@ + ids@.subrange(0, at as int),
        decreases ids@.len() - at,
    {
        table.push(ids[at]);
        at = at + 1;
        assert(table@ =~= old(table)@ + ids@.subrange(0, at as int));
    }
    assert(ids@.subrange(0, at as int) =~= ids@);
}

proof fn multiples_chain(a: int, b: int, c: int)
    requires
        b > 0,
        c > 0,
        a % b == 0,
        b % c == 0,
    ensures
        a % c == 0,
{
    assert(a == b * (a / b)) by (nonlinear_arith)
        requires
            a % b == 0,
            b > 0,
    ;
    assert(b == c * (b / c)) by (nonlinear_arith)
        requires
            b % c == 0,
            c > 0,
    ;
    let (x, y) = (a / b, b / c);
    assert(a == c * (y * x)) by (nonlinear_arith)
        requires
            a == b * x,
            b == c * y,
    ;
    vstd::arithmetic::div_mod::lemma_mod_multiples_basic(y * x, c);
    assert((y * x) * c == c * (y * x)) by (nonlinear_arith);
}

/// An aligned boundary is a whole number of connector blocks where every native block is.
proof fn boundary_is_whole(identity: IdentityView, covered: int, boundary: int, size: int)
    requires
        identity.wf(),
        identity.resources.len() > 0,
        size > 0,
        boundary == covered / (identity.alignment_tokens as int) * (
        identity.alignment_tokens as int),
        forall|i: int|
            0 <= i < identity.resources.len() ==> (
            #[trigger] identity.resources[i]).native_block_tokens as int % size == 0,
    ensures
        boundary % size == 0,
        boundary % identity.alignment_tokens as int == 0,
{
    let alignment = identity.alignment_tokens as int;
    vstd::arithmetic::div_mod::lemma_mod_multiples_basic(covered / alignment, alignment);
    let first = identity.resources[0];
    assert(crate::manifest::requirement_fits(first, identity.alignment_tokens));
    multiples_chain(boundary, alignment, first.native_block_tokens as int);
    multiples_chain(boundary, first.native_block_tokens as int, size);
}

proof fn end_of_block(index: int, native: int, size: int, count: int, hashes: int)
    requires
        0 <= index < count,
        native > 0,
        size > 0,
        native % size == 0,
        count * native <= hashes * size,
    ensures
        (index + 1) * native <= count * native,
        1 <= (index + 1) * native / size <= hashes,
{
    let k = native / size;
    assert(native == k * size) by (nonlinear_arith)
        requires
            native % size == 0,
            k == native / size,
            size > 0,
    ;
    assert(k >= 1) by (nonlinear_arith)
        requires
            native == k * size,
            native > 0,
            size > 0,
    ;
    assert((index + 1) * native == ((index + 1) * k) * size) by (nonlinear_arith)
        requires
            native == k * size,
    ;
    vstd::arithmetic::div_mod::lemma_div_multiples_vanish((index + 1) * k, size);
    assert(((index + 1) * k) * size == size * ((index + 1) * k)) by (nonlinear_arith);
    assert((index + 1) * k >= 1) by (nonlinear_arith)
        requires
            index >= 0,
            k >= 1,
    ;
    assert((index + 1) * native <= count * native) by (nonlinear_arith)
        requires
            index + 1 <= count,
            native > 0,
    ;
    assert((index + 1) * k <= hashes) by (nonlinear_arith)
        requires
            ((index + 1) * k) * size <= hashes * size,
            size > 0,
    ;
}

/// The boundary that a step saves at is aligned, wanted, hashed, and allocated in every resource,
/// and no greater one is.
pub proof fn steps_save_at_the_greatest_boundary(
    slot: SlotView,
    identity: IdentityView,
    desired_tokens: usize,
    block_size: usize,
    tokens: int,
)
    requires
        identity.wf(),
        identity.resources.len() > 0,
        tokens >= 0,
        tokens % identity.alignment_tokens as int == 0,
    ensures
        slot.boundary(identity, desired_tokens, block_size) % identity.alignment_tokens as int == 0,
        tokens <= slot.boundary(identity, desired_tokens, block_size) <==> tokens == 0 || {
            &&& tokens <= desired_tokens
            &&& tokens <= slot.hashes.len() * block_size
            &&& forall|i: int|
                0 <= i < identity.resources.len() ==> {
                    let resource = (#[trigger] identity.resources[i]).resource;
                    let covered = slot.tables[resource].len()
                        * identity.resources[i].native_block_tokens;
                    slot.tables.contains_key(resource) && tokens <= covered <= u64::MAX
                }
        },
{
    let n = identity.resources.len() as int;
    let alignment = identity.alignment_tokens as int;
    let hashed = smaller(desired_tokens as int, slot.hashes.len() * block_size);
    let covered = covered_tokens(slot.tables, identity.resources, hashed, n);
    let boundary = slot.boundary(identity, desired_tokens, block_size);
    assert(slot.hashes.len() * block_size >= 0) by (nonlinear_arith)
        requires
            slot.hashes.len() >= 0,
            block_size >= 0,
    ;
    covered_exactly(slot.tables, identity.resources, hashed, n, tokens);
    covered_exactly(slot.tables, identity.resources, hashed, n, 0);
    assert forall|i: int| 0 <= i < n implies table_tokens(
        slot.tables,
        #[trigger] identity.resources[i],
    ) >= 0 by {
        assert(slot.tables[identity.resources[i].resource].len()
            * identity.resources[i].native_block_tokens >= 0) by (nonlinear_arith);
    }
    assert(covered >= 0);
    assert(boundary % alignment == 0 && 0 <= boundary <= covered && covered < boundary
        + alignment) by (nonlinear_arith)
        requires
            boundary == covered / alignment * alignment,
            alignment > 0,
            covered >= 0,
    ;
    assert(tokens <= boundary <==> tokens <= covered) by (nonlinear_arith)
        requires
            boundary <= covered,
            covered < boundary + alignment,
            boundary % alignment == 0,
            tokens % alignment == 0,
            alignment > 0,
    ;
    if tokens > 0 && tokens <= covered {
        assert forall|i: int| 0 <= i < n implies ({
            let resource = (#[trigger] identity.resources[i]).resource;
            let covered = slot.tables[resource].len()
                * identity.resources[i].native_block_tokens;
            slot.tables.contains_key(resource) && tokens <= covered <= u64::MAX
        }) by {
            assert(tokens <= table_tokens(slot.tables, identity.resources[i]));
        }
    }
}

proof fn covered_exactly(
    tables: BlockTables,
    requirements: Seq<ResourceRequirement>,
    limit: int,
    end: int,
    tokens: int,
)
    ensures
        tokens <= covered_tokens(tables, requirements, limit, end) <==> tokens <= limit && forall|
            i: int,
        |
            0 <= i < end ==> tokens <= table_tokens(tables, #[trigger] requirements[i]),
    decreases end,
{
    if end > 0 {
        covered_exactly(tables, requirements, limit, end - 1, tokens);
        assert(tokens <= table_tokens(tables, requirements[end - 1]) || tokens > table_tokens(
            tables,
            requirements[end - 1],
        ));
    }
}

/// A block is saved under the hash of the prefix that it ends: with `t` tokens in that prefix, the
/// hash is that of the request's first `t` tokens and the block is the entry of the resource's
/// table that ends there. A history has one such pair for each native block up to the boundary, in
/// order; a capsule has the one at the boundary.
pub proof fn blocks_are_saved_with_the_hash_they_end_at(
    slot: SlotView,
    identity: IdentityView,
    desired_tokens: usize,
    block_size: usize,
    plan: BundleOffloadPlan,
    i: int,
    j: int,
)
    requires
        identity.wf(),
        block_size > 0,
        slot.can_save(identity, desired_tokens, block_size),
        slot.plans_step(identity, desired_tokens, block_size, plan),
        0 <= i < identity.resources.len(),
        0 <= j < plan.resources@[i].blocks@.len(),
    ensures
        ({
            let size = block_size as int;
            let native = identity.resources[i].native_block_tokens as int;
            let blocks = plan.resources@[i].blocks@;
            let table = slot.tables[identity.resources[i].resource];
            let t = if identity.resources[i].role is PrefixHistory {
                (j + 1) * native
            } else {
                plan.key.boundary_tokens as int
            };
            &&& plan.resources@[i].resource == identity.resources[i].resource
            &&& t % native == 0
            &&& t % size == 0
            &&& native <= t <= plan.key.boundary_tokens
            &&& t <= slot.hashes.len() * size
            &&& t <= table.len() * native
            &&& blocks[j].0 == slot.hashes[t / size - 1]
            &&& blocks[j].1 == table[t / native - 1]
            &&& j == blocks.len() - 1 ==> t == plan.key.boundary_tokens && blocks[j].0
                == plan.key.boundary_hash
            &&& !(identity.resources[i].role is PrefixHistory) ==> blocks.len() == 1
        }),
{
    let boundary = slot.boundary(identity, desired_tokens, block_size);
    let requirement = identity.resources[i];
    let size = block_size as int;
    let native = requirement.native_block_tokens as int;
    let table = slot.tables[requirement.resource];
    assert(crate::manifest::requirement_fits(requirement, identity.alignment_tokens));
    assert(slot.hashes.len() * block_size >= 0) by (nonlinear_arith)
        requires
            block_size > 0,
    ;
    let hashed = smaller(desired_tokens as int, slot.hashes.len() * block_size);
    let covered = covered_tokens(
        slot.tables,
        identity.resources,
        hashed,
        identity.resources.len() as int,
    );
    boundary_is_whole(identity, covered, boundary, size);
    steps_save_at_the_greatest_boundary(slot, identity, desired_tokens, block_size, boundary);
    assert(boundary <= table.len() * native);
    multiples_chain(boundary, identity.alignment_tokens as int, native);
    assert(plan.resources@[i].blocks@ == slot.saved_blocks(requirement, boundary, block_size));
    if requirement.role is PrefixHistory {
        let count = boundary / native;
        let t = (j + 1) * native;
        assert(count * native == boundary) by (nonlinear_arith)
            requires
                count == boundary / native,
                boundary % native == 0,
                native > 0,
        ;
        assert(native <= t <= boundary && t % native == 0 && t / native == j + 1)
            by (nonlinear_arith)
            requires
                t == (j + 1) * native,
                0 <= j < count,
                count * native == boundary,
                native > 0,
        ;
        multiples_chain(t, native, size);
        assert(j == count - 1 ==> t == boundary);
    } else {
        assert(native <= boundary) by (nonlinear_arith)
            requires
                boundary > 0,
                boundary % native == 0,
                native > 0,
        ;
    }
}

/// Where one plan's boundary lies one native block beyond another's, the capsule that it saves is
/// the next entry of the same table.
pub proof fn capsules_move_with_the_boundary(
    slot: SlotView,
    identity: IdentityView,
    desired_tokens: usize,
    further_tokens: usize,
    block_size: usize,
    plan: BundleOffloadPlan,
    further: BundleOffloadPlan,
    i: int,
    p: int,
)
    requires
        identity.wf(),
        block_size > 0,
        slot.can_save(identity, desired_tokens, block_size),
        slot.plans_step(identity, desired_tokens, block_size, plan),
        slot.can_save(identity, further_tokens, block_size),
        slot.plans_step(identity, further_tokens, block_size, further),
        0 <= i < identity.resources.len(),
        identity.resources[i].role is BoundaryCapsule,
        further.key.boundary_tokens == plan.key.boundary_tokens
            + identity.resources[i].native_block_tokens,
        plan.key.boundary_tokens == (p + 1) * identity.resources[i].native_block_tokens,
    ensures
        plan.resources@[i].blocks@[0].1 == slot.tables[identity.resources[i].resource][p],
        further.resources@[i].blocks@[0].1 == slot.tables[identity.resources[i].resource][p + 1],
{
    let native = identity.resources[i].native_block_tokens as int;
    assert(crate::manifest::requirement_fits(identity.resources[i], identity.alignment_tokens));
    assert(plan.resources@[i].resource == further.resources@[i].resource);
    blocks_are_saved_with_the_hash_they_end_at(
        slot,
        identity,
        desired_tokens,
        block_size,
        plan,
        i,
        0,
    );
    blocks_are_saved_with_the_hash_they_end_at(
        slot,
        identity,
        further_tokens,
        block_size,
        further,
        i,
        0,
    );
    let t = plan.key.boundary_tokens as int;
    let u = further.key.boundary_tokens as int;
    assert(t / native == p + 1 && u / native == p + 2) by (nonlinear_arith)
        requires
            native > 0,
            t == (p + 1) * native,
            u == t + native,
    ;
}

/// What was saved is not planned again: a plan lies beyond what was saved before, and once it is
/// accepted the same tokens give no further plan.
pub proof fn saves_only_go_forward(
    slot: SlotView,
    identity: IdentityView,
    desired_tokens: usize,
    block_size: usize,
    plan: BundleOffloadPlan,
)
    requires
        slot.can_save(identity, desired_tokens, block_size),
        slot.plans_step(identity, desired_tokens, block_size, plan),
    ensures
        plan.key.boundary_tokens > slot.evaluated_tokens,
        plan.generation == plan.key.boundary_tokens,
        plan.key.manifest == identity.manifest,
        plan.key.boundary_tokens <= usize::MAX ==> !(SlotView {
            evaluated_tokens: plan.key.boundary_tokens as usize,
            ..slot
        }).can_save(identity, desired_tokens, block_size),
{
}

/// Where each resource is named once, new blocks go to the end of their own resource's table, and
/// no other table changes.
pub proof fn new_blocks_go_to_the_end_of_their_table(
    tables: BlockTables,
    resources: Seq<LogicalResourceId>,
    groups: Seq<Vec<BlockId>>,
    end: int,
)
    requires
        0 <= end <= resources.len(),
        resources.len() == groups.len(),
        resources.no_duplicates(),
    ensures
        ({
            let after = tables_extended(tables, resources, groups, end);
            &&& forall|i: int|
                0 <= i < end ==> after.contains_key(#[trigger] resources[i]) && after[resources[i]]
                    == (if tables.contains_key(resources[i]) {
                    tables[resources[i]]
                } else {
                    Seq::empty()
                }) + groups[i]@
            &&& forall|resource: LogicalResourceId|
                !resources.take(end).contains(resource) ==> (#[trigger] after.contains_key(resource)
                    <==> tables.contains_key(resource)) && after[resource] == tables[resource]
        }),
    decreases end,
{
    if end > 0 {
        new_blocks_go_to_the_end_of_their_table(tables, resources, groups, end - 1);
        let before = tables_extended(tables, resources, groups, end - 1);
        let resource = resources[end - 1];
        assert(!resources.take(end - 1).contains(resource));
        assert(before.contains_key(resource) <==> tables.contains_key(resource));
        taken_resources(resources, end);
    }
}

/// A synced table only grows. Where each resource is named once, a table becomes the scheduler's
/// list where that goes on from it and stays as it is otherwise.
pub proof fn synced_tables_only_grow(
    tables: BlockTables,
    resources: Seq<LogicalResourceId>,
    groups: Seq<Vec<BlockId>>,
    end: int,
    at: int,
)
    requires
        0 <= at < end <= resources.len(),
        resources.len() == groups.len(),
        resources.no_duplicates(),
    ensures
        ({
            let after = tables_synced(tables, resources, groups, end);
            let known = if tables.contains_key(resources[at]) {
                tables[resources[at]]
            } else {
                Seq::empty()
            };
            &&& after.contains_key(resources[at])
            &&& known.is_prefix_of(after[resources[at]])
            &&& known.is_prefix_of(groups[at]@) ==> after[resources[at]] == groups[at]@
            &&& !known.is_prefix_of(groups[at]@) ==> after[resources[at]] == known
        }),
    decreases end,
{
    let before = tables_synced(tables, resources, groups, end - 1);
    let resource = resources[end - 1];
    if at < end - 1 {
        synced_tables_only_grow(tables, resources, groups, end - 1, at);
        assert(resources[at] != resource);
    } else {
        let known = table_of(tables, resource);
        let group = groups[at]@;
        other_tables_stay_as_they_are(tables, resources, groups, end - 1, resource);
        assert(table_of(before, resource) == known);
        if known.is_prefix_of(group) && group.len() == known.len() {
            assert(group =~= known);
        }
        assert(known.is_prefix_of(known));
    }
}

/// Syncing changes no table of a resource that is not named.
pub proof fn other_tables_stay_as_they_are(
    tables: BlockTables,
    resources: Seq<LogicalResourceId>,
    groups: Seq<Vec<BlockId>>,
    end: int,
    other: LogicalResourceId,
)
    requires
        0 <= end <= resources.len(),
        resources.len() == groups.len(),
        forall|i: int| 0 <= i < end ==> #[trigger] resources[i] != other,
    ensures
        ({
            let after = tables_synced(tables, resources, groups, end);
            &&& after.contains_key(other) <==> tables.contains_key(other)
            &&& after.contains_key(other) ==> after[other] == tables[other]
        }),
    decreases end,
{
    if end > 0 {
        other_tables_stay_as_they_are(tables, resources, groups, end - 1, other);
        assert(resources[end - 1] != other);
    }
}

proof fn taken_resources(resources: Seq<LogicalResourceId>, end: int)
    requires
        0 < end <= resources.len(),
    ensures
        forall|resource: LogicalResourceId| #[trigger]
            resources.take(end).contains(resource) <==> resources.take(end - 1).contains(resource)
                || resource == resources[end - 1],
{
    let now = resources.take(end);
    let before = resources.take(end - 1);
    assert forall|resource: LogicalResourceId| #[trigger]
        now.contains(resource) <==> before.contains(resource) || resource == resources[end
            - 1] by {
        if before.contains(resource) {
            let i = choose|i: int| 0 <= i < before.len() && before[i] == resource;
            assert(now[i] == resource);
        }
        if now.contains(resource) {
            let i = choose|i: int| 0 <= i < now.len() && now[i] == resource;
            if i < end - 1 {
                assert(before[i] == resource);
            }
        }
        assert(now[end - 1] == resources[end - 1]);
    }
}

} // verus!
