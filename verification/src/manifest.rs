//! Cache manifests: which resources make up a bundle, and where bundles may end.

use crate::ids::{BundleKey, CacheManifestId, LogicalResourceId, SequenceHash};
use crate::ordered::{
    ascending, ascending_keys_are_distinct, firsts, first_repeat, pairs_map,
    pairs_map_holds_the_pairs, KeyMap,
};
use vstd::prelude::*;

verus! {

/// How a resource relates to the token prefix.
#[derive(Clone, Copy, Debug, PartialEq, Eq, Structural)]
pub enum ResourceRole {
    /// One block for each native run of tokens, from the start of the prefix.
    PrefixHistory,
    /// One atomic object for the state at the boundary.
    BoundaryCapsule,
}

/// What a manifest asks of one resource.
#[derive(Clone, Copy, Debug, PartialEq, Eq, Structural)]
pub struct ResourceRequirement {
    pub resource: LogicalResourceId,
    pub role: ResourceRole,
    /// Tokens covered by one block of this resource.
    pub native_block_tokens: u64,
}

/// The mathematical content of a [`CacheIdentity`].
pub struct IdentityView {
    pub manifest: CacheManifestId,
    pub resources: Seq<ResourceRequirement>,
    pub alignment_tokens: u64,
}

/// The resource identifiers of a list of requirements.
pub open spec fn requirement_ids(requirements: Seq<ResourceRequirement>) -> Seq<LogicalResourceId> {
    Seq::new(requirements.len(), |i: int| requirements[i].resource)
}

/// Whether block boundaries of every resource meet at each multiple of the alignment.
pub open spec fn requirement_fits(requirement: ResourceRequirement, alignment_tokens: u64) -> bool {
    requirement.native_block_tokens > 0 && alignment_tokens as int
        % requirement.native_block_tokens as int == 0
}

impl IdentityView {
    pub open spec fn ids(self) -> Seq<LogicalResourceId> {
        requirement_ids(self.resources)
    }

    pub open spec fn id_set(self) -> Set<LogicalResourceId> {
        self.ids().to_set()
    }

    /// Resources stand in ascending order, and all of them end a block at every aligned boundary.
    pub open spec fn wf(self) -> bool {
        &&& self.alignment_tokens > 0
        &&& ascending(self.ids())
        &&& forall|i: int|
            0 <= i < self.resources.len() ==> requirement_fits(
                #[trigger] self.resources[i],
                self.alignment_tokens,
            )
    }

    /// The requirement for a resource that the identity has.
    pub open spec fn requirement(self, resource: LogicalResourceId) -> ResourceRequirement {
        self.resources[choose|i: int|
            0 <= i < self.resources.len() && self.resources[i].resource == resource]
    }

    /// Whether tokens can be the boundary of a bundle of this identity.
    pub open spec fn aligned(self, boundary_tokens: u64) -> bool {
        boundary_tokens > 0 && boundary_tokens as int % self.alignment_tokens as int == 0
    }

    /// `at` holds the history with the smallest blocks, the first one where several are smallest.
    pub open spec fn canonical_at(self, at: int) -> bool {
        &&& 0 <= at < self.resources.len()
        &&& self.resources[at].role == ResourceRole::PrefixHistory
        &&& forall|i: int|
            0 <= i < self.resources.len() && (#[trigger] self.resources[i]).role
                == ResourceRole::PrefixHistory ==> self.resources[at].native_block_tokens
                <= self.resources[i].native_block_tokens && (i < at
                ==> self.resources[at].native_block_tokens < self.resources[i].native_block_tokens)
    }

    pub open spec fn has_history(self) -> bool {
        exists|i: int|
            0 <= i < self.resources.len() && (#[trigger] self.resources[i]).role
                == ResourceRole::PrefixHistory
    }

    /// In a well-formed identity each listed requirement is the one found by its resource.
    pub proof fn requirement_is_listed(self, at: int)
        requires
            self.wf(),
            0 <= at < self.resources.len(),
        ensures
            self.requirement(self.resources[at].resource) == self.resources[at],
            self.id_set().contains(self.resources[at].resource),
    {
        let resource = self.resources[at].resource;
        assert(self.ids()[at] == resource);
        let i = choose|i: int|
            0 <= i < self.resources.len() && self.resources[i].resource == resource;
        assert(0 <= i < self.resources.len() && self.resources[i].resource == resource);
        ascending_keys_are_distinct(self.ids());
        assert(self.ids()[i] == self.ids()[at]);
    }

    /// A resource of a well-formed identity has one listed requirement.
    pub proof fn member_is_listed(self, resource: LogicalResourceId) -> (at: int)
        requires
            self.wf(),
            self.id_set().contains(resource),
        ensures
            0 <= at < self.resources.len(),
            self.resources[at].resource == resource,
            self.requirement(resource) == self.resources[at],
    {
        assert(self.ids().contains(resource));
        let at = choose|i: int| 0 <= i < self.ids().len() && self.ids()[i] == resource;
        self.requirement_is_listed(at);
        at
    }
}

/// Why a list of requirements is no identity.
#[derive(Clone, Copy, Debug, PartialEq, Eq, Structural)]
pub enum CacheIdentityError {
    ZeroAlignment,
    DuplicateResource(LogicalResourceId),
    MisalignedResource(LogicalResourceId),
}

/// A manifest's identifier with the resources that every bundle of it holds.
#[derive(Debug, PartialEq, Eq)]
pub struct CacheIdentity {
    manifest: CacheManifestId,
    resources: Vec<ResourceRequirement>,
    alignment_tokens: u64,
}

impl View for CacheIdentity {
    type V = IdentityView;

    closed spec fn view(&self) -> IdentityView {
        IdentityView {
            manifest: self.manifest,
            resources: self.resources@,
            alignment_tokens: self.alignment_tokens,
        }
    }
}

impl Clone for CacheIdentity {
    fn clone(&self) -> (r: Self)
        ensures
            r@ == self@,
    {
        proof {
            use_type_invariant(self);
        }
        let mut resources: Vec<ResourceRequirement> = Vec::new();
        let mut at: usize = 0;
        while at < self.resources.len()
            invariant
                at <= self.resources@.len(),
                resources@ == self.resources@.subrange(0, at as int),
            decreases self.resources@.len() - at,
        {
            resources.push(self.resources[at]);
            at = at + 1;
            assert(resources@ =~= self.resources@.subrange(0, at as int));
        }
        assert(resources@ =~= self.resources@);
        CacheIdentity {
            manifest: self.manifest,
            resources,
            alignment_tokens: self.alignment_tokens,
        }
    }
}

impl CacheIdentity {
    #[verifier::type_invariant]
    spec fn valid(self) -> bool {
        self@.wf()
    }

    /// Puts requirements in resource order and checks that they share the alignment.
    pub fn new(
        manifest: CacheManifestId,
        alignment_tokens: u64,
        requirements: Vec<ResourceRequirement>,
    ) -> (r: Result<Self, CacheIdentityError>)
        ensures
            match r {
                Ok(identity) => {
                    &&& identity@.wf()
                    &&& identity@.manifest == manifest
                    &&& identity@.alignment_tokens == alignment_tokens
                    &&& identity@.resources.to_set() == requirements@.to_set()
                    &&& identity@.resources.len() == requirements@.len()
                    &&& requirement_ids(requirements@).no_duplicates()
                },
                Err(CacheIdentityError::ZeroAlignment) => alignment_tokens == 0,
                Err(CacheIdentityError::DuplicateResource(resource)) => alignment_tokens > 0
                    && exists|at: int| #[trigger]
                    first_repeat(requirement_ids(requirements@), at) && requirements@[at].resource
                        == resource,
                Err(CacheIdentityError::MisalignedResource(resource)) => {
                    &&& alignment_tokens > 0
                    &&& requirement_ids(requirements@).no_duplicates()
                    &&& exists|at: int|
                        0 <= at < requirements@.len() && !requirement_fits(
                            #[trigger] requirements@[at],
                            alignment_tokens,
                        ) && requirements@[at].resource == resource
                },
            },
    {
        if alignment_tokens == 0 {
            return Err(CacheIdentityError::ZeroAlignment);
        }
        let mut pairs: Vec<(LogicalResourceId, ResourceRequirement)> = Vec::new();
        let mut at: usize = 0;
        while at < requirements.len()
            invariant
                at <= requirements@.len(),
                pairs@.len() == at,
                forall|i: int|
                    0 <= i < at ==> #[trigger] pairs@[i] == (
                        requirements@[i].resource,
                        requirements@[i],
                    ),
            decreases requirements@.len() - at,
        {
            pairs.push((requirements[at].resource, requirements[at]));
            at = at + 1;
        }
        let ghost listed = pairs@;
        assert(firsts(listed) =~= requirement_ids(requirements@));
        let map = match KeyMap::from_entries(pairs) {
            Ok(map) => map,
            Err(resource) => {
                return Err(CacheIdentityError::DuplicateResource(resource));
            },
        };
        proof {
            pairs_map_holds_the_pairs(listed);
        }
        let entries = map.into_entries();
        proof {
            ascending_keys_are_distinct(firsts(entries@));
            Self::sorted_entries_are_the_requirements(listed, requirements@, entries@);
        }
        let mut resources: Vec<ResourceRequirement> = Vec::new();
        let mut next: usize = 0;
        while next < entries.len()
            invariant
                alignment_tokens > 0,
                next <= entries@.len(),
                resources@.len() == next,
                requirement_ids(requirements@).no_duplicates(),
                forall|i: int| 0 <= i < next ==> resources@[i] == (#[trigger] entries@[i]).1,
                forall|i: int|
                    0 <= i < next ==> requirement_fits(
                        #[trigger] resources@[i],
                        alignment_tokens,
                    ),
                forall|i: int|
                    0 <= i < entries@.len() ==> requirements@.contains((#[trigger] entries@[i]).1)
                        && entries@[i].1.resource == entries@[i].0,
            decreases entries@.len() - next,
        {
            let requirement = entries[next].1;
            if requirement.native_block_tokens == 0 || alignment_tokens
                % requirement.native_block_tokens != 0 {
                proof {
                    assert(requirements@.contains(entries@[next as int].1));
                }
                return Err(CacheIdentityError::MisalignedResource(requirement.resource));
            }
            resources.push(requirement);
            next = next + 1;
        }
        proof {
            assert(requirement_ids(resources@) =~= firsts(entries@));
            assert forall|x: ResourceRequirement|
                resources@.to_set().contains(x) <==> requirements@.to_set().contains(x) by {
                if resources@.contains(x) {
                    let i = choose|i: int| 0 <= i < resources@.len() && resources@[i] == x;
                    assert(entries@[i].1 == x);
                }
                if requirements@.contains(x) {
                    let i = choose|i: int| 0 <= i < requirements@.len() && requirements@[i] == x;
                    let j = choose|j: int|
                        0 <= j < entries@.len() && (#[trigger] entries@[j]).1 == requirements@[i];
                    assert(resources@[j] == x);
                }
            }
            assert(resources@.to_set() =~= requirements@.to_set());
        }
        Ok(CacheIdentity { manifest, resources, alignment_tokens })
    }

    proof fn sorted_entries_are_the_requirements(
        listed: Seq<(LogicalResourceId, ResourceRequirement)>,
        requirements: Seq<ResourceRequirement>,
        entries: Seq<(LogicalResourceId, ResourceRequirement)>,
    )
        requires
            listed.len() == requirements.len(),
            forall|i: int|
                0 <= i < listed.len() ==> #[trigger] listed[i] == (
                    requirements[i].resource,
                    requirements[i],
                ),
            firsts(listed) == requirement_ids(requirements),
            crate::ordered::distinct_up_to(firsts(listed), listed.len() as int),
            ascending(firsts(entries)),
            pairs_map(listed) == pairs_map(entries),
        ensures
            requirement_ids(requirements).no_duplicates(),
            entries.len() == requirements.len(),
            forall|i: int|
                0 <= i < entries.len() ==> requirements.contains((#[trigger] entries[i]).1)
                    && entries[i].1.resource == entries[i].0,
            forall|i: int|
                #![trigger requirements[i]]
                0 <= i < requirements.len() ==> exists|j: int|
                    0 <= j < entries.len() && (#[trigger] entries[j]).1 == requirements[i],
    {
        pairs_map_holds_the_pairs(listed);
        pairs_map_holds_the_pairs(entries);
        ascending_keys_are_distinct(firsts(entries));
        let map = pairs_map(listed);
        assert forall|i: int| 0 <= i < entries.len() implies requirements.contains(
            (#[trigger] entries[i]).1,
        ) && entries[i].1.resource == entries[i].0 by {
            assert(firsts(entries)[i] == entries[i].0);
            assert(firsts(entries).to_set().contains(entries[i].0));
            assert(firsts(listed).to_set().contains(entries[i].0));
            let j = choose|j: int| 0 <= j < listed.len() && firsts(listed)[j] == entries[i].0;
            assert(map[listed[j].0] == listed[j].1);
            assert(map[entries[i].0] == entries[i].1);
            assert(requirements[j] == entries[i].1);
        }
        assert forall|i: int| #![trigger requirements[i]] 0 <= i < requirements.len() implies exists|
            j: int,
        |
            0 <= j < entries.len() && (#[trigger] entries[j]).1 == requirements[i] by {
            assert(firsts(listed)[i] == listed[i].0);
            assert(firsts(listed).to_set().contains(listed[i].0));
            assert(firsts(entries).to_set().contains(listed[i].0));
            let j = choose|j: int| 0 <= j < entries.len() && firsts(entries)[j] == listed[i].0;
            assert(map[listed[i].0] == listed[i].1);
            assert(map[entries[j].0] == entries[j].1);
            assert(entries[j].1 == requirements[i]);
        }
        firsts(listed).unique_seq_to_set();
        firsts(entries).unique_seq_to_set();
    }

    pub fn manifest(&self) -> (r: CacheManifestId)
        ensures
            r == self@.manifest,
    {
        self.manifest
    }

    pub fn alignment_tokens(&self) -> (r: u64)
        ensures
            r == self@.alignment_tokens,
            r > 0,
    {
        proof {
            use_type_invariant(self);
        }
        self.alignment_tokens
    }

    /// The requirements, in resource order.
    pub fn resources(&self) -> (r: &[ResourceRequirement])
        ensures
            r@ == self@.resources,
            self@.wf(),
    {
        proof {
            use_type_invariant(self);
        }
        self.resources.as_slice()
    }

    /// The requirement for one resource.
    pub fn requirement(&self, resource: LogicalResourceId) -> (r: Option<ResourceRequirement>)
        ensures
            self@.wf(),
            r is Some <==> self@.id_set().contains(resource),
            r is Some ==> r->Some_0 == self@.requirement(resource) && r->Some_0.resource
                == resource && self@.resources.contains(r->Some_0),
    {
        proof {
            use_type_invariant(self);
        }
        let mut at: usize = 0;
        while at < self.resources.len()
            invariant
                self@.wf(),
                at <= self.resources@.len(),
                forall|i: int|
                    0 <= i < at ==> (#[trigger] self.resources@[i]).resource != resource,
            decreases self.resources@.len() - at,
        {
            if self.resources[at].resource == resource {
                proof {
                    self@.requirement_is_listed(at as int);
                }
                return Some(self.resources[at]);
            }
            at = at + 1;
        }
        proof {
            if self@.id_set().contains(resource) {
                let i = self@.member_is_listed(resource);
                assert(self.resources@[i].resource == resource);
            }
        }
        None
    }

    /// The identifiers of the resources, in ascending order.
    pub fn resource_ids(&self) -> (r: Vec<LogicalResourceId>)
        ensures
            r@ == self@.ids(),
            self@.wf(),
    {
        proof {
            use_type_invariant(self);
        }
        let mut ids: Vec<LogicalResourceId> = Vec::new();
        let mut at: usize = 0;
        while at < self.resources.len()
            invariant
                at <= self.resources@.len(),
                ids@ == self@.ids().subrange(0, at as int),
            decreases self.resources@.len() - at,
        {
            ids.push(self.resources[at].resource);
            at = at + 1;
            assert(ids@ =~= self@.ids().subrange(0, at as int));
        }
        assert(ids@ =~= self@.ids());
        ids
    }

    /// Whether both name the same manifest with the same requirements.
    pub fn same_as(&self, other: &CacheIdentity) -> (r: bool)
        ensures
            r == (self@ == other@),
    {
        if self.manifest != other.manifest || self.alignment_tokens != other.alignment_tokens
            || self.resources.len() != other.resources.len() {
            return false;
        }
        let mut at: usize = 0;
        while at < self.resources.len()
            invariant
                at <= self.resources@.len(),
                self.resources@.len() == other.resources@.len(),
                forall|i: int| 0 <= i < at ==> self.resources@[i] == other.resources@[i],
            decreases self.resources@.len() - at,
        {
            if self.resources[at] != other.resources[at] {
                return false;
            }
            at = at + 1;
        }
        assert(self.resources@ =~= other.resources@);
        true
    }

    /// The history with the smallest blocks, by which a prefix is hashed.
    pub fn canonical_history(&self) -> (r: Option<ResourceRequirement>)
        ensures
            self@.wf(),
            r is Some <==> self@.has_history(),
            r is Some ==> exists|at: int| #[trigger]
                self@.canonical_at(at) && self@.resources[at] == r->Some_0,
    {
        proof {
            use_type_invariant(self);
        }
        let mut best: Option<usize> = None;
        let mut at: usize = 0;
        while at < self.resources.len()
            invariant
                at <= self.resources@.len(),
                match best {
                    Some(b) => {
                        &&& b < at
                        &&& self.resources@[b as int].role == ResourceRole::PrefixHistory
                        &&& forall|i: int|
                            0 <= i < at && (#[trigger] self.resources@[i]).role
                                == ResourceRole::PrefixHistory
                                ==> self.resources@[b as int].native_block_tokens
                                <= self.resources@[i].native_block_tokens && (i < b
                                ==> self.resources@[b as int].native_block_tokens
                                < self.resources@[i].native_block_tokens)
                    },
                    None => forall|i: int|
                        0 <= i < at ==> (#[trigger] self.resources@[i]).role
                            != ResourceRole::PrefixHistory,
                },
            decreases self.resources@.len() - at,
        {
            let requirement = self.resources[at];
            if requirement.role == ResourceRole::PrefixHistory {
                match best {
                    Some(b) => {
                        if requirement.native_block_tokens < self.resources[b].native_block_tokens {
                            best = Some(at);
                        }
                    },
                    None => {
                        best = Some(at);
                    },
                }
            }
            at = at + 1;
        }
        match best {
            Some(b) => {
                assert(self@.canonical_at(b as int));
                assert(self@.resources[b as int].role == ResourceRole::PrefixHistory);
                Some(self.resources[b])
            },
            None => None,
        }
    }
}

/// A boundary that does not end a block of every resource.
#[derive(Clone, Copy, Debug, PartialEq, Eq, Structural)]
pub struct UnalignedBoundary {
    pub boundary_tokens: u64,
    pub alignment_tokens: u64,
}

impl BundleKey {
    /// Names the bundle of an identity at an aligned boundary.
    pub fn new(
        identity: &CacheIdentity,
        boundary_hash: SequenceHash,
        boundary_tokens: u64,
    ) -> (r: Result<Self, UnalignedBoundary>)
        ensures
            r is Ok <==> identity@.aligned(boundary_tokens),
            r is Ok ==> r->Ok_0 == (BundleKey {
                manifest: identity@.manifest,
                boundary_hash,
                boundary_tokens,
            }),
            r is Err ==> r->Err_0 == (UnalignedBoundary {
                boundary_tokens,
                alignment_tokens: identity@.alignment_tokens,
            }),
    {
        let alignment_tokens = identity.alignment_tokens();
        if boundary_tokens == 0 || boundary_tokens % alignment_tokens != 0 {
            return Err(UnalignedBoundary { boundary_tokens, alignment_tokens });
        }
        Ok(BundleKey { manifest: identity.manifest(), boundary_hash, boundary_tokens })
    }

    pub open spec fn compatible(self, identity: IdentityView) -> bool {
        self.manifest == identity.manifest
    }

    /// Whether the key names a bundle of this identity's manifest.
    pub fn is_compatible_with(&self, identity: &CacheIdentity) -> (r: bool)
        ensures
            r == self.compatible(identity@),
    {
        self.manifest == identity.manifest()
    }
}

/// The blocks of one resource that a bundle holds, from the start of the prefix.
#[derive(Debug, PartialEq, Eq)]
pub struct BundleResourceLineage {
    pub resource: LogicalResourceId,
    pub hashes: Vec<SequenceHash>,
}

/// The mathematical content of a [`BundleResourceLineage`].
pub struct LineageView {
    pub resource: LogicalResourceId,
    pub hashes: Seq<SequenceHash>,
}

impl View for BundleResourceLineage {
    type V = LineageView;

    open spec fn view(&self) -> LineageView {
        LineageView { resource: self.resource, hashes: self.hashes@ }
    }
}

/// The mathematical content of a list of lineages.
pub open spec fn lineage_views(lineages: Seq<BundleResourceLineage>) -> Seq<LineageView> {
    Seq::new(lineages.len(), |i: int| lineages[i]@)
}

/// The resources of a list of lineages.
pub open spec fn lineage_ids(lineages: Seq<LineageView>) -> Seq<LogicalResourceId> {
    Seq::new(lineages.len(), |i: int| lineages[i].resource)
}

/// Every aligned boundary ends a block of every resource, and the next one lies one alignment
/// further.
pub proof fn aligned_boundaries_end_every_block(
    identity: IdentityView,
    boundary_tokens: u64,
    at: int,
)
    requires
        identity.wf(),
        identity.aligned(boundary_tokens),
        0 <= at < identity.resources.len(),
    ensures
        boundary_tokens > 0,
        boundary_tokens as int % identity.resources[at].native_block_tokens as int == 0,
        boundary_tokens >= identity.alignment_tokens,
        boundary_tokens + identity.alignment_tokens <= u64::MAX ==> identity.aligned(
            (boundary_tokens + identity.alignment_tokens) as u64,
        ),
        identity.aligned(identity.alignment_tokens),
{
    let alignment = identity.alignment_tokens as int;
    let native = identity.resources[at].native_block_tokens as int;
    let tokens = boundary_tokens as int;
    assert(requirement_fits(identity.resources[at], identity.alignment_tokens));
    assert(tokens % native == 0) by (nonlinear_arith)
        requires
            tokens % alignment == 0,
            alignment % native == 0,
            alignment > 0,
            native > 0,
    {
        let k = tokens / alignment;
        let m = alignment / native;
        assert(tokens == k * alignment);
        assert(alignment == m * native);
        assert(tokens == (k * m) * native) by (nonlinear_arith)
            requires
                tokens == k * alignment,
                alignment == m * native,
        ;
        assert(((k * m) * native) % native == 0) by (nonlinear_arith)
            requires
                native > 0,
        ;
    }
    assert(tokens >= alignment) by (nonlinear_arith)
        requires
            tokens % alignment == 0,
            tokens > 0,
            alignment > 0,
    ;
    assert((tokens + alignment) % alignment == 0) by (nonlinear_arith)
        requires
            tokens % alignment == 0,
            alignment > 0,
    ;
}

/// There is at most one canonical history; no history has smaller blocks, and those before it have
/// larger ones.
pub proof fn the_canonical_history_has_the_smallest_blocks(
    identity: IdentityView,
    at: int,
    other: int,
)
    requires
        identity.canonical_at(at),
        0 <= other < identity.resources.len(),
        identity.resources[other].role is PrefixHistory,
    ensures
        identity.resources[at].role is PrefixHistory,
        identity.resources[at].native_block_tokens <= identity.resources[other].native_block_tokens,
        other < at ==> identity.resources[at].native_block_tokens
            < identity.resources[other].native_block_tokens,
        identity.canonical_at(other) ==> other == at,
{
}

} // verus!
