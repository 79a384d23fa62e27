//! Which bundle boundaries one request may resume from, and the best one that is complete.

use crate::bundle::index::{
    candidate_committed, candidate_gone, candidate_key, lease_of, lease_view, longest_lease,
    one_can_be_gone, BundleIndex, BundleLease, BundleResourcePin, Committed, LeaseView,
};
use crate::ids::{BundleKey, SequenceHash};
use crate::manifest::{CacheIdentity, IdentityView};
use vstd::prelude::*;

verus! {

/// The mathematical content of a [`BundleFindQuery`].
pub struct FindView {
    pub identity: IdentityView,
    pub hashes: Seq<SequenceHash>,
    pub computed_tokens: usize,
    pub eligible_blocks: usize,
    pub base_block_tokens: usize,
    pub minimum_boundary: usize,
}

impl FindView {
    /// The number of leading blocks whose ends may be matched.
    pub open spec fn window(self) -> int {
        if self.eligible_blocks <= self.hashes.len() {
            self.eligible_blocks as int
        } else {
            self.hashes.len() as int
        }
    }

    /// The tokens up to and including a block.
    pub open spec fn boundary(self, block: int) -> int {
        (block + 1) * self.base_block_tokens
    }

    /// Whether the request may resume at the end of a block: within the window, past what is
    /// computed, not before the minimum, and where all resources end a block.
    pub open spec fn resumable(self, block: int) -> bool {
        &&& 0 <= block < self.window()
        &&& self.boundary(block) <= usize::MAX
        &&& self.boundary(block) > self.computed_tokens
        &&& self.boundary(block) >= self.minimum_boundary
        &&& self.boundary(block) % self.identity.alignment_tokens as int == 0
    }

    /// The resumable boundaries among the first blocks, from the longest down.
    pub open spec fn candidates_below(self, end: int) -> Seq<(SequenceHash, u64)>
        decreases end,
    {
        if end <= 0 {
            Seq::empty()
        } else if self.resumable(end - 1) {
            seq![(self.hashes[end - 1], self.boundary(end - 1) as u64)] + self.candidates_below(
                end - 1,
            )
        } else {
            self.candidates_below(end - 1)
        }
    }

    pub open spec fn candidates(self) -> Seq<(SequenceHash, u64)> {
        self.candidates_below(self.window())
    }

    /// Whether a key names the end of a block that the request may still resume from.
    pub open spec fn contains(self, key: BundleKey) -> bool {
        &&& key.compatible(self.identity)
        &&& key.boundary_tokens <= usize::MAX
        &&& key.boundary_tokens > self.computed_tokens
        &&& key.boundary_tokens >= self.minimum_boundary
        &&& exists|block: int|
            0 <= block < self.window() && #[trigger] self.boundary(block) == key.boundary_tokens
                && self.hashes[block] == key.boundary_hash
    }
}

/// One request's eligible boundaries.
#[derive(Debug)]
pub struct BundleFindQuery<'a> {
    identity: &'a CacheIdentity,
    sequence_hashes: &'a [SequenceHash],
    computed_tokens: usize,
    eligible_blocks: usize,
    base_block_tokens: usize,
    minimum_boundary: usize,
}

impl<'a> View for BundleFindQuery<'a> {
    type V = FindView;

    closed spec fn view(&self) -> FindView {
        FindView {
            identity: self.identity@,
            hashes: self.sequence_hashes@,
            computed_tokens: self.computed_tokens,
            eligible_blocks: self.eligible_blocks,
            base_block_tokens: self.base_block_tokens,
            minimum_boundary: self.minimum_boundary,
        }
    }
}

impl<'a> BundleFindQuery<'a> {
    #[verifier::type_invariant]
    spec fn valid(self) -> bool {
        self.base_block_tokens > 0
    }

    pub fn new(
        identity: &'a CacheIdentity,
        sequence_hashes: &'a [SequenceHash],
        computed_tokens: usize,
        eligible_blocks: usize,
        base_block_tokens: usize,
    ) -> (r: Self)
        requires
            base_block_tokens > 0,
        ensures
            r@ == (FindView {
                identity: identity@,
                hashes: sequence_hashes@,
                computed_tokens,
                eligible_blocks,
                base_block_tokens,
                minimum_boundary: 0,
            }),
    {
        BundleFindQuery {
            identity,
            sequence_hashes,
            computed_tokens,
            eligible_blocks,
            base_block_tokens,
            minimum_boundary: 0,
        }
    }

    /// Leaves out every boundary before one that the request already builds on.
    pub fn with_minimum_boundary(self, minimum_boundary: usize) -> (r: Self)
        ensures
            r@ == (FindView { minimum_boundary, ..self@ }),
    {
        proof {
            use_type_invariant(&self);
        }
        BundleFindQuery {
            identity: self.identity,
            sequence_hashes: self.sequence_hashes,
            computed_tokens: self.computed_tokens,
            eligible_blocks: self.eligible_blocks,
            base_block_tokens: self.base_block_tokens,
            minimum_boundary,
        }
    }

    /// The boundaries of a request that resumes no earlier than the bundle it was started from.
    pub fn bundle_find_query(
        identity: &'a CacheIdentity,
        sequence_hashes: &'a [SequenceHash],
        computed_tokens: usize,
        eligible_blocks: usize,
        block_size: usize,
        initial_bundle: Option<BundleKey>,
    ) -> (r: Self)
        requires
            block_size > 0,
        ensures
            r@ == (FindView {
                identity: identity@,
                hashes: sequence_hashes@,
                computed_tokens,
                eligible_blocks,
                base_block_tokens: block_size,
                minimum_boundary: match initial_bundle {
                    Some(key) => if key.boundary_tokens <= usize::MAX {
                        key.boundary_tokens as usize
                    } else {
                        0
                    },
                    None => 0,
                },
            }),
    {
        let minimum_boundary: usize = match initial_bundle {
            Some(key) => if key.boundary_tokens <= usize::MAX as u64 {
                key.boundary_tokens as usize
            } else {
                0
            },
            None => 0,
        };
        Self::new(identity, sequence_hashes, computed_tokens, eligible_blocks, block_size)
            .with_minimum_boundary(minimum_boundary)
    }

    /// Pins the greatest complete boundary.
    pub fn find<P: BundleResourcePin>(&self, index: &BundleIndex<P>) -> (r: Option<
        BundleFindMatch<P>,
    >)
        ensures
            longest_lease(index@, self@.identity, self@.candidates(), match_lease(r)),
            r is Some ==> r->Some_0.matched() == r->Some_0.lease_view().key.boundary_tokens
                - self@.computed_tokens,
    {
        proof {
            use_type_invariant(self);
        }
        let candidates = self.candidates();
        let found = index.find_longest(self.identity, candidates.as_slice());
        match found {
            Some(lease) => {
                let boundary_tokens: u64 = lease.key().boundary_tokens;
                proof {
                    let at = choose|at: int|
                        {
                            &&& 0 <= at < candidates@.len()
                            &&& self.identity@.aligned(candidates@[at].1)
                            &&& lease_of(
                                index@,
                                candidate_key(self.identity@, candidates@[at]),
                                lease@,
                            )
                            &&& forall|i: int|
                                0 <= i < candidates@.len() && (candidates@[i].1
                                    > candidates@[at].1 || candidates@[i].1 == candidates@[at].1
                                    && i > at) ==> #[trigger] candidate_gone(
                                    index@,
                                    self.identity@,
                                    candidates@,
                                    i,
                                )
                        };
                    candidates_are_resumable(self@, self@.window(), at);
                }
                let matched_tokens: usize = (boundary_tokens - self.computed_tokens as u64) as usize;
                Some(BundleFindMatch { lease, matched_tokens })
            },
            None => None,
        }
    }

    /// Whether a key that was pinned before is still eligible.
    pub fn contains(&self, key: &BundleKey) -> (r: bool)
        ensures
            r == self@.contains(*key),
    {
        proof {
            use_type_invariant(self);
        }
        let base: usize = self.base_block_tokens;
        if key.boundary_tokens > usize::MAX as u64 {
            return false;
        }
        let boundary: usize = key.boundary_tokens as usize;
        proof {
            assert forall|block: int| #[trigger] self@.boundary(block) == boundary implies block + 1
                == boundary / base && boundary % base == 0 by {
                boundary_determines_block(block, base as int, boundary as int);
            }
        }
        if boundary <= self.computed_tokens || boundary < self.minimum_boundary || boundary % base
            != 0 {
            return false;
        }
        let blocks: usize = boundary / base;
        if blocks == 0 {
            return false;
        }
        let block: usize = blocks - 1;
        let window: usize = if self.eligible_blocks <= self.sequence_hashes.len() {
            self.eligible_blocks
        } else {
            self.sequence_hashes.len()
        };
        if !key.is_compatible_with(self.identity) || block >= window {
            return false;
        }
        proof {
            assert(blocks * base == boundary) by (nonlinear_arith)
                requires
                    blocks == boundary / base,
                    boundary % base == 0,
                    base > 0,
            ;
            assert(self@.boundary(block as int) == boundary);
        }
        self.sequence_hashes[block] == key.boundary_hash
    }

    /// The tokens that an eligible key would save.
    pub fn matched_tokens_for(&self, key: &BundleKey) -> (r: Option<usize>)
        ensures
            r is Some <==> self@.contains(*key),
            r is Some ==> r->Some_0 == key.boundary_tokens - self@.computed_tokens,
    {
        if !self.contains(key) {
            return None;
        }
        Some(key.boundary_tokens as usize - self.computed_tokens)
    }

    /// The keys of all eligible boundaries, from the longest down.
    pub fn candidate_keys(&self) -> (r: Vec<BundleKey>)
        ensures
            r@ == keys_of(self@.identity, self@.candidates()),
    {
        let candidates = self.candidates();
        let mut keys: Vec<BundleKey> = Vec::new();
        let mut at: usize = 0;
        while at < candidates.len()
            invariant
                at <= candidates@.len(),
                candidates@ == self@.candidates(),
                keys@ == keys_of(self@.identity, candidates@.subrange(0, at as int)),
            decreases candidates@.len() - at,
        {
            let (hash, tokens) = candidates[at];
            proof {
                candidates_are_resumable(self@, self@.window(), at as int);
            }
            if let Ok(key) = BundleKey::new(self.identity, hash, tokens) {
                keys.push(key);
            }
            at = at + 1;
            assert(keys@ =~= keys_of(self@.identity, candidates@.subrange(0, at as int)));
        }
        assert(candidates@.subrange(0, at as int) =~= candidates@);
        keys
    }

    /// The eligible boundaries, from the longest down.
    pub fn candidates(&self) -> (r: Vec<(SequenceHash, u64)>)
        ensures
            r@ == self@.candidates(),
    {
        proof {
            use_type_invariant(self);
        }
        let alignment: u64 = self.identity.alignment_tokens();
        let window: usize = if self.eligible_blocks <= self.sequence_hashes.len() {
            self.eligible_blocks
        } else {
            self.sequence_hashes.len()
        };
        let mut candidates: Vec<(SequenceHash, u64)> = Vec::new();
        let mut left: usize = window;
        assert(candidates@ + self@.candidates_below(left as int) =~= self@.candidates());
        while left > 0
            invariant
                left <= window,
                window == self@.window(),
                self.base_block_tokens > 0,
                alignment == self@.identity.alignment_tokens,
                alignment > 0,
                candidates@ + self@.candidates_below(left as int) == self@.candidates(),
            decreases left,
        {
            let ghost before = candidates@;
            let ghost rest = self@.candidates_below(left - 1);
            let boundary = left.checked_mul(self.base_block_tokens);
            proof {
                assert(self@.boundary(left - 1) == left * self.base_block_tokens);
            }
            match boundary {
                Some(boundary) => {
                    if boundary > self.computed_tokens && boundary >= self.minimum_boundary
                        && boundary as u64 % alignment == 0 {
                        candidates.push((self.sequence_hashes[left - 1], boundary as u64));
                    }
                },
                None => {},
            }
            left = left - 1;
            assert(candidates@ + rest =~= before + self@.candidates_below(left + 1));
        }
        assert(candidates@ + self@.candidates_below(0) =~= candidates@);
        candidates
    }
}

/// The keys of some boundaries.
pub open spec fn keys_of(
    identity: IdentityView,
    candidates: Seq<(SequenceHash, u64)>,
) -> Seq<BundleKey> {
    Seq::new(candidates.len(), |i: int| candidate_key(identity, candidates[i]))
}

proof fn boundary_determines_block(block: int, base: int, boundary: int)
    requires
        base > 0,
        (block + 1) * base == boundary,
    ensures
        block + 1 == boundary / base,
        boundary % base == 0,
{
    vstd::arithmetic::div_mod::lemma_div_multiples_vanish(block + 1, base);
    vstd::arithmetic::div_mod::lemma_mod_multiples_basic(block + 1, base);
}

/// Every candidate is the end of a resumable block.
proof fn candidates_are_resumable(find: FindView, end: int, at: int) -> (block: int)
    requires
        0 <= at < find.candidates_below(end).len(),
        end <= find.window(),
    ensures
        0 <= block < end,
        find.resumable(block),
        find.candidates_below(end)[at] == (find.hashes[block], find.boundary(block) as u64),
        find.boundary(block) == find.candidates_below(end)[at].1,
        find.candidates_below(end)[at].1 > 0,
        find.candidates_below(end)[at].1 > find.computed_tokens,
        find.identity.aligned(find.candidates_below(end)[at].1),
    decreases end,
{
    if end <= 0 {
        0
    } else if find.resumable(end - 1) {
        if at == 0 {
            end - 1
        } else {
            candidates_are_resumable(find, end - 1, at - 1)
        }
    } else {
        candidates_are_resumable(find, end - 1, at)
    }
}

/// Every resumable block is a candidate.
proof fn resumable_blocks_are_candidates(find: FindView, end: int, block: int) -> (at: int)
    requires
        0 <= block < end <= find.window(),
        find.resumable(block),
    ensures
        0 <= at < find.candidates_below(end).len(),
        find.candidates_below(end)[at] == (find.hashes[block], find.boundary(block) as u64),
    decreases end,
{
    if find.resumable(end - 1) {
        if block == end - 1 {
            0
        } else {
            resumable_blocks_are_candidates(find, end - 1, block) + 1
        }
    } else {
        resumable_blocks_are_candidates(find, end - 1, block)
    }
}

/// A pinned boundary with the tokens it saves.
#[derive(Debug)]
pub struct BundleFindMatch<P> {
    lease: BundleLease<P>,
    matched_tokens: usize,
}

/// The lease of an optional match.
pub open spec fn match_lease<P>(found: Option<BundleFindMatch<P>>) -> Option<LeaseView<P>> {
    match found {
        Some(found) => Some(found.lease_view()),
        None => None,
    }
}

impl<P> BundleFindMatch<P> {
    pub closed spec fn lease_view(self) -> LeaseView<P> {
        self.lease@
    }

    pub closed spec fn matched(self) -> usize {
        self.matched_tokens
    }

    pub fn key(&self) -> (r: &BundleKey)
        ensures
            *r == self.lease_view().key,
    {
        self.lease.key()
    }

    pub fn lease(&self) -> (r: &BundleLease<P>)
        ensures
            r@ == self.lease_view(),
    {
        &self.lease
    }

    pub fn matched_tokens(&self) -> (r: usize)
        ensures
            r == self.matched(),
    {
        self.matched_tokens
    }

    pub fn into_lease(self) -> (r: BundleLease<P>)
        ensures
            r@ == self.lease_view(),
    {
        self.lease
    }
}

/// A find pins the greatest committed boundary that the request may resume from: where no resource
/// is gone, no resumable committed boundary is longer than the match, and there is a match exactly
/// when some resumable boundary is committed.
pub proof fn find_returns_the_greatest_complete_boundary<P: BundleResourcePin>(
    find: FindView,
    committed: Committed<P::Reference>,
    lease: Option<LeaseView<P>>,
    block: int,
)
    requires
        longest_lease(committed, find.identity, find.candidates(), lease),
        forall|key: BundleKey| #[trigger]
            committed.contains_key(key) ==> !one_can_be_gone(committed[key].resources),
        find.resumable(block),
        committed.contains_key(
            candidate_key(find.identity, (find.hashes[block], find.boundary(block) as u64)),
        ),
    ensures
        lease is Some,
        lease->Some_0.key.boundary_tokens >= find.boundary(block),
{
    let at = resumable_blocks_are_candidates(find, find.window(), block);
    candidates_are_resumable(find, find.window(), at);
    let candidates = find.candidates();
    assert(candidate_committed(committed, find.identity, candidates[at]));
    assert(!candidate_gone(committed, find.identity, candidates, at));
}

/// What a find pins is committed, resumable, and still eligible for the very same request.
pub proof fn found_bundles_are_eligible<P: BundleResourcePin>(
    find: FindView,
    committed: Committed<P::Reference>,
    lease: LeaseView<P>,
)
    requires
        longest_lease(committed, find.identity, find.candidates(), Some(lease)),
    ensures
        committed.contains_key(lease.key),
        find.contains(lease.key),
        find.identity.aligned(lease.key.boundary_tokens),
        lease.key.boundary_tokens > find.computed_tokens,
        lease.key.boundary_tokens >= find.minimum_boundary,
{
    let candidates = find.candidates();
    let at = choose|at: int|
        {
            &&& 0 <= at < candidates.len()
            &&& find.identity.aligned(candidates[at].1)
            &&& lease_of(committed, candidate_key(find.identity, candidates[at]), lease)
            &&& forall|i: int|
                0 <= i < candidates.len() && (candidates[i].1 > candidates[at].1 || candidates[i].1
                    == candidates[at].1 && i > at) ==> #[trigger] candidate_gone(
                    committed,
                    find.identity,
                    candidates,
                    i,
                )
        };
    let block = candidates_are_resumable(find, find.window(), at);
    assert(find.boundary(block) == lease.key.boundary_tokens);
}

/// Candidates come from the longest boundary down, without repeats.
pub proof fn candidates_descend(find: FindView, i: int, j: int)
    requires
        0 <= i < j < find.candidates().len(),
        find.base_block_tokens > 0,
    ensures
        find.candidates()[i].1 > find.candidates()[j].1,
{
    candidates_below_descend(find, find.window(), i, j);
}

proof fn candidates_below_descend(find: FindView, end: int, i: int, j: int)
    requires
        0 <= i < j < find.candidates_below(end).len(),
        end <= find.window(),
        find.base_block_tokens > 0,
    ensures
        find.candidates_below(end)[i].1 > find.candidates_below(end)[j].1,
    decreases end,
{
    if end > 0 {
        if find.resumable(end - 1) {
            if i == 0 {
                let block = candidates_are_resumable(find, end - 1, j - 1);
                assert(find.boundary(end - 1) > find.boundary(block)) by (nonlinear_arith)
                    requires
                        find.boundary(end - 1) == end * find.base_block_tokens,
                        find.boundary(block) == (block + 1) * find.base_block_tokens,
                        block + 1 < end,
                        find.base_block_tokens > 0,
                ;
            } else {
                candidates_below_descend(find, end - 1, i - 1, j - 1);
            }
        } else {
            candidates_below_descend(find, end - 1, i, j);
        }
    }
}

/// The candidates are exactly the ends of the eligible hashed blocks that lie beyond what is
/// computed, no earlier than the minimum, on an aligned boundary.
pub proof fn candidates_are_exactly_the_resumable_ends(
    find: FindView,
    hash: SequenceHash,
    tokens: u64,
)
    ensures
        find.candidates().contains((hash, tokens)) <==> exists|block: int|
            {
                &&& 0 <= block < find.eligible_blocks
                &&& block < find.hashes.len()
                &&& #[trigger] find.hashes[block] == hash
                &&& tokens == (block + 1) * find.base_block_tokens
                &&& find.computed_tokens < tokens <= usize::MAX
                &&& tokens >= find.minimum_boundary
                &&& tokens as int % find.identity.alignment_tokens as int == 0
            },
{
    let all = find.candidates();
    if all.contains((hash, tokens)) {
        let at = choose|at: int| 0 <= at < all.len() && all[at] == (hash, tokens);
        let block = candidates_are_resumable(find, find.window(), at);
        assert(find.hashes[block] == hash);
    }
    if exists|block: int|
        {
            &&& 0 <= block < find.eligible_blocks
            &&& block < find.hashes.len()
            &&& #[trigger] find.hashes[block] == hash
            &&& tokens == (block + 1) * find.base_block_tokens
            &&& find.computed_tokens < tokens <= usize::MAX
            &&& tokens >= find.minimum_boundary
            &&& tokens as int % find.identity.alignment_tokens as int == 0
        } {
        let block = choose|block: int|
            {
                &&& 0 <= block < find.eligible_blocks
                &&& block < find.hashes.len()
                &&& #[trigger] find.hashes[block] == hash
                &&& tokens == (block + 1) * find.base_block_tokens
                &&& find.computed_tokens < tokens <= usize::MAX
                &&& tokens >= find.minimum_boundary
                &&& tokens as int % find.identity.alignment_tokens as int == 0
            };
        assert(find.resumable(block));
        let at = resumable_blocks_are_candidates(find, find.window(), block);
        assert(all[at] == (hash, tokens));
    }
}

/// A key on an aligned boundary is eligible exactly if it is one of the keys that a find looks for.
pub proof fn eligible_keys_are_those_looked_for(find: FindView, key: BundleKey)
    requires
        key.boundary_tokens as int % find.identity.alignment_tokens as int == 0,
    ensures
        find.contains(key) <==> key.manifest == find.identity.manifest
            && find.candidates().contains((key.boundary_hash, key.boundary_tokens)),
        find.contains(key) <==> keys_of(find.identity, find.candidates()).contains(key),
{
    let all = find.candidates();
    let keys = keys_of(find.identity, all);
    let pair = (key.boundary_hash, key.boundary_tokens);
    candidates_are_exactly_the_resumable_ends(find, key.boundary_hash, key.boundary_tokens);
    if find.contains(key) {
        let block = choose|block: int|
            0 <= block < find.window() && #[trigger] find.boundary(block) == key.boundary_tokens
                && find.hashes[block] == key.boundary_hash;
        assert(find.hashes[block] == key.boundary_hash);
    }
    if key.manifest == find.identity.manifest && all.contains(pair) {
        let at = choose|at: int| 0 <= at < all.len() && all[at] == pair;
        let block = candidates_are_resumable(find, find.window(), at);
        assert(find.boundary(block) == key.boundary_tokens);
        assert(keys[at] == key);
    }
    if keys.contains(key) {
        let at = choose|at: int| 0 <= at < keys.len() && keys[at] == key;
        assert(all[at] == pair);
    }
}

} // verus!
