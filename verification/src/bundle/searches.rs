//! The bundle finds that schedulers have in flight, from the first lookup to the last poll.

use crate::bundle::find::{
    found_bundles_are_eligible, keys_of, match_lease, BundleFindMatch, BundleFindQuery, FindView,
};
use crate::bundle::index::{
    longest_lease, BlockPin, BundleIndex, BundleLease, BundleResourcePin, Committed, LeaseView,
    PinnedBlock,
};
use crate::ids::{BundleKey, LogicalResourceId, SearchId};
use crate::manifest::{CacheIdentity, IdentityView};
use crate::onboard::plan::{
    searched_bundle_plan, searched_plan_made, transfers_checked, validate_resource_transfers,
    OnboardPlanError, ResourceDestination, SearchedPlan,
};
use crate::ordered::{KeyMap, KeySet};
use vstd::prelude::*;

verus! {

/// What the first lookup of a request leads to.
#[derive(Debug)]
pub enum StartedFind<P> {
    /// Nothing to resume from.
    Zero,
    Local(BundleFindMatch<P>),
    /// A longer bundle may be held elsewhere.
    Remote {
        target: BundleKey,
        candidates: Vec<BundleKey>,
        fallback: Option<BundleFindMatch<P>>,
    },
}

/// The keys beyond a boundary, in the order given.
pub open spec fn beyond(keys: Seq<BundleKey>, boundary_tokens: u64) -> Seq<BundleKey> {
    keys.filter(|key: BundleKey| key.boundary_tokens > boundary_tokens)
}

/// The boundary that a local match already reaches.
pub open spec fn local_boundary<P>(local: Option<BundleFindMatch<P>>) -> u64 {
    match local {
        Some(found) => found.lease_view().key.boundary_tokens,
        None => 0,
    }
}

/// Whether a remote search is worth starting for these candidates.
pub open spec fn wants_remote<P>(
    keys: Seq<BundleKey>,
    local: Option<BundleFindMatch<P>>,
    remote_eligible: bool,
    directory: bool,
) -> bool {
    &&& keys.len() > 0
    &&& !(local is Some && local->Some_0.lease_view().key == keys[0])
    &&& remote_eligible
    &&& directory
    &&& beyond(keys, local_boundary(local)).len() > 0
}

/// Whether deciding between a local match and a remote search can give this.
pub open spec fn find_planned<P>(
    keys: Seq<BundleKey>,
    local: Option<BundleFindMatch<P>>,
    remote_eligible: bool,
    directory: bool,
    r: StartedFind<P>,
) -> bool {
    let remote = wants_remote(keys, local, remote_eligible, directory);
    match r {
        StartedFind::Zero => keys.len() == 0 || local is None && !remote,
        StartedFind::Local(found) => keys.len() > 0 && local == Some(found) && !remote,
        StartedFind::Remote { target, candidates, fallback } => {
            &&& remote
            &&& target == keys[0]
            &&& candidates@ == beyond(keys, local_boundary(local))
            &&& fallback == local
        },
    }
}

/// Decides between a local match and a remote search, given what was found locally.
pub fn plan_find<P>(
    candidates: Vec<BundleKey>,
    local: Option<BundleFindMatch<P>>,
    remote_eligible: bool,
    directory: bool,
) -> (r: StartedFind<P>)
    ensures
        find_planned(candidates@, local, remote_eligible, directory, r),
{
    if candidates.len() == 0 {
        return StartedFind::Zero;
    }
    let target = candidates[0];
    let mut boundary_tokens: u64 = 0;
    let mut at_target = false;
    if let Some(found) = &local {
        boundary_tokens = found.key().boundary_tokens;
        at_target = *found.key() == target;
    }
    if !at_target && remote_eligible && directory {
        let remote = keys_beyond(candidates.as_slice(), boundary_tokens);
        if remote.len() > 0 {
            return StartedFind::Remote { target, candidates: remote, fallback: local };
        }
    }
    match local {
        Some(found) => StartedFind::Local(found),
        None => StartedFind::Zero,
    }
}

fn keys_beyond(keys: &[BundleKey], boundary_tokens: u64) -> (r: Vec<BundleKey>)
    ensures
        r@ == beyond(keys@, boundary_tokens),
{
    let ghost longer = |key: BundleKey| key.boundary_tokens > boundary_tokens;
    let mut kept: Vec<BundleKey> = Vec::new();
    let mut at: usize = 0;
    proof {
        reveal(Seq::filter);
        assert(keys@.subrange(0, 0).filter(longer) =~= Seq::<BundleKey>::empty());
    }
    while at < keys.len()
        invariant
            at <= keys@.len(),
            longer == (|key: BundleKey| key.boundary_tokens > boundary_tokens),
            kept@ == keys@.subrange(0, at as int).filter(longer),
        decreases keys@.len() - at,
    {
        let key = keys[at];
        proof {
            reveal(Seq::filter);
            let more = keys@.subrange(0, at + 1);
            assert(more.drop_last() =~= keys@.subrange(0, at as int));
            assert(more.last() == key);
        }
        if key.boundary_tokens > boundary_tokens {
            kept.push(key);
        }
        at = at + 1;
    }
    assert(keys@.subrange(0, at as int) =~= keys@);
    kept
}

/// Looks a request up locally and decides whether a remote search may do better.
pub fn start_bundle_find<P: BundleResourcePin>(
    query: &BundleFindQuery,
    index: &BundleIndex<P>,
    remote_eligible: bool,
    directory: bool,
) -> (r: StartedFind<P>)
    ensures
        ({
            let keys = keys_of(query@.identity, query@.candidates());
            match r {
                StartedFind::Zero => keys.len() == 0 || longest_lease(
                    index@,
                    query@.identity,
                    query@.candidates(),
                    None::<LeaseView<P>>,
                ) && !wants_remote(keys, None::<BundleFindMatch<P>>, remote_eligible, directory),
                StartedFind::Local(found) => {
                    &&& longest_lease(
                        index@,
                        query@.identity,
                        query@.candidates(),
                        Some(found.lease_view()),
                    )
                    &&& found.matched() == found.lease_view().key.boundary_tokens
                        - query@.computed_tokens
                    &&& !wants_remote(keys, Some(found), remote_eligible, directory)
                },
                StartedFind::Remote { target, candidates, fallback } => {
                    &&& longest_lease(
                        index@,
                        query@.identity,
                        query@.candidates(),
                        match_lease(fallback),
                    )
                    &&& wants_remote(keys, fallback, remote_eligible, directory)
                    &&& target == keys[0]
                    &&& candidates@ == beyond(keys, local_boundary(fallback))
                },
            }
        }),
{
    let local = query.find(index);
    let candidates = query.candidate_keys();
    plan_find(candidates, local, remote_eligible, directory)
}

/// What a poll tells the scheduler.
#[derive(Clone, Copy, Debug, PartialEq, Eq, Structural)]
pub enum FindBlocksOutcome {
    Resolved { matched_tokens: usize, minted: Option<SearchId>, release_parked: bool },
    Searching { minted: Option<SearchId> },
}

/// The answer that nothing matched.
pub open spec fn zero(release_parked: bool) -> FindBlocksOutcome {
    FindBlocksOutcome::Resolved { matched_tokens: 0, minted: None, release_parked }
}

pub fn zero_find(release_parked: bool) -> (r: FindBlocksOutcome)
    ensures
        r == zero(release_parked),
{
    FindBlocksOutcome::Resolved { matched_tokens: 0, minted: None, release_parked }
}

/// How a remote search ended.
#[derive(Debug)]
pub enum RemoteBundleResolution<P> {
    Selected(BundleLease<P>),
    /// The lease that was held from the start is still the best.
    Fallback,
    Miss,
}

/// What a poll finds of a remote search.
#[derive(Debug)]
pub enum RemotePoll<P> {
    Pending,
    Resolved(RemoteBundleResolution<P>),
    /// The search went away or failed without a resolution.
    Lost,
}

/// What backs a search.
#[derive(Debug)]
pub enum BundleSearchSource<P> {
    Local(BundleLease<P>),
    Remote { fallback: Option<BundleLease<P>> },
}

/// The mathematical content of a [`BundleSearchSource`].
pub enum SourceView<P> {
    Local(LeaseView<P>),
    Remote { fallback: Option<LeaseView<P>> },
}

impl<P> View for BundleSearchSource<P> {
    type V = SourceView<P>;

    open spec fn view(&self) -> SourceView<P> {
        match self {
            BundleSearchSource::Local(lease) => SourceView::Local(lease@),
            BundleSearchSource::Remote { fallback } => SourceView::Remote {
                fallback: crate::bundle::index::lease_view(*fallback),
            },
        }
    }
}

#[derive(Debug)]
struct BundleSearchState<P> {
    request_id: String,
    identity: CacheIdentity,
    source: BundleSearchSource<P>,
    computed_tokens: usize,
    matched_tokens: usize,
}

/// The mathematical content of one search.
pub struct SearchView<P> {
    pub request_id: Seq<char>,
    pub identity: IdentityView,
    pub source: SourceView<P>,
    pub computed_tokens: usize,
    pub matched_tokens: usize,
}

impl<P> View for BundleSearchState<P> {
    type V = SearchView<P>;

    closed spec fn view(&self) -> SearchView<P> {
        SearchView {
            request_id: self.request_id@,
            identity: self.identity@,
            source: self.source@,
            computed_tokens: self.computed_tokens,
            matched_tokens: self.matched_tokens,
        }
    }
}

/// A poll that does not belong to the search it names.
#[derive(Clone, Copy, Debug, PartialEq, Eq, Structural)]
pub struct FindBlocksDesync;

/// The lease that a poll goes on with, where the search is not still pending.
pub open spec fn polled_lease<P>(source: SourceView<P>, poll: RemotePoll<P>) -> Option<
    LeaseView<P>,
> {
    match source {
        SourceView::Local(lease) => Some(lease),
        SourceView::Remote { fallback } => match poll {
            RemotePoll::Resolved(RemoteBundleResolution::Selected(lease)) => Some(lease@),
            RemotePoll::Resolved(RemoteBundleResolution::Miss) => None,
            _ => fallback,
        },
    }
}

/// Whether a poll finds the search still under way.
pub open spec fn still_pending<P>(source: SourceView<P>, poll: RemotePoll<P>) -> bool {
    source is Remote && poll is Pending
}

/// Whether a poll of the searches in flight can leave these and give this.
pub open spec fn find_refreshed<P: BundleResourcePin>(
    before: Map<SearchId, SearchView<P>>,
    search_id: SearchId,
    request_id: Seq<char>,
    identity: IdentityView,
    computed_tokens: usize,
    query: FindView,
    committed: Committed<P::Reference>,
    poll: RemotePoll<P>,
    after: Map<SearchId, SearchView<P>>,
    r: Result<FindBlocksOutcome, FindBlocksDesync>,
) -> bool {
    let known = before.contains_key(search_id) && before[search_id].request_id == request_id
        && before[search_id].identity == identity;
    let search = before[search_id];
    let lease = polled_lease(search.source, poll);
    let kept = |lease: LeaseView<P>, matched_tokens: int|
        {
            &&& r == Ok::<FindBlocksOutcome, FindBlocksDesync>(
                FindBlocksOutcome::Resolved {
                    matched_tokens: matched_tokens as usize,
                    minted: None,
                    release_parked: false,
                },
            )
            &&& after == before.insert(
                search_id,
                SearchView {
                    source: SourceView::Local(lease),
                    computed_tokens,
                    matched_tokens: matched_tokens as usize,
                    ..search
                },
            )
        };
    let ended = r == Ok::<FindBlocksOutcome, FindBlocksDesync>(zero(true)) && after
        == before.remove(search_id);
    if !known {
        r is Err && after == before
    } else if still_pending(search.source, poll) {
        r == Ok::<FindBlocksOutcome, FindBlocksDesync>(
            FindBlocksOutcome::Searching { minted: None },
        ) && after == before
    } else if lease is None {
        ended
    } else if query.contains(lease->Some_0.key) {
        kept(lease->Some_0, lease->Some_0.key.boundary_tokens - query.computed_tokens)
    } else {
        ||| ended && longest_lease(
            committed,
            query.identity,
            query.candidates(),
            None::<LeaseView<P>>,
        )
        ||| exists|found: LeaseView<P>| #[trigger]
            longest_lease(committed, query.identity, query.candidates(), Some(found)) && kept(
                found,
                found.key.boundary_tokens - query.computed_tokens,
            )
    }
}

/// The searches in flight.
pub struct BundleSearches<P> {
    searches: KeyMap<SearchId, BundleSearchState<P>>,
}

impl<P> View for BundleSearches<P> {
    type V = Map<SearchId, SearchView<P>>;

    closed spec fn view(&self) -> Map<SearchId, SearchView<P>> {
        self.searches@.map_values(|search: BundleSearchState<P>| search@)
    }
}

impl<P> BundleSearches<P> {
    pub fn new() -> (r: Self)
        ensures
            r@ == Map::<SearchId, SearchView<P>>::empty(),
    {
        let r = BundleSearches { searches: KeyMap::new() };
        assert(r@ =~= Map::<SearchId, SearchView<P>>::empty());
        r
    }

    fn put(&mut self, search_id: SearchId, search: BundleSearchState<P>)
        ensures
            final(self)@ == old(self)@.insert(search_id, search@),
    {
        self.searches.insert(search_id, search);
        assert(self@ =~= old(self)@.insert(search_id, search@));
    }

    fn take(&mut self, search_id: &SearchId) -> (r: Option<BundleSearchState<P>>)
        ensures
            final(self)@ == old(self)@.remove(*search_id),
            r is Some <==> old(self)@.contains_key(*search_id),
            r is Some ==> r->Some_0@ == old(self)@[*search_id],
    {
        let r = self.searches.remove(search_id);
        assert(self@ =~= old(self)@.remove(*search_id));
        r
    }

    /// Registers a local match under a fresh search.
    pub fn install_local_find(
        &mut self,
        search_id: SearchId,
        request_id: String,
        identity: CacheIdentity,
        computed_tokens: usize,
        found: BundleFindMatch<P>,
    ) -> (r: FindBlocksOutcome)
        ensures
            final(self)@ == old(self)@.insert(
                search_id,
                SearchView {
                    request_id: request_id@,
                    identity: identity@,
                    source: SourceView::Local(found.lease_view()),
                    computed_tokens,
                    matched_tokens: found.matched(),
                },
            ),
            r == (FindBlocksOutcome::Resolved {
                matched_tokens: found.matched(),
                minted: Some(search_id),
                release_parked: false,
            }),
    {
        let matched_tokens: usize = found.matched_tokens();
        self.put(
            search_id,
            BundleSearchState {
                request_id,
                identity,
                source: BundleSearchSource::Local(found.into_lease()),
                computed_tokens,
                matched_tokens,
            },
        );
        FindBlocksOutcome::Resolved { matched_tokens, minted: Some(search_id), release_parked: false }
    }

    /// Registers a remote search under a fresh identifier; a local match stays leased meanwhile.
    pub fn start_remote_bundle_find(
        &mut self,
        search_id: SearchId,
        request_id: String,
        identity: CacheIdentity,
        computed_tokens: usize,
        fallback: Option<BundleFindMatch<P>>,
    ) -> (r: FindBlocksOutcome)
        ensures
            final(self)@ == old(self)@.insert(
                search_id,
                SearchView {
                    request_id: request_id@,
                    identity: identity@,
                    source: SourceView::Remote { fallback: match_lease(fallback) },
                    computed_tokens,
                    matched_tokens: match fallback {
                        Some(found) => found.matched(),
                        None => 0,
                    },
                },
            ),
            r == (FindBlocksOutcome::Searching { minted: Some(search_id) }),
    {
        let mut matched_tokens: usize = 0;
        let fallback = match fallback {
            Some(found) => {
                matched_tokens = found.matched_tokens();
                Some(found.into_lease())
            },
            None => None,
        };
        self.put(
            search_id,
            BundleSearchState {
                request_id,
                identity,
                source: BundleSearchSource::Remote { fallback },
                computed_tokens,
                matched_tokens,
            },
        );
        FindBlocksOutcome::Searching { minted: Some(search_id) }
    }

    /// Drops a search and its lease.
    pub fn release(&mut self, search_id: &SearchId) -> (r: bool)
        ensures
            final(self)@ == old(self)@.remove(*search_id),
            r == old(self)@.contains_key(*search_id),
    {
        self.take(search_id).is_some()
    }
}

impl<P: BundleResourcePin> BundleSearches<P> {
    /// Polls a search: keeps a lease that is still eligible, replaces one that is not by the best
    /// local bundle, and ends the search where there is neither.
    pub fn refresh_bundle_find(
        &mut self,
        search_id: SearchId,
        request_id: &String,
        query: &BundleFindQuery,
        identity: &CacheIdentity,
        computed_tokens: usize,
        index: &BundleIndex<P>,
        poll: RemotePoll<P>,
    ) -> (r: Result<FindBlocksOutcome, FindBlocksDesync>)
        ensures
            find_refreshed(
                old(self)@,
                search_id,
                request_id@,
                identity@,
                computed_tokens,
                query@,
                index@,
                poll,
                final(self)@,
                r,
            ),
    {
        let ghost before = self@;
        let state = match self.take(&search_id) {
            Some(state) => state,
            None => {
                assert(self@ =~= before);
                return Err(FindBlocksDesync);
            },
        };
        if state.request_id != *request_id || !state.identity.same_as(identity) {
            self.put(search_id, state);
            assert(self@ =~= before);
            return Err(FindBlocksDesync);
        }
        let BundleSearchState {
            request_id: owner,
            identity: searched,
            source,
            computed_tokens: earlier_computed,
            matched_tokens: earlier_matched,
        } = state;
        let lease = match source {
            BundleSearchSource::Local(lease) => Some(lease),
            BundleSearchSource::Remote { fallback } => match poll {
                RemotePoll::Pending => {
                    self.put(
                        search_id,
                        BundleSearchState {
                            request_id: owner,
                            identity: searched,
                            source: BundleSearchSource::Remote { fallback },
                            computed_tokens: earlier_computed,
                            matched_tokens: earlier_matched,
                        },
                    );
                    assert(self@ =~= before);
                    return Ok(FindBlocksOutcome::Searching { minted: None });
                },
                RemotePoll::Resolved(resolution) => match resolution {
                    RemoteBundleResolution::Selected(lease) => Some(lease),
                    RemoteBundleResolution::Fallback => fallback,
                    RemoteBundleResolution::Miss => None,
                },
                RemotePoll::Lost => fallback,
            },
        };
        let lease = match lease {
            Some(lease) => lease,
            None => {
                return Ok(zero_find(true));
            },
        };
        let ghost held = lease@;
        let next = match query.matched_tokens_for(lease.key()) {
            Some(matched_tokens) => Some((lease, matched_tokens)),
            None => match query.find(index) {
                Some(found) => {
                    let matched_tokens: usize = found.matched_tokens();
                    Some((found.into_lease(), matched_tokens))
                },
                None => None,
            },
        };
        match next {
            Some((lease, matched_tokens)) => {
                self.put(
                    search_id,
                    BundleSearchState {
                        request_id: owner,
                        identity: searched,
                        source: BundleSearchSource::Local(lease),
                        computed_tokens,
                        matched_tokens,
                    },
                );
                proof {
                    assert(self@ =~= before.insert(
                        search_id,
                        SearchView {
                            source: SourceView::Local(lease@),
                            computed_tokens,
                            matched_tokens,
                            ..before[search_id]
                        },
                    ));
                }
                Ok(
                    FindBlocksOutcome::Resolved {
                        matched_tokens,
                        minted: None,
                        release_parked: false,
                    },
                )
            },
            None => Ok(zero_find(true)),
        }
    }
}

/// Why a search cannot be turned into a load.
#[derive(Clone, Copy, Debug, PartialEq, Eq, Structural)]
pub enum SearchedOnboardError {
    SearchNotMatched,
    Desync,
    ExternalTokensMismatch { expected: usize, got: usize },
    Plan(OnboardPlanError),
}

/// The lease that a search has settled on.
pub open spec fn settled_lease<P>(source: SourceView<P>) -> Option<LeaseView<P>> {
    match source {
        SourceView::Local(lease) => Some(lease),
        SourceView::Remote { .. } => None,
    }
}

/// Whether turning a search into a load can leave these searches and give this.
pub open spec fn searched_load_started<H: BlockPin>(
    before: Map<SearchId, SearchView<Vec<PinnedBlock<H>>>>,
    search_id: Option<SearchId>,
    request_id: Seq<char>,
    destinations: Seq<ResourceDestination>,
    num_external_tokens: usize,
    managed: Set<LogicalResourceId>,
    after: Map<SearchId, SearchView<Vec<PinnedBlock<H>>>>,
    r: Result<SearchedPlan<H>, SearchedOnboardError>,
) -> bool {
    let known = search_id is Some && before.contains_key(search_id->Some_0);
    let search = before[search_id->Some_0];
    let lease = settled_lease(search.source);
    match r {
        Ok(searched) => {
            &&& known
            &&& search.request_id == request_id
            &&& search.matched_tokens == num_external_tokens
            &&& searched_plan_made(
                search.identity,
                lease,
                search.computed_tokens,
                destinations,
                Ok(searched),
            )
            &&& transfers_checked(searched.plan.resources@, managed, Ok(()))
            &&& after == before.remove(search_id->Some_0)
        },
        Err(e) => {
            &&& after == before
            &&& match e {
                SearchedOnboardError::SearchNotMatched => !known,
                SearchedOnboardError::Desync => known && search.request_id != request_id,
                SearchedOnboardError::ExternalTokensMismatch { expected, got } => {
                    &&& known
                    &&& search.request_id == request_id
                    &&& expected == search.matched_tokens
                    &&& got == num_external_tokens
                    &&& expected != got
                },
                SearchedOnboardError::Plan(e) => {
                    &&& known
                    &&& search.request_id == request_id
                    &&& search.matched_tokens == num_external_tokens
                    &&& searched_plan_made(
                        search.identity,
                        lease,
                        search.computed_tokens,
                        destinations,
                        Err(e),
                    ) || exists|searched: SearchedPlan<H>| #[trigger]
                        searched_plan_made(
                            search.identity,
                            lease,
                            search.computed_tokens,
                            destinations,
                            Ok(searched),
                        ) && transfers_checked(searched.plan.resources@, managed, Err(e))
                },
            }
        },
    }
}

impl<H: BlockPin> BundleSearches<Vec<PinnedBlock<H>>> {
    /// Turns a settled search into the copies that load its bundle. The search ends only where
    /// that succeeds.
    pub fn start_searched_bundle_onboard(
        &mut self,
        search_id: Option<SearchId>,
        request_id: &String,
        destinations: Vec<ResourceDestination>,
        num_external_tokens: usize,
        managed: &KeySet<LogicalResourceId>,
    ) -> (r: Result<SearchedPlan<H>, SearchedOnboardError>)
        ensures
            searched_load_started(
                old(self)@,
                search_id,
                request_id@,
                destinations@,
                num_external_tokens,
                managed@,
                final(self)@,
                r,
            ),
    {
        let search_id = match search_id {
            Some(search_id) => search_id,
            None => {
                return Err(SearchedOnboardError::SearchNotMatched);
            },
        };
        let state = match self.searches.get(&search_id) {
            Some(state) => state,
            None => {
                return Err(SearchedOnboardError::SearchNotMatched);
            },
        };
        if state.request_id != *request_id {
            return Err(SearchedOnboardError::Desync);
        }
        if state.matched_tokens != num_external_tokens {
            return Err(
                SearchedOnboardError::ExternalTokensMismatch {
                    expected: state.matched_tokens,
                    got: num_external_tokens,
                },
            );
        }
        let lease = match &state.source {
            BundleSearchSource::Local(lease) => Some(lease),
            BundleSearchSource::Remote { .. } => None,
        };
        let searched = match searched_bundle_plan(
            &state.identity,
            lease,
            state.computed_tokens,
            destinations,
        ) {
            Ok(searched) => searched,
            Err(e) => {
                return Err(SearchedOnboardError::Plan(e));
            },
        };
        match validate_resource_transfers(searched.plan.resources.as_slice(), managed) {
            Ok(()) => {},
            Err(e) => {
                return Err(SearchedOnboardError::Plan(e));
            },
        }
        self.take(&search_id);
        Ok(searched)
    }
}

/// A remote search asks for exactly the eligible bundles that are longer than what is leased
/// locally.
pub proof fn remote_search_asks_only_for_longer_bundles(
    keys: Seq<BundleKey>,
    boundary_tokens: u64,
    key: BundleKey,
)
    ensures
        beyond(keys, boundary_tokens).contains(key) <==> keys.contains(key) && key.boundary_tokens
            > boundary_tokens,
{
    let longer = |key: BundleKey| key.boundary_tokens > boundary_tokens;
    if keys.contains(key) && longer(key) {
        let at = choose|at: int| 0 <= at < keys.len() && keys[at] == key;
        keys.lemma_filter_contains(longer, at);
    }
    if keys.filter(longer).contains(key) {
        let at = choose|at: int| 0 <= at < keys.filter(longer).len() && keys.filter(longer)[at] == key;
        keys.lemma_filter_pred(longer, at);
        keys.lemma_filter_contains_rev(longer, key);
    }
}

/// A poll that finds a remote search resolved to a selected lease goes on with that very lease:
/// where the query still wants it, the answer is the tokens up to its boundary and the search rests
/// on it, whatever was leased before.
pub proof fn a_selected_lease_is_what_the_search_goes_on_with<P: BundleResourcePin>(
    before: Map<SearchId, SearchView<P>>,
    search_id: SearchId,
    computed_tokens: usize,
    query: FindView,
    committed: Committed<P::Reference>,
    lease: BundleLease<P>,
    after: Map<SearchId, SearchView<P>>,
    r: Result<FindBlocksOutcome, FindBlocksDesync>,
)
    requires
        before.contains_key(search_id),
        before[search_id].source is Remote,
        query.contains(lease@.key),
        find_refreshed(
            before,
            search_id,
            before[search_id].request_id,
            before[search_id].identity,
            computed_tokens,
            query,
            committed,
            RemotePoll::Resolved(RemoteBundleResolution::Selected(lease)),
            after,
            r,
        ),
    ensures
        r matches Ok(FindBlocksOutcome::Resolved { matched_tokens, minted, release_parked }) && {
            &&& matched_tokens == lease@.key.boundary_tokens - query.computed_tokens
            &&& minted is None
            &&& !release_parked
            &&& after[search_id].matched_tokens == matched_tokens
        },
        after.contains_key(search_id),
        after[search_id].source == SourceView::Local(lease@),
        after[search_id].computed_tokens == computed_tokens,
        after[search_id].request_id == before[search_id].request_id,
        after[search_id].identity == before[search_id].identity,
        forall|other: SearchId|
            other != search_id ==> (#[trigger] after.contains_key(other) <==> before.contains_key(
                other,
            )) && after[other] == before[other],
{
}

/// A search goes on with the lease it holds, where the query still wants it: a settled one whatever
/// the poll says, a remote one where the lookup came back to that lease or went away.
pub proof fn a_held_lease_is_kept_while_it_is_wanted<P: BundleResourcePin>(
    before: Map<SearchId, SearchView<P>>,
    search_id: SearchId,
    computed_tokens: usize,
    query: FindView,
    committed: Committed<P::Reference>,
    poll: RemotePoll<P>,
    lease: LeaseView<P>,
    after: Map<SearchId, SearchView<P>>,
    r: Result<FindBlocksOutcome, FindBlocksDesync>,
)
    requires
        before.contains_key(search_id),
        before[search_id].source == SourceView::Local(lease) || before[search_id].source == (
        SourceView::Remote { fallback: Some(lease) }) && (poll is Lost || poll == RemotePoll::<
            P,
        >::Resolved(RemoteBundleResolution::Fallback)),
        query.contains(lease.key),
        find_refreshed(
            before,
            search_id,
            before[search_id].request_id,
            before[search_id].identity,
            computed_tokens,
            query,
            committed,
            poll,
            after,
            r,
        ),
    ensures
        r matches Ok(FindBlocksOutcome::Resolved { matched_tokens, minted, release_parked }) && {
            &&& matched_tokens == lease.key.boundary_tokens - query.computed_tokens
            &&& minted is None
            &&& !release_parked
            &&& after[search_id].matched_tokens == matched_tokens
        },
        after[search_id].source == SourceView::Local(lease),
        after[search_id].computed_tokens == computed_tokens,
        after.dom() == before.dom(),
{
    assert(after.dom() =~= before.dom());
}

/// A remote search that ends with nothing is over: nothing matched, what was parked is released and
/// the search is gone. One that found nothing drops what it fell back to as well.
pub proof fn a_search_without_a_lease_ends<P: BundleResourcePin>(
    before: Map<SearchId, SearchView<P>>,
    search_id: SearchId,
    computed_tokens: usize,
    query: FindView,
    committed: Committed<P::Reference>,
    poll: RemotePoll<P>,
    after: Map<SearchId, SearchView<P>>,
    r: Result<FindBlocksOutcome, FindBlocksDesync>,
)
    requires
        before.contains_key(search_id),
        before[search_id].source is Remote,
        poll == RemotePoll::<P>::Resolved(RemoteBundleResolution::Miss) || before[search_id].source
            == (SourceView::<P>::Remote { fallback: None }) && (poll is Lost || poll
            == RemotePoll::<P>::Resolved(RemoteBundleResolution::Fallback)),
        find_refreshed(
            before,
            search_id,
            before[search_id].request_id,
            before[search_id].identity,
            computed_tokens,
            query,
            committed,
            poll,
            after,
            r,
        ),
    ensures
        r == Ok::<FindBlocksOutcome, FindBlocksDesync>(
            FindBlocksOutcome::Resolved { matched_tokens: 0, minted: None, release_parked: true },
        ),
        after == before.remove(search_id),
{
}

/// A poll changes nothing while the remote search is under way, nor where it names another
/// request's search: then it is refused.
pub proof fn early_and_foreign_polls_change_nothing<P: BundleResourcePin>(
    before: Map<SearchId, SearchView<P>>,
    search_id: SearchId,
    request_id: Seq<char>,
    identity: IdentityView,
    computed_tokens: usize,
    query: FindView,
    committed: Committed<P::Reference>,
    poll: RemotePoll<P>,
    after: Map<SearchId, SearchView<P>>,
    r: Result<FindBlocksOutcome, FindBlocksDesync>,
)
    requires
        find_refreshed(
            before,
            search_id,
            request_id,
            identity,
            computed_tokens,
            query,
            committed,
            poll,
            after,
            r,
        ),
    ensures
        r is Err <==> !before.contains_key(search_id) || before[search_id].request_id != request_id
            || before[search_id].identity != identity,
        r is Err ==> after == before,
        r is Ok ==> (before[search_id].source is Remote && poll is Pending <==> r == Ok::<
            FindBlocksOutcome,
            FindBlocksDesync,
        >(FindBlocksOutcome::Searching { minted: None })),
        r is Ok && r->Ok_0 is Searching ==> after == before,
{
}

/// Whatever a poll answers, the search then rests on a bundle of the tokens that were answered, or
/// nothing matched and the search is gone.
pub proof fn answered_tokens_are_backed_by_a_lease<P: BundleResourcePin>(
    before: Map<SearchId, SearchView<P>>,
    search_id: SearchId,
    request_id: Seq<char>,
    identity: IdentityView,
    computed_tokens: usize,
    query: FindView,
    committed: Committed<P::Reference>,
    poll: RemotePoll<P>,
    after: Map<SearchId, SearchView<P>>,
    matched_tokens: usize,
    minted: Option<SearchId>,
    release_parked: bool,
)
    requires
        find_refreshed(
            before,
            search_id,
            request_id,
            identity,
            computed_tokens,
            query,
            committed,
            poll,
            after,
            Ok(FindBlocksOutcome::Resolved { matched_tokens, minted, release_parked }),
        ),
    ensures
        minted is None,
        release_parked <==> !after.contains_key(search_id),
        release_parked ==> matched_tokens == 0,
        !release_parked ==> {
            &&& after[search_id].source is Local
            &&& query.computed_tokens + matched_tokens
                == after[search_id].source->Local_0.key.boundary_tokens
            &&& matched_tokens > 0
            &&& after[search_id].matched_tokens == matched_tokens
        },
{
    let search = before[search_id];
    let lease = polled_lease(search.source, poll);
    if !release_parked && lease is Some && !query.contains(lease->Some_0.key) {
        assert forall|found: LeaseView<P>| #[trigger]
            longest_lease(
                committed,
                query.identity,
                query.candidates(),
                Some(found),
            ) implies query.computed_tokens < found.key.boundary_tokens <= usize::MAX by {
            found_bundles_are_eligible(query, committed, found);
        }
    }
}

/// A remote search is started exactly if the request may be served remotely, there is a directory,
/// what is leased locally is not the longest candidate already, and some candidate is longer than
/// it.
pub proof fn remote_searches_start_for_longer_bundles<P>(
    keys: Seq<BundleKey>,
    local: Option<BundleFindMatch<P>>,
    remote_eligible: bool,
    directory: bool,
)
    ensures
        wants_remote(keys, local, remote_eligible, directory) <==> {
            &&& remote_eligible
            &&& directory
            &&& local is None || local->Some_0.lease_view().key != keys[0]
            &&& exists|i: int|
                {
                    &&& 0 <= i < keys.len()
                    &&& (#[trigger] keys[i]).boundary_tokens > match local {
                        Some(found) => found.lease_view().key.boundary_tokens as int,
                        None => 0,
                    }
                }
        },
{
    let boundary = local_boundary(local);
    let longer = beyond(keys, boundary);
    assert forall|key: BundleKey| #[trigger]
        longer.contains(key) <==> keys.contains(key) && key.boundary_tokens > boundary by {
        remote_search_asks_only_for_longer_bundles(keys, boundary, key);
    }
    if longer.len() > 0 {
        assert(longer.contains(longer[0]));
        let i = choose|i: int| 0 <= i < keys.len() && keys[i] == longer[0];
        assert(keys[i].boundary_tokens > boundary);
    }
    if exists|i: int| 0 <= i < keys.len() && (#[trigger] keys[i]).boundary_tokens > boundary {
        let i = choose|i: int| 0 <= i < keys.len() && (#[trigger] keys[i]).boundary_tokens > boundary;
        assert(keys.contains(keys[i]));
        assert(longer.contains(keys[i]));
    }
}

/// A first lookup never loses what it found: with a local match the request gets it, or a remote
/// search that falls back to it; only a request with neither a match nor a search gets nothing. A
/// remote search is for the longest candidate, and asks only for candidates beyond the match.
pub proof fn first_lookups_keep_the_local_match<P>(
    keys: Seq<BundleKey>,
    local: Option<BundleFindMatch<P>>,
    remote_eligible: bool,
    directory: bool,
    r: StartedFind<P>,
)
    requires
        find_planned(keys, local, remote_eligible, directory, r),
        local is Some ==> keys.len() > 0,
    ensures
        match r {
            StartedFind::Zero => local is None,
            StartedFind::Local(found) => local == Some(found),
            StartedFind::Remote { target, candidates, fallback } => {
                &&& fallback == local
                &&& remote_eligible && directory
                &&& target == keys[0]
                &&& candidates@.len() > 0
                &&& forall|key: BundleKey| #[trigger]
                    candidates@.contains(key) <==> keys.contains(key) && key.boundary_tokens
                        > match local {
                        Some(found) => found.lease_view().key.boundary_tokens as int,
                        None => 0,
                    }
            },
        },
        !remote_eligible || !directory ==> !(r is Remote),
{
    if let StartedFind::Remote { target, candidates, fallback } = r {
        assert forall|key: BundleKey| #[trigger]
            candidates@.contains(key) <==> keys.contains(key) && key.boundary_tokens > match local {
                Some(found) => found.lease_view().key.boundary_tokens as int,
                None => 0,
            } by {
            remote_search_asks_only_for_longer_bundles(keys, local_boundary(local), key);
        }
    }
}

/// A load is started only from a search that has settled on a lease, for its own request and for
/// exactly the tokens that were answered; it loads the bundle of that lease, and only then the
/// search ends. Any refusal leaves every search as it was.
pub proof fn loads_start_from_the_settled_lease<H: BlockPin>(
    before: Map<SearchId, SearchView<Vec<PinnedBlock<H>>>>,
    search_id: SearchId,
    request_id: Seq<char>,
    destinations: Seq<ResourceDestination>,
    num_external_tokens: usize,
    managed: Set<LogicalResourceId>,
    after: Map<SearchId, SearchView<Vec<PinnedBlock<H>>>>,
    r: Result<SearchedPlan<H>, SearchedOnboardError>,
    other: SearchId,
)
    requires
        searched_load_started(
            before,
            Some(search_id),
            request_id,
            destinations,
            num_external_tokens,
            managed,
            after,
            r,
        ),
    ensures
        r is Err ==> after == before,
        r is Ok ==> {
            let search = before[search_id];
            &&& before.contains_key(search_id)
            &&& search.request_id == request_id
            &&& search.matched_tokens == num_external_tokens
            &&& search.source matches SourceView::Local(lease) && r->Ok_0.plan.key == lease.key
            &&& r->Ok_0.plan.identity@ == search.identity
            &&& !after.contains_key(search_id)
        },
        other != search_id ==> (after.contains_key(other) <==> before.contains_key(other))
            && after[other] == before[other],
        r is Err ==> (r->Err_0 is SearchNotMatched <==> !before.contains_key(search_id)),
        before.contains_key(search_id) && r is Err ==> (r->Err_0 is Desync
            <==> before[search_id].request_id != request_id),
        before.contains_key(search_id) && before[search_id].request_id == request_id && r is Err
            ==> (r->Err_0 is ExternalTokensMismatch <==> before[search_id].matched_tokens
            != num_external_tokens),
{
}

/// A load goes on from the tokens that were computed when its search was last polled: the first
/// block of a history that it copies is the leased one that holds the next of them, and it goes to
/// the same place of the request.
pub proof fn loads_go_on_from_the_computed_tokens<H: BlockPin>(
    before: Map<SearchId, SearchView<Vec<PinnedBlock<H>>>>,
    search_id: SearchId,
    request_id: Seq<char>,
    destinations: Seq<ResourceDestination>,
    num_external_tokens: usize,
    managed: Set<LogicalResourceId>,
    after: Map<SearchId, SearchView<Vec<PinnedBlock<H>>>>,
    searched: SearchedPlan<H>,
    i: int,
    d: int,
)
    requires
        searched_load_started(
            before,
            Some(search_id),
            request_id,
            destinations,
            num_external_tokens,
            managed,
            after,
            Ok(searched),
        ),
        before[search_id].identity.wf(),
        0 <= i < before[search_id].identity.resources.len(),
        before[search_id].identity.resources[i].role is PrefixHistory,
        0 <= d < destinations.len(),
        destinations[d].resource == before[search_id].identity.resources[i].resource,
    ensures
        ({
            let search = before[search_id];
            let requirement = search.identity.resources[i];
            let first = search.computed_tokens as int / requirement.native_block_tokens as int;
            let copy = searched.plan.resources@[i];
            &&& search.source matches SourceView::Local(lease)
            &&& copy.source_block_ids@[0] == lease.resources[requirement.resource]@[first].block_id
            &&& copy.destination_block_ids@[0] == destinations[d].block_ids@[first]
        }),
{
    let search = before[search_id];
    let lease = search.source->Local_0;
    crate::onboard::plan::loaded_blocks_reach_the_boundary(
        search.identity,
        lease,
        search.computed_tokens,
        destinations,
        searched,
        i,
        d,
    );
    crate::onboard::plan::loaded_blocks_keep_their_places(
        search.identity,
        lease,
        search.computed_tokens,
        destinations,
        searched,
        i,
        d,
        0,
    );
}

} // verus!
