//! The life of one bundle offload, from its validated plan to its single verdict.

use crate::bundle::admission::{offload_ids, BundleOffloadPlan, ResourceOffload};
use crate::bundle::barrier::{BarrierState, BarrierView};
use crate::bundle::catalog::{
    after_refusal, catalog_commits, catalog_has_room, catalog_refuses, BundleCatalog,
    BundleCatalogError, CatalogView,
};
use crate::bundle::index::{BlockPin, BundleResourcePin, CommitDisposition};
use crate::bundle::offload::{
    offload_answer, offload_commits_only_complete_bundles, BundleOffload, BundleOffloadError,
    BundleResourceFailure, CommitView, OffloadTransition, OffloadTransitionView, OffloadView,
};
use crate::ids::{BlockId, BundleKey, LogicalResourceId, SequenceHash};
use crate::lists::copy_block_ids;
use crate::manifest::CacheIdentity;
use crate::offload::drain::{BundleChildDrain, DrainView};
use crate::offload::plan::{
    plan_fits, plan_lineages, plan_refused, validate_bundle_offload, OffloadPlanError,
};
use crate::offload::status::{
    optional_blocks, optional_status, ActionFailure, ActionStatus, StatusView,
};
use crate::ordered::{distinct_up_to, firsts, occurs_before, KeySet};
use crate::policy::dependency::{lineages_back, ResourceLineage};
use crate::positive::PositiveUsize;
use vstd::prelude::*;

verus! {

/// The source blocks of one resource.
pub type SourcePairs = Vec<(SequenceHash, BlockId)>;

/// A bundle offload under way: the transaction, the children that are still to finish, and the
/// lineages to publish with the bundle.
#[derive(Debug)]
pub struct BundleOffloadRuntime<P> {
    transaction: BundleOffload<SourcePairs, P>,
    drain: BundleChildDrain,
    lineages: Option<Vec<ResourceLineage>>,
}

/// The mathematical content of a [`BundleOffloadRuntime`].
pub struct RuntimeView<P> {
    pub transaction: OffloadView<SourcePairs, P>,
    pub drain: DrainView,
    pub lineages: Option<Seq<ResourceLineage>>,
}

/// The content of optional lineages.
pub open spec fn optional_lineages(lineages: Option<Vec<ResourceLineage>>) -> Option<
    Seq<ResourceLineage>,
> {
    match lineages {
        Some(lineages) => Some(lineages@),
        None => None,
    }
}

impl<P> View for BundleOffloadRuntime<P> {
    type V = RuntimeView<P>;

    closed spec fn view(&self) -> RuntimeView<P> {
        RuntimeView {
            transaction: self.transaction@,
            drain: self.drain@,
            lineages: optional_lineages(self.lineages),
        }
    }
}

/// Why a bundle offload does not start.
#[derive(Clone, Copy, Debug, PartialEq, Eq, Structural)]
pub enum StartOffloadError {
    Plan(OffloadPlanError),
    Transaction(BundleOffloadError),
}

impl<P> BundleOffloadRuntime<P> {
    pub fn new(
        transaction: BundleOffload<SourcePairs, P>,
        child_count: PositiveUsize,
        lineages: Vec<ResourceLineage>,
    ) -> (r: Self)
        ensures
            r@ == (RuntimeView {
                transaction: transaction@,
                drain: DrainView { remaining: child_count@, terminal: None },
                lineages: Some(lineages@),
            }),
    {
        BundleOffloadRuntime {
            transaction,
            drain: BundleChildDrain::new(child_count),
            lineages: Some(lineages),
        }
    }

    /// Validates a plan, opens its transaction and starts it; the children are handed back to be
    /// submitted, one verdict to come once all of them have finished.
    pub fn start_bundle_offload(
        plan: BundleOffloadPlan,
        supported: &KeySet<LogicalResourceId>,
    ) -> (r: Result<(Self, Vec<ResourceOffload>), StartOffloadError>)
        ensures
            ({
                let fits = plan_fits(plan.identity@, plan.key, plan.resources@, supported@);
                let complete = offload_ids(plan.resources@).to_set() == plan.identity@.id_set();
                match r {
                    Ok((runtime, children)) => {
                        &&& fits
                        &&& complete
                        &&& children@ == plan.resources@
                        &&& runtime@.transaction.wf()
                        &&& runtime@.transaction.identity == plan.identity@
                        &&& runtime@.transaction.key == plan.key
                        &&& runtime@.transaction.generation == plan.generation
                        &&& runtime@.transaction.mode == plan.mode
                        &&& runtime@.transaction.barrier == (BarrierView {
                            expected: plan.identity@.id_set(),
                            pending: plan.identity@.id_set(),
                            state: BarrierState::Transferring,
                        })
                        &&& forall|i: int|
                            0 <= i < plan.resources@.len()
                                ==> runtime@.transaction.sources->Some_0[(
                            #[trigger] plan.resources@[i]).resource]@ == plan.resources@[i].blocks@
                        &&& runtime@.drain == (DrainView {
                            remaining: plan.resources@.len(),
                            terminal: None,
                        })
                        &&& runtime@.lineages is Some
                        &&& runtime@.lineages->Some_0.len() == plan.resources@.len()
                        &&& forall|i: int|
                            0 <= i < plan.resources@.len() ==> {
                                let lineage = #[trigger] runtime@.lineages->Some_0[i];
                                &&& lineage.resource == plan.resources@[i].resource
                                &&& lineage.role == plan.identity@.requirement(
                                    lineage.resource,
                                ).role
                                &&& lineage.hashes@ == firsts(plan.resources@[i].blocks@)
                            }
                    },
                    Err(StartOffloadError::Plan(e)) => plan_refused(
                        plan.identity@,
                        plan.key,
                        plan.resources@,
                        supported@,
                        e,
                    ),
                    Err(StartOffloadError::Transaction(e)) => fits && !complete && e
                        == BundleOffloadError::ResourceSetMismatch,
                }
            }),
    {
        let sources = match validate_bundle_offload(&plan, supported) {
            Ok(sources) => sources,
            Err(e) => {
                return Err(StartOffloadError::Plan(e));
            },
        };
        proof {
            assert forall|i: int|
                0 <= i < plan.resources@.len() implies plan.identity@.id_set().contains(
                (#[trigger] plan.resources@[i]).resource,
            ) by {
                assert(crate::offload::plan::child_fault(
                    plan.identity@,
                    plan.key,
                    plan.resources@,
                    supported@,
                    i,
                ) is None);
            }
        }
        let lineages = plan_lineages(&plan);
        let child_count = PositiveUsize::new(plan.resources.len()).unwrap();
        let ghost listed = plan.resources@;
        proof {
            assert(offload_ids(listed)[0] == listed[0].resource);
            assert(offload_ids(listed).to_set().contains(listed[0].resource));
        }
        let BundleOffloadPlan { identity, key, generation, mode, resources } = plan;
        let mut transaction = match BundleOffload::new(identity, key, generation, mode, sources) {
            Ok(transaction) => transaction,
            Err(e) => {
                proof {
                    if e is Barrier {
                        assert(identity@.ids() =~= Seq::<LogicalResourceId>::empty());
                        assert(identity@.id_set().contains(listed[0].resource));
                    }
                }
                return Err(StartOffloadError::Transaction(e));
            },
        };
        transaction.start();
        Ok((Self::new(transaction, child_count, lineages), resources))
    }
}

/// A bundle that has just become visible and is to be advertised.
#[derive(Debug)]
pub struct CommittedMetadata {
    pub identity: CacheIdentity,
    pub key: BundleKey,
    pub generation: u64,
}

/// What one finished child leads to.
#[derive(Debug)]
pub struct FinishedChild {
    /// The verdict on the whole bundle, with its last child.
    pub terminal: Option<ActionStatus>,
    pub advertise: Option<CommittedMetadata>,
}

/// What a finished transfer means for its resource: all of its blocks are pinned, or these failed.
pub open spec fn child_failure(
    pairs: Seq<(SequenceHash, BlockId)>,
    outcome: StatusView,
    pins: int,
) -> Option<Option<Seq<BlockId>>> {
    match outcome {
        StatusView::Complete => if pins == pairs.len() {
            None
        } else {
            Some(Some(Seq::new(pairs.len(), |i: int| pairs[i].1)))
        },
        StatusView::Partial(blocks) => Some(Some(blocks)),
        StatusView::Resource(_, blocks) => Some(blocks),
        StatusView::AllBlocks => Some(None),
        StatusView::Pending => Some(None),
    }
}

/// Whether the transaction moves like this when a child finishes.
pub open spec fn transaction_moves<P>(
    before: OffloadView<SourcePairs, P>,
    after: OffloadView<SourcePairs, P>,
    resource: LogicalResourceId,
    pin: P,
    failure: Option<Option<Seq<BlockId>>>,
    answer: Result<OffloadTransitionView<SourcePairs, P>, BundleOffloadError>,
) -> bool {
    match failure {
        None => (after, answer) == before.completed(resource, pin),
        Some(blocks) => exists|failed: BundleResourceFailure|
            {
                &&& failed.resource == resource
                &&& optional_blocks(failed.failed_blocks) == blocks
                &&& (after, answer) == #[trigger] before.failed(failed)
            },
    }
}

/// Whether a complete bundle becomes visible in the catalog.
pub open spec fn publishes<P: BundleResourcePin>(
    before: CatalogView<P::Reference>,
    after: CatalogView<P::Reference>,
    commit: CommitView<SourcePairs, P>,
    lineages: Seq<ResourceLineage>,
    disposition: CommitDisposition,
) -> bool {
    catalog_commits(
        before,
        after,
        commit.identity,
        commit.key,
        commit.generation,
        commit.resources,
        lineages,
        disposition,
    )
}

/// Whether a complete bundle can be published at all.
pub open spec fn publishable<P: BundleResourcePin>(
    before: CatalogView<P::Reference>,
    commit: CommitView<SourcePairs, P>,
    lineages: Seq<ResourceLineage>,
) -> bool {
    &&& catalog_has_room(
        before,
        commit.identity,
        commit.key,
        commit.generation,
        commit.resources.dom(),
    )
    &&& lineages_back(lineages, commit.key)
}

/// The catalog after a complete bundle that could not be published: a bundle whose lineages do not
/// fit takes what was visible under its key with it.
pub open spec fn unpublished<P: BundleResourcePin>(
    before: CatalogView<P::Reference>,
    commit: CommitView<SourcePairs, P>,
    lineages: Option<Seq<ResourceLineage>>,
) -> CatalogView<P::Reference> {
    if lineages is Some && catalog_has_room(
        before,
        commit.identity,
        commit.key,
        commit.generation,
        commit.resources.dom(),
    ) {
        before.dropping(commit.key)
    } else {
        before
    }
}

/// What a transaction's answer means for the bundle: nothing yet, or a candidate for its verdict.
pub open spec fn candidate_for<P: BundleResourcePin>(
    resource: LogicalResourceId,
    answer: Result<OffloadTransitionView<SourcePairs, P>, BundleOffloadError>,
    lineages: Option<Seq<ResourceLineage>>,
    catalog: CatalogView<P::Reference>,
) -> Option<StatusView> {
    match answer {
        Ok(OffloadTransitionView::Pending) => None,
        Ok(OffloadTransitionView::Settled(_)) => None,
        Ok(OffloadTransitionView::Abort(abort)) => Some(
            StatusView::Resource(
                abort.failure.resource,
                optional_blocks(abort.failure.failed_blocks),
            ),
        ),
        Ok(OffloadTransitionView::Commit(commit)) => Some(
            if lineages is Some && publishable::<P>(catalog, commit, lineages->Some_0) {
                StatusView::Complete
            } else {
                StatusView::AllBlocks
            },
        ),
        Err(_) => Some(StatusView::Resource(resource, None)),
    }
}

impl<P: BundleResourcePin> BundleOffloadRuntime<P> {
    /// Folds a commit into the catalog.
    fn publish(
        &mut self,
        catalog: &mut BundleCatalog<P>,
        commit: crate::bundle::offload::BundleCommit<SourcePairs, P>,
    ) -> (r: (ActionStatus, Option<CommittedMetadata>))
        requires
            old(catalog).wf(),
        ensures
            final(catalog).wf(),
            final(self)@ == (RuntimeView { lineages: None, ..old(self)@ }),
            r.0@ == if old(self)@.lineages is Some && publishable::<P>(
                old(catalog)@,
                commit@,
                old(self)@.lineages->Some_0,
            ) {
                StatusView::Complete
            } else {
                StatusView::AllBlocks
            },
            match r.1 {
                Some(metadata) => {
                    &&& r.0@ is Complete
                    &&& metadata.identity@ == commit@.identity
                    &&& metadata.key == commit@.key
                    &&& metadata.generation == commit@.generation
                    &&& exists|disposition: CommitDisposition| #[trigger]
                        publishes::<P>(
                            old(catalog)@,
                            final(catalog)@,
                            commit@,
                            old(self)@.lineages->Some_0,
                            disposition,
                        )
                },
                None => !(r.0@ is Complete) && final(catalog)@ == unpublished::<P>(
                    old(catalog)@,
                    commit@,
                    old(self)@.lineages,
                ),
            },
    {
        let lineages = match self.lineages.take() {
            Some(lineages) => lineages,
            None => {
                return (ActionStatus::Failed(ActionFailure::AllBlocks), None);
            },
        };
        let ghost view = commit@;
        let (publication, _) = commit.into_publication();
        let (identity, key, generation, resources) = publication.into_parts();
        match catalog.commit(&identity, key, generation, &resources, lineages.as_slice()) {
            Ok(disposition) => {
                proof {
                    assert(publishes::<P>(
                        old(catalog)@,
                        catalog@,
                        view,
                        old(self)@.lineages->Some_0,
                        disposition,
                    ));
                    assert(publishable::<P>(
                        old(catalog)@,
                        view,
                        old(self)@.lineages->Some_0,
                    ));
                }
                (ActionStatus::Complete, Some(CommittedMetadata { identity, key, generation }))
            },
            Err(e) => {
                proof {
                    refused_commits_are_unpublishable::<P>(
                        old(catalog)@,
                        view,
                        old(self)@.lineages->Some_0,
                        e,
                    );
                }
                (ActionStatus::Failed(ActionFailure::AllBlocks), None)
            },
        }
    }
}

/// A commit that the catalog refuses cannot be published.
proof fn refused_commits_are_unpublishable<P: BundleResourcePin>(
    before: CatalogView<P::Reference>,
    commit: CommitView<SourcePairs, P>,
    lineages: Seq<ResourceLineage>,
    e: BundleCatalogError,
)
    requires
        catalog_refuses(
            before,
            commit.identity,
            commit.key,
            commit.generation,
            commit.resources.dom(),
            lineages,
            e,
        ),
    ensures
        !publishable::<P>(before, commit, lineages),
        after_refusal(before, commit.key, e) == unpublished::<P>(before, commit, Some(lineages)),
{
    match e {
        BundleCatalogError::Index(e) => match e {
            crate::bundle::index::BundleIndexError::MissingResources { resources } => {
                assert(resources@.to_set().contains(resources@[0]));
            },
            _ => {},
        },
        BundleCatalogError::Dependency(e) => {
            if lineages_back(lineages, commit.key) {
                let at = choose|at: int|
                    0 <= at < lineages.len()
                        && #[trigger] crate::policy::dependency::lineage_defect(
                        lineages,
                        commit.key,
                        at,
                    ) == Some(e);
                assert(crate::policy::dependency::lineage_defect(lineages, commit.key, at)
                    is None);
            }
        },
        _ => {},
    }
}

/// Whether one finished child takes a bundle and the catalog from their states before to those
/// after it, with this verdict and this advertisement.
pub open spec fn child_finishes<P: BundleResourcePin>(
    before: RuntimeView<P>,
    after: RuntimeView<P>,
    catalog_before: CatalogView<P::Reference>,
    catalog_after: CatalogView<P::Reference>,
    resource: Option<LogicalResourceId>,
    pin: P,
    failure: Option<Option<Seq<BlockId>>>,
    terminal: Option<StatusView>,
    advertise: Option<CommittedMetadata>,
) -> bool {
    &&& before.transaction.wf() ==> after.transaction.wf()
    &&& match resource {
        None => {
            &&& catalog_after == catalog_before
            &&& advertise is None
            &&& after.transaction == before.transaction
            &&& after.lineages == before.lineages
            &&& (after.drain, terminal) == before.drain.finished(Some(StatusView::AllBlocks))
        },
        Some(resource) => exists|
            answer: Result<OffloadTransitionView<SourcePairs, P>, BundleOffloadError>,
        |
            {
                &&& #[trigger] transaction_moves(
                    before.transaction,
                    after.transaction,
                    resource,
                    pin,
                    failure,
                    answer,
                )
                &&& (after.drain, terminal) == before.drain.finished(
                    candidate_for::<P>(resource, answer, before.lineages, catalog_before),
                )
                &&& match answer {
                    Ok(OffloadTransitionView::Commit(commit)) => {
                        &&& after.lineages is None
                        &&& match advertise {
                            Some(metadata) => {
                                &&& candidate_for::<P>(
                                    resource,
                                    answer,
                                    before.lineages,
                                    catalog_before,
                                ) == Some(StatusView::Complete)
                                &&& metadata.identity@ == commit.identity
                                &&& metadata.key == commit.key
                                &&& metadata.generation == commit.generation
                                &&& exists|disposition: CommitDisposition| #[trigger]
                                    publishes::<P>(
                                        catalog_before,
                                        catalog_after,
                                        commit,
                                        before.lineages->Some_0,
                                        disposition,
                                    )
                            },
                            None => {
                                &&& catalog_after == unpublished::<P>(
                                    catalog_before,
                                    commit,
                                    before.lineages,
                                )
                                &&& candidate_for::<P>(
                                    resource,
                                    answer,
                                    before.lineages,
                                    catalog_before,
                                ) == Some(StatusView::AllBlocks)
                            },
                        }
                    },
                    _ => {
                        &&& after.lineages == before.lineages
                        &&& catalog_after == catalog_before
                        &&& advertise is None
                    },
                }
            },
    }
}

/// Folds one finished child into its bundle: a resource whose blocks are all pinned is staged, the
/// last one publishes the bundle, any failure aborts it, and the verdict comes with the last child.
pub fn finish_offload_child<B: BlockPin>(
    runtime: &mut BundleOffloadRuntime<Vec<B>>,
    catalog: &mut BundleCatalog<Vec<B>>,
    resource: Option<LogicalResourceId>,
    pairs: &[(SequenceHash, BlockId)],
    outcome: ActionStatus,
    pins: Vec<B>,
) -> (r: FinishedChild)
    requires
        old(catalog).wf(),
    ensures
        final(catalog).wf(),
        child_finishes::<Vec<B>>(
            old(runtime)@,
            final(runtime)@,
            old(catalog)@,
            final(catalog)@,
            resource,
            pins,
            child_failure(pairs@, outcome@, pins@.len() as int),
            optional_status(r.terminal),
            r.advertise,
        ),
{
    let resource = match resource {
        Some(resource) => resource,
        None => {
            let failed = ActionStatus::Failed(ActionFailure::AllBlocks);
            let terminal = runtime.drain.finish_child(Some(failed));
            return FinishedChild { terminal, advertise: None };
        },
    };
    let ghost before = runtime@;
    let ghost failure = child_failure(pairs@, outcome@, pins@.len() as int);
    let ghost pinned = pins;
    let failed_blocks: Option<Option<Vec<BlockId>>> = match outcome {
        ActionStatus::Complete => {
            if pins.len() == pairs.len() {
                None
            } else {
                let blocks = blocks_of(pairs);
                assert(blocks@ =~= Seq::new(pairs@.len(), |i: int| pairs@[i].1));
                Some(Some(blocks))
            }
        },
        ActionStatus::Pending => Some(None),
        ActionStatus::Failed(failure) => match failure {
            ActionFailure::AllBlocks => Some(None),
            ActionFailure::Partial { block_ids } => Some(Some(block_ids)),
            ActionFailure::Resource { block_ids, .. } => Some(block_ids),
        },
    };
    let transition = match failed_blocks {
        None => runtime.transaction.complete(resource, Ok(pins)),
        Some(failed_blocks) => {
            let ghost named = BundleResourceFailure { resource, failed_blocks };
            let transition = runtime.transaction.fail(resource, failed_blocks);
            assert((runtime.transaction@, offload_answer(transition)) == before.transaction.failed(
                named,
            ));
            transition
        },
    };
    let ghost answer = offload_answer(transition);
    assert(transaction_moves(
        before.transaction,
        runtime.transaction@,
        resource,
        pinned,
        failure,
        answer,
    ));
    let mut advertise: Option<CommittedMetadata> = None;
    let candidate = match transition {
        Ok(OffloadTransition::Pending) => None,
        Ok(OffloadTransition::Settled(_)) => None,
        Ok(OffloadTransition::Abort(abort)) => {
            let failed = abort.failure();
            let block_ids = match failed.failed_blocks() {
                Some(blocks) => Some(copy_block_ids(blocks)),
                None => None,
            };
            Some(
                ActionStatus::Failed(
                    ActionFailure::Resource { resource: failed.resource(), block_ids },
                ),
            )
        },
        Ok(OffloadTransition::Commit(commit)) => {
            let (status, metadata) = runtime.publish(catalog, commit);
            advertise = metadata;
            Some(status)
        },
        Err(_) => Some(
            ActionStatus::Failed(ActionFailure::Resource { resource, block_ids: None }),
        ),
    };
    assert(optional_status(candidate) == candidate_for::<Vec<B>>(
        resource,
        answer,
        before.lineages,
        old(catalog)@,
    ));
    let terminal = runtime.drain.finish_child(candidate);
    FinishedChild { terminal, advertise }
}

/// The blocks of some source pairs.
fn blocks_of(pairs: &[(SequenceHash, BlockId)]) -> (r: Vec<BlockId>)
    ensures
        r@.len() == pairs@.len(),
        forall|i: int| 0 <= i < r@.len() ==> #[trigger] r@[i] == pairs@[i].1,
{
    let mut blocks: Vec<BlockId> = Vec::new();
    let mut at: usize = 0;
    while at < pairs.len()
        invariant
            at <= pairs@.len(),
            blocks@.len() == at,
            forall|i: int| 0 <= i < at ==> #[trigger] blocks@[i] == pairs@[i].1,
        decreases pairs@.len() - at,
    {
        blocks.push(pairs[at].1);
        at = at + 1;
    }
    blocks
}

/// One child's report, and what it led to. The catalog may have changed since the child before.
pub struct ChildReport<P: BundleResourcePin> {
    pub resource: LogicalResourceId,
    pub pin: P,
    pub failure: Option<Option<Seq<BlockId>>>,
    pub catalog_before: CatalogView<P::Reference>,
    pub catalog_after: CatalogView<P::Reference>,
    pub terminal: Option<StatusView>,
    pub advertise: Option<CommittedMetadata>,
}

/// The resources of a list of reports.
pub open spec fn report_ids<P: BundleResourcePin>(reports: Seq<ChildReport<P>>) -> Seq<
    LogicalResourceId,
> {
    Seq::new(reports.len(), |i: int| reports[i].resource)
}

/// Whether the children of a started bundle report one after the other, each resource once, taking
/// the bundle through these states.
pub open spec fn children_finish<P: BundleResourcePin>(
    states: Seq<RuntimeView<P>>,
    reports: Seq<ChildReport<P>>,
) -> bool {
    let first = states[0];
    let ids = report_ids(reports);
    &&& reports.len() > 0
    &&& states.len() == reports.len() + 1
    &&& distinct_up_to(ids, ids.len() as int)
    &&& ids.to_set() == first.transaction.identity.id_set()
    &&& first.transaction.wf()
    &&& first.transaction.barrier == (BarrierView {
        expected: first.transaction.identity.id_set(),
        pending: first.transaction.identity.id_set(),
        state: BarrierState::Transferring,
    })
    &&& first.drain == (DrainView { remaining: reports.len(), terminal: None })
    &&& first.lineages is Some
    &&& forall|i: int|
        0 <= i < reports.len() ==> child_finishes::<P>(
            states[i],
            states[i + 1],
            (#[trigger] reports[i]).catalog_before,
            reports[i].catalog_after,
            Some(reports[i].resource),
            reports[i].pin,
            reports[i].failure,
            reports[i].terminal,
            reports[i].advertise,
        )
}

/// Whether the first of some reports are all good.
pub open spec fn all_good<P: BundleResourcePin>(reports: Seq<ChildReport<P>>, end: int) -> bool {
    forall|i: int| 0 <= i < end ==> (#[trigger] reports[i]).failure is None
}

/// Whether a bundle is made up of exactly the pins that its children reported.
pub open spec fn commit_of<P: BundleResourcePin>(
    first: RuntimeView<P>,
    reports: Seq<ChildReport<P>>,
    commit: CommitView<SourcePairs, P>,
) -> bool {
    &&& commit.identity == first.transaction.identity
    &&& commit.key == first.transaction.key
    &&& commit.generation == first.transaction.generation
    &&& commit.resources.dom() == first.transaction.identity.id_set()
    &&& forall|i: int|
        0 <= i < reports.len() ==> commit.resources[(#[trigger] reports[i]).resource]
            == reports[i].pin
}

/// How a bundle stands before its last child, after the first of its children have reported.
spec fn stands<P: BundleResourcePin>(
    states: Seq<RuntimeView<P>>,
    reports: Seq<ChildReport<P>>,
    k: int,
) -> bool {
    let first = states[0];
    let now = states[k];
    let ids = report_ids(reports);
    &&& now.transaction.wf()
    &&& now.transaction.identity == first.transaction.identity
    &&& now.transaction.key == first.transaction.key
    &&& now.transaction.generation == first.transaction.generation
    &&& now.transaction.barrier.expected == first.transaction.identity.id_set()
    &&& now.drain.remaining == reports.len() - k
    &&& if all_good(reports, k) {
        &&& now.transaction.barrier.state == BarrierState::Transferring
        &&& forall|id: LogicalResourceId| #[trigger]
            now.transaction.barrier.pending.contains(id)
                <==> first.transaction.identity.id_set().contains(id) && !occurs_before(ids, k, id)
        &&& forall|i: int|
            0 <= i < k ==> now.transaction.staged.contains_key((#[trigger] reports[i]).resource)
                && now.transaction.staged[reports[i].resource] == reports[i].pin
        &&& now.drain.terminal is None
        &&& now.lineages == first.lineages
    } else {
        &&& now.transaction.barrier.state == BarrierState::Aborted
        &&& now.drain.terminal is Some
        &&& now.drain.terminal->Some_0.failed()
    }
    &&& forall|i: int|
        0 <= i < k ==> (#[trigger] reports[i]).terminal is None && reports[i].advertise is None
}

proof fn bundle_stands<P: BundleResourcePin>(
    states: Seq<RuntimeView<P>>,
    reports: Seq<ChildReport<P>>,
    k: int,
)
    requires
        children_finish(states, reports),
        0 <= k < reports.len(),
    ensures
        stands(states, reports, k),
    decreases k,
{
    let ids = report_ids(reports);
    if k > 0 {
        bundle_stands(states, reports, k - 1);
        let report = reports[k - 1];
        let before = states[k - 1];
        let resource = report.resource;
        assert(ids[k - 1] == resource);
        assert(ids.to_set().contains(resource));
        let last = reports[k].resource;
        assert(ids[k] == last);
        assert(ids.to_set().contains(last));
        assert(!occurs_before(ids, k, last));
        if all_good(reports, k - 1) {
            assert(!occurs_before(ids, k - 1, resource));
            assert(before.transaction.barrier.pending.contains(resource));
            assert(before.transaction.barrier.pending.contains(last));
            assert(before.transaction.barrier.pending.remove(resource).contains(last));
            assert forall|id: LogicalResourceId| occurs_before(ids, k, id) <==> occurs_before(
                ids,
                k - 1,
                id,
            ) || id == resource by {
                crate::onboard::plan::occurrence_grows(ids, k - 1);
            }
            assert(all_good(reports, k) <==> report.failure is None);
            assert forall|i: int| 0 <= i < k - 1 implies (#[trigger] reports[i]).resource
                != resource by {
                assert(ids[i] != ids[k - 1]);
            }
        } else {
            assert(!all_good(reports, k));
        }
    }
}

/// A bundle gets exactly one verdict, with its last child. It is a success exactly where every
/// child was good and the bundle of their pins can be published; then that bundle is published and
/// advertised, once. Otherwise nothing is ever advertised.
pub proof fn one_verdict_for_all_children<P: BundleResourcePin>(
    states: Seq<RuntimeView<P>>,
    reports: Seq<ChildReport<P>>,
)
    requires
        children_finish(states, reports),
    ensures
        ({
            let n = reports.len() as int;
            let last = reports[n - 1];
            let lineages = states[0].lineages->Some_0;
            let succeeds = last.terminal == Some(StatusView::Complete);
            &&& forall|i: int| 0 <= i < n - 1 ==> (#[trigger] reports[i]).terminal is None
            &&& last.terminal is Some
            &&& succeeds || last.terminal->Some_0.failed()
            &&& succeeds <==> all_good(reports, n) && exists|commit: CommitView<SourcePairs, P>|
                #[trigger] commit_of(states[0], reports, commit) && publishable::<P>(
                    last.catalog_before,
                    commit,
                    lineages,
                )
            &&& succeeds ==> last.advertise is Some && exists|
                commit: CommitView<SourcePairs, P>,
                disposition: CommitDisposition,
            |
                commit_of(states[0], reports, commit) && #[trigger] publishes::<P>(
                    last.catalog_before,
                    last.catalog_after,
                    commit,
                    lineages,
                    disposition,
                )
            &&& forall|i: int|
                0 <= i < n ==> ((#[trigger] reports[i]).advertise is Some <==> succeeds && i == n
                    - 1)
        }),
{
    let n = reports.len() as int;
    let ids = report_ids(reports);
    bundle_stands(states, reports, n - 1);
    let report = reports[n - 1];
    let before = states[n - 1];
    let resource = report.resource;
    let lineages = states[0].lineages->Some_0;
    assert(ids[n - 1] == resource);
    assert(ids.to_set().contains(resource));
    if all_good(reports, n - 1) {
        assert(!occurs_before(ids, n - 1, resource));
        assert(before.transaction.barrier.pending.contains(resource));
        let rest = before.transaction.barrier.pending.remove(resource);
        assert forall|id: LogicalResourceId| !rest.contains(id) by {
            if before.transaction.barrier.pending.contains(id) {
                assert(ids.to_set().contains(id));
                let i = choose|i: int| 0 <= i < ids.len() && ids[i] == id;
                if i < n - 1 {
                    assert(occurs_before(ids, n - 1, id));
                }
            }
        }
        assert(rest =~= Set::<LogicalResourceId>::empty());
        assert(all_good(reports, n) <==> report.failure is None);
        assert forall|i: int| 0 <= i < n - 1 implies (#[trigger] reports[i]).resource
            != resource by {
            assert(ids[i] != ids[n - 1]);
        }
        if report.failure is None {
            let (_, answer) = before.transaction.completed(resource, report.pin);
            offload_commits_only_complete_bundles(before.transaction, resource, report.pin);
            let commit = answer->Ok_0->Commit_0;
            assert(answer == Ok::<OffloadTransitionView<SourcePairs, P>, BundleOffloadError>(
                OffloadTransitionView::Commit(commit),
            ));
            assert(commit_of(states[0], reports, commit));
        }
    } else {
        assert(!all_good(reports, n));
    }
}

/// A finished transfer counts as good exactly if it completed and every one of its blocks is pinned.
/// One that completed short names all of its blocks, and any other the blocks it knows to have
/// failed.
pub proof fn transfers_are_good_when_every_block_is_pinned(
    pairs: Seq<(SequenceHash, BlockId)>,
    outcome: StatusView,
    pins: int,
)
    ensures
        ({
            let failure = child_failure(pairs, outcome, pins);
            &&& failure is None <==> outcome is Complete && pins == pairs.len()
            &&& outcome is Complete && pins != pairs.len() ==> {
                let blocks = failure->Some_0;
                &&& blocks is Some
                &&& blocks->Some_0.len() == pairs.len()
                &&& forall|i: int|
                    0 <= i < pairs.len() ==> (#[trigger] pairs[i]).1 == blocks->Some_0[i]
            }
            &&& outcome matches StatusView::Partial(blocks) ==> failure == Some(Some(blocks))
            &&& outcome matches StatusView::Resource(_, blocks) ==> failure == Some(blocks)
            &&& outcome is AllBlocks || outcome is Pending ==> failure == Some(None::<Seq<BlockId>>)
        }),
{
}

/// The first child that fails a running bundle is named in its verdict, with its blocks, and nothing
/// is published: neither by it nor by a child without a resource.
pub proof fn the_failed_child_is_named_in_the_verdict<P: BundleResourcePin>(
    before: RuntimeView<P>,
    after: RuntimeView<P>,
    catalog_before: CatalogView<P::Reference>,
    catalog_after: CatalogView<P::Reference>,
    resource: LogicalResourceId,
    pin: P,
    blocks: Option<Seq<BlockId>>,
    terminal: Option<StatusView>,
    advertise: Option<CommittedMetadata>,
)
    requires
        child_finishes::<P>(
            before,
            after,
            catalog_before,
            catalog_after,
            Some(resource),
            pin,
            Some(blocks),
            terminal,
            advertise,
        ),
        before.transaction.wf(),
        before.transaction.barrier.state == BarrierState::Transferring,
        before.transaction.barrier.pending.contains(resource),
        before.drain.remaining > 0,
        before.drain.terminal is None,
    ensures
        catalog_after == catalog_before,
        advertise is None,
        after.transaction.barrier.state == BarrierState::Aborted,
        before.drain.remaining == 1 ==> terminal == Some(StatusView::Resource(resource, blocks)),
        before.drain.remaining > 1 ==> terminal is None && after.drain.terminal == Some(
            StatusView::Resource(resource, blocks),
        ) && after.drain.remaining == before.drain.remaining - 1,
{
}

/// A complete bundle can be published exactly if it is one of the manifest with all of its
/// resources, newer than what is retired and no older than what is visible, and its lineages back
/// it.
pub proof fn publishable_bundles_are_complete_and_current<P: BundleResourcePin>(
    catalog: CatalogView<P::Reference>,
    commit: CommitView<SourcePairs, P>,
    lineages: Seq<ResourceLineage>,
)
    ensures
        publishable::<P>(catalog, commit, lineages) <==> {
            &&& commit.key.manifest == commit.identity.manifest
            &&& commit.resources.dom() == commit.identity.id_set()
            &&& catalog.committed.contains_key(commit.key)
                ==> catalog.committed[commit.key].generation <= commit.generation
            &&& catalog.retired.contains_key(commit.key) ==> catalog.retired[commit.key]
                < commit.generation
            &&& lineages_back(lineages, commit.key)
        },
{
}

/// A report that the transaction does not take, because the resource is not one of the bundle's,
/// counts as a failure of that resource with unknown blocks, and changes neither the transaction
/// nor the catalog.
pub proof fn unexpected_children_fail_by_name<P: BundleResourcePin>(
    before: RuntimeView<P>,
    after: RuntimeView<P>,
    catalog_before: CatalogView<P::Reference>,
    catalog_after: CatalogView<P::Reference>,
    resource: LogicalResourceId,
    pin: P,
    failure: Option<Option<Seq<BlockId>>>,
    terminal: Option<StatusView>,
    advertise: Option<CommittedMetadata>,
)
    requires
        child_finishes::<P>(
            before,
            after,
            catalog_before,
            catalog_after,
            Some(resource),
            pin,
            failure,
            terminal,
            advertise,
        ),
        before.transaction.wf(),
        !before.transaction.barrier.expected.contains(resource),
        before.drain.remaining > 0,
        before.drain.terminal is None,
    ensures
        catalog_after == catalog_before,
        advertise is None,
        after.transaction.barrier == before.transaction.barrier,
        after.transaction.staged == before.transaction.staged,
        before.drain.remaining == 1 ==> terminal == Some(StatusView::Resource(resource, None)),
        before.drain.remaining > 1 ==> terminal is None && after.drain.terminal == Some(
            StatusView::Resource(resource, None),
        ),
{
}

/// A child without a resource fails the whole bundle and touches nothing else, and a report after
/// the bundle has settled says nothing about it.
pub proof fn anonymous_and_late_children_touch_nothing<P: BundleResourcePin>(
    before: RuntimeView<P>,
    after: RuntimeView<P>,
    catalog_before: CatalogView<P::Reference>,
    catalog_after: CatalogView<P::Reference>,
    resource: Option<LogicalResourceId>,
    pin: P,
    failure: Option<Option<Seq<BlockId>>>,
    terminal: Option<StatusView>,
    advertise: Option<CommittedMetadata>,
)
    requires
        child_finishes::<P>(
            before,
            after,
            catalog_before,
            catalog_after,
            resource,
            pin,
            failure,
            terminal,
            advertise,
        ),
        before.transaction.wf(),
        before.drain.remaining > 0,
        resource is Some ==> before.transaction.barrier.settled()
            && before.transaction.barrier.expected.contains(resource->Some_0),
    ensures
        catalog_after == catalog_before,
        advertise is None,
        after.transaction == before.transaction,
        after.lineages == before.lineages,
        resource is None && before.drain.terminal is None && before.drain.remaining == 1
            ==> terminal == Some(StatusView::AllBlocks),
        resource is Some && before.drain.remaining > 1 ==> terminal is None && after.drain.terminal
            == before.drain.terminal,
        resource is Some && before.drain.remaining == 1 && before.drain.terminal is Some ==> terminal
            == before.drain.terminal,
{
}

} // verus!
