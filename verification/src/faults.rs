//! Injected failures in an otherwise complete bundle pull, run against a holder in memory.

use crate::bundle::catalog::BundleCatalog;
use crate::bundle::index::PinnedBlock;
use crate::ids::{BundleKey, InstanceId, LogicalResourceId, SequenceHash, SessionId};
use crate::lists::copy_hashes;
use crate::manifest::{lineage_ids, CacheIdentity, IdentityView};
use crate::ordered::{distinct_up_to, KeyMap};
use crate::remote::deadline::{BundlePullLimits, PullInterruption};
use crate::remote::publication::commit_pulled_bundle;
use crate::remote::pull::{
    answered, most_urgent, opened_views, pull_miss, OpenTransferSessionResponse, OpenedResource,
    OpenedView, PullAction, PullActionView, PullEvent, PullState, PullView, RemoteBundlePull, ResourcePull,
    TransferCapability,
};
use crate::remote::search::{
    AdvertisementView, BundleAdvertisement, BundleDiscoveryOutcome, BundleDiscoveryQuery,
    BundleMissReason, BundlePullOutcome, CandidateView, RemoteBundleCandidate,
};
use crate::time::{Duration, Instant, NANOS_PER_MILLI};
use vstd::prelude::*;

verus! {

/// One injected failure.
#[derive(Clone, Copy, Debug, PartialEq, Eq, Structural)]
pub enum BundleFault {
    /// The holder has no blocks of the resource.
    MissingResource(LogicalResourceId),
    /// The puller expects another manifest.
    ManifestMismatch,
    /// The pull of the resource fails.
    RemoteTransfer(LogicalResourceId),
    /// The holder is not the advertised owner.
    OwnerLost,
    /// No transfer ends before the deadline.
    Timeout,
}

/// What is visible after a pull has failed.
#[derive(Clone, Copy, Debug, PartialEq, Eq, Structural)]
pub struct BundleFaultOutcome {
    terminal_reason: BundleMissReason,
    catalog_visible: bool,
    g1_visible: bool,
}

/// The mathematical content of a [`BundleFaultOutcome`].
pub struct FaultOutcomeView {
    pub terminal_reason: BundleMissReason,
    pub catalog_visible: bool,
    pub g1_visible: bool,
}

impl View for BundleFaultOutcome {
    type V = FaultOutcomeView;

    closed spec fn view(&self) -> FaultOutcomeView {
        FaultOutcomeView {
            terminal_reason: self.terminal_reason,
            catalog_visible: self.catalog_visible,
            g1_visible: self.g1_visible,
        }
    }
}

impl BundleFaultOutcome {
    pub fn terminal_reason(self) -> (r: BundleMissReason)
        ensures
            r == self@.terminal_reason,
    {
        self.terminal_reason
    }

    /// Whether the bundle can be leased from the local catalog.
    pub fn catalog_visible(self) -> (r: bool)
        ensures
            r == self@.catalog_visible,
    {
        self.catalog_visible
    }

    /// Whether a block of the bundle was loaded into the upper tier.
    pub fn g1_visible(self) -> (r: bool)
        ensures
            r == self@.g1_visible,
    {
        self.g1_visible
    }
}

/// The resources of the bundle that failures are injected into.
pub open spec fn fixture_resources() -> Seq<LogicalResourceId> {
    seq![LogicalResourceId(10), LogicalResourceId(11), LogicalResourceId(12)]
}

pub fn manifest_resources() -> (r: [LogicalResourceId; 3])
    ensures
        r@ == fixture_resources(),
{
    let r = [LogicalResourceId(10), LogicalResourceId(11), LogicalResourceId(12)];
    assert(r@ =~= fixture_resources());
    r
}

/// Why a failure could not be injected.
#[derive(Debug, PartialEq, Eq)]
pub enum BundleFaultError {
    /// The failure names a resource outside the bundle.
    UnknownResource,
    /// The bundle does not have the expected resources, or nothing to put in place of its
    /// manifest or owner.
    Fixture,
    /// The directory did not hand the bundle out.
    Undiscovered,
    /// The failure did not keep the bundle from being committed.
    Committed,
}

/// The resource that a failure names.
pub open spec fn fault_resource(fault: BundleFault) -> Option<LogicalResourceId> {
    match fault {
        BundleFault::MissingResource(resource) => Some(resource),
        BundleFault::RemoteTransfer(resource) => Some(resource),
        _ => None,
    }
}

/// Checks that a failure names a resource of the bundle, if any.
pub fn validate_fault(fault: BundleFault) -> (r: Result<(), BundleFaultError>)
    ensures
        r == if fault_resource(fault) is None || fixture_resources().contains(
            fault_resource(fault)->Some_0,
        ) {
            Ok::<(), BundleFaultError>(())
        } else {
            Err(BundleFaultError::UnknownResource)
        },
{
    let resource = match fault {
        BundleFault::MissingResource(resource) => resource,
        BundleFault::RemoteTransfer(resource) => resource,
        _ => {
            return Ok(());
        },
    };
    let resources = manifest_resources();
    let mut at: usize = 0;
    while at < 3
        invariant
            at <= 3,
            resources@ == fixture_resources(),
            fault_resource(fault) == Some(resource),
            forall|i: int| 0 <= i < at ==> fixture_resources()[i] != resource,
        decreases 3 - at,
    {
        if resources[at] == resource {
            assert(fixture_resources()[at as int] == resource);
            return Ok(());
        }
        at = at + 1;
    }
    assert(fixture_resources().len() == 3);
    Err(BundleFaultError::UnknownResource)
}

/// A directory that remembers the last advertisement, and counts what it is told and asked.
#[derive(Debug)]
pub struct RecordingBundleDirectory {
    candidate: Option<RemoteBundleCandidate>,
    advertisements: u64,
    queries: u64,
    return_incompatible: bool,
}

/// The mathematical content of a [`RecordingBundleDirectory`].
pub struct DirectoryView {
    pub candidate: Option<CandidateView>,
    pub advertisements: u64,
    pub queries: u64,
    pub return_incompatible: bool,
}

impl View for RecordingBundleDirectory {
    type V = DirectoryView;

    closed spec fn view(&self) -> DirectoryView {
        DirectoryView {
            candidate: match self.candidate {
                Some(candidate) => Some(candidate@),
                None => None,
            },
            advertisements: self.advertisements,
            queries: self.queries,
            return_incompatible: self.return_incompatible,
        }
    }
}

impl RecordingBundleDirectory {
    pub fn new(return_incompatible: bool) -> (r: Self)
        ensures
            r@ == (DirectoryView {
                candidate: None,
                advertisements: 0,
                queries: 0,
                return_incompatible,
            }),
    {
        RecordingBundleDirectory {
            candidate: None,
            advertisements: 0,
            queries: 0,
            return_incompatible,
        }
    }

    /// Remembers an advertisement, with a lease that lasts as long as it does.
    pub fn advertise_bundle(&mut self, advertisement: BundleAdvertisement, lease_id: uuid::Uuid)
        requires
            old(self)@.advertisements < u64::MAX,
        ensures
            final(self)@ == (DirectoryView {
                candidate: Some(
                    CandidateView {
                        advertisement: advertisement@,
                        lease_id,
                        lease_expires_at_unix_ms: advertisement@.expires_at_unix_ms,
                    },
                ),
                advertisements: (old(self)@.advertisements + 1) as u64,
                ..old(self)@
            }),
    {
        self.advertisements = self.advertisements + 1;
        let expires_at_unix_ms: u64 = advertisement.expires_at_unix_ms();
        if let Ok(candidate) = RemoteBundleCandidate::new(
            advertisement,
            lease_id,
            expires_at_unix_ms,
        ) {
            self.candidate = Some(candidate);
        }
    }

    /// Hands the remembered bundle out, if it answers the query or is to be handed out anyway.
    pub fn discover_bundle(&mut self, query: &BundleDiscoveryQuery) -> (r: BundleDiscoveryOutcome)
        requires
            old(self)@.queries < u64::MAX,
        ensures
            ({
                let found = old(self)@.candidate is Some && (old(self)@.return_incompatible
                    || old(self)@.candidate->Some_0.advertisement.matches(query@));
                &&& final(self)@ == (DirectoryView {
                    queries: (old(self)@.queries + 1) as u64,
                    ..old(self)@
                })
                &&& match r {
                    BundleDiscoveryOutcome::Hit(candidate) => found && Some(candidate@)
                        == old(self)@.candidate,
                    BundleDiscoveryOutcome::Miss(reason) => !found && reason
                        == BundleMissReason::NotFound,
                }
            }),
    {
        self.queries = self.queries + 1;
        match &self.candidate {
            Some(candidate) => if self.return_incompatible || candidate.advertisement().matches(
                query,
            ) {
                BundleDiscoveryOutcome::Hit(Box::new(candidate.clone()))
            } else {
                BundleDiscoveryOutcome::Miss(BundleMissReason::NotFound)
            },
            None => BundleDiscoveryOutcome::Miss(BundleMissReason::NotFound),
        }
    }
}

/// The milliseconds that a pull is given where no transfer ends.
pub const HANGING_PULL_MS: u64 = 25;

/// The milliseconds that any other pull is given.
pub const FAULT_PULL_MS: u64 = 2000;

/// The bundle is one of the expected resources that outlasts a pull without answers, and what is
/// put in place of its manifest and owner differs from them.
pub open spec fn fits(
    advertisement: AdvertisementView,
    other_identity: IdentityView,
    other_owner: InstanceId,
    now_unix_ms: u64,
) -> bool {
    &&& advertisement.identity.ids() == fixture_resources()
    &&& advertisement.identity.manifest != other_identity.manifest
    &&& advertisement.owner != other_owner
    &&& advertisement.identity.aligned(advertisement.key.boundary_tokens)
    &&& other_identity.aligned(advertisement.key.boundary_tokens)
    &&& now_unix_ms + HANGING_PULL_MS < advertisement.expires_at_unix_ms
}

/// What a failure ends a pull with.
pub open spec fn expected_reason(fault: BundleFault) -> BundleMissReason {
    match fault {
        BundleFault::MissingResource(_) => BundleMissReason::Incomplete,
        BundleFault::ManifestMismatch => BundleMissReason::Incompatible,
        BundleFault::RemoteTransfer(_) => BundleMissReason::TransferFailed,
        BundleFault::OwnerLost => BundleMissReason::OwnerLost,
        BundleFault::Timeout => BundleMissReason::TimedOut,
    }
}

/// Where a pull under a failure can stand while its resources are opened.
spec fn opening_under(
    fault: BundleFault,
    holder: InstanceId,
    pull: PullView,
    action: PullActionView,
) -> bool {
    let ad = pull.candidate.advertisement;
    let clean = forall|i: int|
        0 <= i < pull.opened.len() ==> fault != BundleFault::MissingResource(
            (#[trigger] pull.lineages()[i]).resource,
        );
    &&& pull.wf()
    &&& match pull.state {
        PullState::Opening => {
            &&& clean
            &&& action matches PullActionView::Open { resource, hashes, .. } && resource
                == pull.lineages()[pull.opened.len() as int].resource && hashes
                == pull.lineages()[pull.opened.len() as int].hashes
        },
        PullState::Closing(reason) => {
            &&& action is CloseAll
            &&& reason == expected_reason(fault)
        },
        PullState::Pulling => {
            &&& clean
            &&& action is PullAll
            &&& ad.owner == holder
        },
        _ => false,
    }
}

/// Answers one request of the pull for a session, as the holder would under the failure.
fn answer_open(
    fault: BundleFault,
    holder: InstanceId,
    resource: LogicalResourceId,
    hashes: Vec<SequenceHash>,
) -> (r: OpenTransferSessionResponse)
    ensures
        if fault == BundleFault::MissingResource(resource) {
            r == OpenTransferSessionResponse::NoBlocksFound
        } else {
            r matches OpenTransferSessionResponse::Sync { capability, committed }
                && capability.instance_id == holder && capability.resource == resource
                && committed@ == hashes@
        },
{
    let missing = match fault {
        BundleFault::MissingResource(omitted) => omitted == resource,
        _ => false,
    };
    if missing {
        return OpenTransferSessionResponse::NoBlocksFound;
    }
    OpenTransferSessionResponse::Sync {
        capability: TransferCapability {
            session: SessionId(resource.0 as u128),
            instance_id: holder,
            resource,
        },
        committed: hashes,
    }
}

/// Whether a pull's result is the one that the failure gives it.
spec fn pull_under(fault: BundleFault, opened: OpenedView, pull: ResourcePull) -> bool {
    if fault == BundleFault::RemoteTransfer(opened.resource) {
        pull == ResourcePull::Failed(BundleMissReason::TransferFailed)
    } else if fault == BundleFault::Timeout {
        pull == ResourcePull::Interrupted(PullInterruption::Deadline)
    } else {
        pull matches ResourcePull::Staged { resource, hashes } && resource == opened.resource
            && hashes@ == opened.hashes
    }
}

/// The results of all pulls under the failure.
fn answer_pulls(fault: BundleFault, opened: &[OpenedResource]) -> (r: Vec<ResourcePull>)
    ensures
        r@.len() == opened@.len(),
        forall|i: int| 0 <= i < r@.len() ==> pull_under(
                fault,
                opened_views(opened@)[i],
                #[trigger] r@[i],
            ),
{
    let mut pulls: Vec<ResourcePull> = Vec::new();
    let mut at: usize = 0;
    while at < opened.len()
        invariant
            at <= opened@.len(),
            pulls@.len() == at,
            forall|i: int| 0 <= i < at ==> pull_under(fault, opened@[i]@, #[trigger] pulls@[i]),
        decreases opened@.len() - at,
    {
        let staged = ResourcePull::Staged {
            resource: opened[at].resource,
            hashes: copy_hashes(opened[at].hashes.as_slice()),
        };
        let pull = match fault {
            BundleFault::RemoteTransfer(resource) => if resource == opened[at].resource {
                ResourcePull::Failed(BundleMissReason::TransferFailed)
            } else {
                staged
            },
            BundleFault::Timeout => ResourcePull::Interrupted(PullInterruption::Deadline),
            _ => staged,
        };
        pulls.push(pull);
        at = at + 1;
    }
    pulls
}

/// Once every resource is open, the pulls under a failure miss with its reason.
proof fn pulls_under_a_failure_miss(fault: BundleFault, pull: PullView, pulls: Seq<ResourcePull>)
    requires
        pull.wf(),
        pull.state == PullState::Pulling,
        pull.candidate.advertisement.identity.ids() == fixture_resources(),
        fault_resource(fault) is Some ==> fixture_resources().contains(
            fault_resource(fault)->Some_0,
        ),
        forall|i: int|
            0 <= i < pull.opened.len() ==> fault != BundleFault::MissingResource(
                (#[trigger] pull.lineages()[i]).resource,
            ),
        !(fault is ManifestMismatch),
        !(fault is OwnerLost),
        fault == BundleFault::Timeout ==> !pull.deadline.lease_limited,
        pulls.len() == pull.opened.len(),
        forall|i: int|
            0 <= i < pulls.len() ==> pull_under(fault, pull.opened[i], #[trigger] pulls[i]),
    ensures
        forall|miss: Option<BundleMissReason>|
            #[trigger] most_urgent(
                pull.opened,
                pulls,
                pull.deadline,
                answered(pull.opened, pulls),
                miss,
            ) ==> miss == Some(expected_reason(fault)),
{
    let ids = pull.candidate.advertisement.identity.ids();
    assert(lineage_ids(pull.lineages()) == ids);
    assert(ids.len() == 3);
    assert(pull.opened.len() == 3);
    let at = if fault_resource(fault) is Some {
        choose|i: int| 0 <= i < ids.len() && ids[i] == fault_resource(fault)->Some_0
    } else {
        0
    };
    assert(lineage_ids(pull.lineages())[at] == pull.lineages()[at].resource);
    assert(pull.opened[at].resource == pull.lineages()[at].resource);
    assert(pull_under(fault, pull.opened[at], pulls[at]));
    assert(pull_miss(pull.opened[at], pulls[at], pull.deadline) == Some(expected_reason(fault)));
    assert forall|i: int| 0 <= i < pulls.len() implies {
        let miss = pull_miss(#[trigger] pull.opened[i], pulls[i], pull.deadline);
        miss is None || miss == Some(expected_reason(fault))
    } by {
        assert(pull_under(fault, pull.opened[i], pulls[i]));
    }
}

/// What a pull can make visible: the catalog of the pulling side, and the resources that were
/// loaded into its upper tier.
struct PullTarget {
    catalog: BundleCatalog<Vec<PinnedBlock<()>>>,
    loads: Vec<LogicalResourceId>,
}

/// The resources of a list of open ones.
spec fn opened_ids(opened: Seq<OpenedResource>) -> Seq<LogicalResourceId> {
    Seq::new(opened.len(), |i: int| opened[i].resource)
}

/// The hashes and the pinned blocks of every resource that a pull has opened and staged.
fn opened_contents(opened: &[OpenedResource]) -> (r: (
    KeyMap<LogicalResourceId, Vec<SequenceHash>>,
    KeyMap<LogicalResourceId, Vec<PinnedBlock<()>>>,
))
    requires
        distinct_up_to(opened_ids(opened@), opened@.len() as int),
    ensures
        r.0@.dom() == opened_ids(opened@).to_set(),
        r.1@.dom() == opened_ids(opened@).to_set(),
        forall|i: int|
            0 <= i < opened@.len() ==> {
                let resource = (#[trigger] opened@[i]).resource;
                &&& r.0@[resource]@ == opened@[i].hashes@
                &&& pins_hold(r.1@[resource]@, opened@[i].hashes@)
            },
{
    let ghost ids = opened_ids(opened@);
    let mut lineages: KeyMap<LogicalResourceId, Vec<SequenceHash>> = KeyMap::new();
    let mut pins: KeyMap<LogicalResourceId, Vec<PinnedBlock<()>>> = KeyMap::new();
    let mut at: usize = 0;
    assert(ids.subrange(0, 0).to_set() =~= Set::<LogicalResourceId>::empty());
    while at < opened.len()
        invariant
            at <= opened@.len(),
            ids == opened_ids(opened@),
            distinct_up_to(ids, opened@.len() as int),
            lineages@.dom() == ids.subrange(0, at as int).to_set(),
            pins@.dom() == ids.subrange(0, at as int).to_set(),
            forall|i: int|
                0 <= i < at ==> {
                    let resource = (#[trigger] opened@[i]).resource;
                    &&& lineages@[resource]@ == opened@[i].hashes@
                    &&& pins_hold(pins@[resource]@, opened@[i].hashes@)
                },
        decreases opened@.len() - at,
    {
        let hashes = copy_hashes(opened[at].hashes.as_slice());
        let held = pin_all(hashes.as_slice());
        proof {
            let done = ids.subrange(0, at as int);
            let more = ids.subrange(0, at + 1);
            assert(more =~= done.push(ids[at as int]));
            assert forall|id: LogicalResourceId| more.to_set().contains(id) <==> done.to_set().contains(
                id,
            ) || id == ids[at as int] by {
                if done.contains(id) {
                    let i = choose|i: int| 0 <= i < done.len() && done[i] == id;
                    assert(more[i] == id);
                }
                if more.contains(id) {
                    let i = choose|i: int| 0 <= i < more.len() && more[i] == id;
                    if i < at {
                        assert(done[i] == id);
                    }
                }
                assert(more[at as int] == ids[at as int]);
            }
            assert(more.to_set() =~= done.to_set().insert(ids[at as int]));
            assert forall|i: int| 0 <= i < at implies (#[trigger] opened@[i]).resource
                != opened@[at as int].resource by {
                assert(ids[i] != ids[at as int]);
            }
        }
        pins.insert(opened[at].resource, held);
        lineages.insert(opened[at].resource, hashes);
        at = at + 1;
    }
    assert(ids.subrange(0, at as int) =~= ids);
    (lineages, pins)
}

/// Whether some blocks hold some hashes, in order.
spec fn pins_hold(pins: Seq<PinnedBlock<()>>, hashes: Seq<SequenceHash>) -> bool {
    &&& pins.len() == hashes.len()
    &&& forall|i: int| 0 <= i < pins.len() ==> (#[trigger] pins[i]).sequence_hash == hashes[i]
}

/// A block for each of some hashes.
fn pin_all(hashes: &[SequenceHash]) -> (r: Vec<PinnedBlock<()>>)
    ensures
        pins_hold(r@, hashes@),
{
    let mut pins: Vec<PinnedBlock<()>> = Vec::new();
    let mut block_id: usize = 0;
    while block_id < hashes.len()
        invariant
            block_id <= hashes@.len(),
            pins@.len() == block_id,
            forall|i: int|
                0 <= i < pins@.len() ==> (#[trigger] pins@[i]).sequence_hash == hashes@[i],
        decreases hashes@.len() - block_id,
    {
        pins.push(PinnedBlock { block_id, sequence_hash: hashes[block_id], handle: () });
        block_id = block_id + 1;
    }
    pins
}

/// Runs a pull of a discovered bundle under a failure, to its end, with its commit going to the
/// target.
fn run_pull(
    target: &mut PullTarget,
    fault: BundleFault,
    holder: InstanceId,
    candidate: RemoteBundleCandidate,
    expected_identity: CacheIdentity,
    now_unix_ms: u64,
) -> (r: BundlePullOutcome)
    requires
        old(target).catalog.wf(),
        now_unix_ms + HANGING_PULL_MS < candidate@.lease_expires_at_unix_ms,
        candidate@.advertisement.identity.ids() == fixture_resources(),
        fault_resource(fault) is Some ==> fixture_resources().contains(
            fault_resource(fault)->Some_0,
        ),
        fault is ManifestMismatch <==> candidate@.advertisement.identity != expected_identity@,
        fault is OwnerLost <==> candidate@.advertisement.owner != holder,
    ensures
        r == BundlePullOutcome::Miss(expected_reason(fault)),
        *final(target) == *old(target),
{
    let now = Instant { nanos: 0 };
    let millis: u64 = match fault {
        BundleFault::Timeout => HANGING_PULL_MS,
        _ => FAULT_PULL_MS,
    };
    let ghost ad = candidate@.advertisement;
    let ghost lease = candidate@.lease_expires_at_unix_ms;
    let identity = expected_identity.clone();
    let mut pull = RemoteBundlePull::new(
        candidate,
        expected_identity,
        now.plus(Duration::from_millis(millis)),
        BundlePullLimits::production(),
    );
    if let PullAction::Finish(outcome) = pull.step(
        PullEvent::Started { canceled: false, now_unix_ms },
    ) {
        return outcome;
    }
    let mut action = pull.step(PullEvent::Reserved { generation: Some(1), now_unix_ms, now });
    assert(fault == BundleFault::Timeout ==> !pull@.deadline.lease_limited) by {
        assert((lease - now_unix_ms) * NANOS_PER_MILLI > HANGING_PULL_MS * NANOS_PER_MILLI)
            by (nonlinear_arith)
            requires
                lease - now_unix_ms > HANGING_PULL_MS,
                NANOS_PER_MILLI == 1_000_000,
        ;
    }
    let ghost deadline = pull@.deadline;
    loop
        invariant
            pull@.candidate.advertisement == ad,
            pull@.deadline == deadline,
            opening_under(fault, holder, pull@, action@),
            fault is OwnerLost <==> ad.owner != holder,
            !(fault is ManifestMismatch),
            ad.identity.ids() == fixture_resources(),
        ensures
            pull@.state != PullState::Opening,
        decreases
                pull@.lineages().len() - pull@.opened.len() + (if action@ is Open {
                    1int
                } else {
                    0int
                }),
    {
        match action {
            PullAction::Open { resource, hashes, .. } => {
                let response = answer_open(fault, holder, resource, hashes);
                action = pull.step(PullEvent::Opened { response, now });
            },
            other => {
                action = other;
                break ;
            },
        }
    }
    let last = match action {
        PullAction::PullAll => {
            let ghost before = pull@;
            let pulls = answer_pulls(fault, pull.opened());
            proof {
                assert(pulls@.len() == 3);
                pulls_under_a_failure_miss(fault, before, pulls@);
            }
            pull.step(PullEvent::Pulled { pulls, canceled: false, now_unix_ms })
        },
        _ => pull.step(PullEvent::Closed),
    };
    let end = match last {
        PullAction::Commit { key, generation } => {
            let (lineages, pins) = opened_contents(pull.opened());
            let committed = commit_pulled_bundle(
                &mut target.catalog,
                identity,
                key,
                generation,
                &lineages,
                pins,
            );
            match committed {
                Ok(_) => pull.step(PullEvent::Committed),
                Err(_) => pull.step(PullEvent::CommitFailed),
            }
        },
        other => other,
    };
    match end {
        PullAction::Finish(outcome) => outcome,
        _ => BundlePullOutcome::Miss(BundleMissReason::CommitFailed),
    }
}

/// Advertises, discovers and pulls one bundle under a failure, and says what is visible after it.
///
/// The bundle's owner holds all of it, but for what the failure takes away. The commit of the pull
/// goes to a catalog of the pulling side, from which the visibility is read.
pub fn run_production_bundle_fault(
    fault: BundleFault,
    advertisement: &BundleAdvertisement,
    other_identity: &CacheIdentity,
    other_owner: InstanceId,
    lease_id: uuid::Uuid,
    now_unix_ms: u64,
) -> (r: Result<BundleFaultOutcome, BundleFaultError>)
    ensures
        match r {
            Ok(outcome) => {
                &&& fault_resource(fault) is Some ==> fixture_resources().contains(
                    fault_resource(fault)->Some_0,
                )
                &&& fits(advertisement@, other_identity@, other_owner, now_unix_ms)
                &&& outcome@ == (FaultOutcomeView {
                    terminal_reason: expected_reason(fault),
                    catalog_visible: false,
                    g1_visible: false,
                })
            },
            Err(e) => if fault_resource(fault) is Some && !fixture_resources().contains(
                fault_resource(fault)->Some_0,
            ) {
                e == BundleFaultError::UnknownResource
            } else {
                &&& e == BundleFaultError::Fixture
                &&& !fits(advertisement@, other_identity@, other_owner, now_unix_ms)
            },
        },
{
    if let Err(e) = validate_fault(fault) {
        return Err(e);
    }
    let resources = manifest_resources();
    let ids = advertisement.identity().resource_ids();
    let holder = advertisement.owner();
    if ids.len() != 3 || ids[0] != resources[0] || ids[1] != resources[1] || ids[2]
        != resources[2] {
        return Err(BundleFaultError::Fixture);
    }
    assert(ids@ =~= fixture_resources());
    if advertisement.identity().manifest() == other_identity.manifest() || holder == other_owner {
        return Err(BundleFaultError::Fixture);
    }
    if advertisement.expires_at_unix_ms() <= now_unix_ms || advertisement.expires_at_unix_ms()
        - now_unix_ms <= HANGING_PULL_MS {
        return Err(BundleFaultError::Fixture);
    }
    let advertised = advertisement.key();
    let own_key = BundleKey::new(
        advertisement.identity(),
        advertised.boundary_hash,
        advertised.boundary_tokens,
    );
    let other_key = BundleKey::new(
        other_identity,
        advertised.boundary_hash,
        advertised.boundary_tokens,
    );
    let (own_key, other_key) = match (own_key, other_key) {
        (Ok(own_key), Ok(other_key)) => (own_key, other_key),
        _ => {
            return Err(BundleFaultError::Fixture);
        },
    };
    let mismatched = match fault {
        BundleFault::ManifestMismatch => true,
        _ => false,
    };
    let (expected_identity, query_key) = if mismatched {
        (other_identity, other_key)
    } else {
        (advertisement.identity(), own_key)
    };
    let offered = match fault {
        BundleFault::OwnerLost => advertisement.with_owner(other_owner),
        _ => advertisement.clone(),
    };
    let mut directory = RecordingBundleDirectory::new(mismatched);
    directory.advertise_bundle(offered, lease_id);
    let keys = vec![query_key];
    proof {
        assert(keys@[0] == query_key);
        assert(!mismatched ==> keys@.contains(advertisement@.key));
    }
    let query = BundleDiscoveryQuery::new(expected_identity.clone(), keys, now_unix_ms);
    let candidate = match directory.discover_bundle(&query) {
        BundleDiscoveryOutcome::Hit(candidate) => *candidate,
        BundleDiscoveryOutcome::Miss(_) => {
            return Err(BundleFaultError::Undiscovered);
        },
    };
    let mut target = PullTarget { catalog: BundleCatalog::new(), loads: Vec::new() };
    let outcome = run_pull(
        &mut target,
        fault,
        holder,
        candidate,
        expected_identity.clone(),
        now_unix_ms,
    );
    let terminal_reason = match outcome {
        BundlePullOutcome::Miss(reason) => reason,
        BundlePullOutcome::Pulled(_) => {
            return Err(BundleFaultError::Committed);
        },
    };
    let catalog_visible = target.catalog.lease_exact(advertisement.identity(), &advertised).is_some()
        || target.catalog.lease_exact(expected_identity, &query_key).is_some();
    let g1_visible = target.loads.len() > 0;
    Ok(BundleFaultOutcome { terminal_reason, catalog_visible, g1_visible })
}

/// Each failure ends a pull with a reason of its own: blocks that are not there make it incomplete,
/// another manifest makes it incompatible, and a broken transfer, a lost owner and a deadline are
/// reported as what they are.
pub proof fn failures_are_told_apart(a: BundleFault, b: BundleFault)
    ensures
        expected_reason(a) == expected_reason(b) ==> (a is MissingResource <==> b is MissingResource)
            && (a is ManifestMismatch <==> b is ManifestMismatch) && (a is RemoteTransfer
            <==> b is RemoteTransfer) && (a is OwnerLost <==> b is OwnerLost) && (a is Timeout
            <==> b is Timeout),
        a is MissingResource <==> expected_reason(a) is Incomplete,
        a is ManifestMismatch <==> expected_reason(a) is Incompatible,
        a is RemoteTransfer <==> expected_reason(a) is TransferFailed,
        a is OwnerLost <==> expected_reason(a) is OwnerLost,
        a is Timeout <==> expected_reason(a) is TimedOut,
        fault_resource(a) is Some <==> a is MissingResource || a is RemoteTransfer,
        a matches BundleFault::MissingResource(resource) ==> fault_resource(a) == Some(resource),
        a matches BundleFault::RemoteTransfer(resource) ==> fault_resource(a) == Some(resource),
{
}

/// Failures are injected only where they can be seen: the bundle has the expected resources, another
/// manifest and another owner to put in place of its own, and a lease that outlasts a pull that
/// hangs.
pub proof fn fixtures_leave_room_for_every_failure(
    advertisement: AdvertisementView,
    other_identity: IdentityView,
    other_owner: InstanceId,
    now_unix_ms: u64,
)
    requires
        fits(advertisement, other_identity, other_owner, now_unix_ms),
    ensures
        advertisement.identity.ids().len() == 3,
        advertisement.identity != other_identity,
        advertisement.identity.manifest != other_identity.manifest,
        advertisement.owner != other_owner,
        now_unix_ms + HANGING_PULL_MS < advertisement.expires_at_unix_ms,
{
}

} // verus!
