//! One attempt to acquire every resource of a leased bundle and publish it locally.
//!
//! The attempt is a machine: it says what to do next, and is told what came of it. Nothing is
//! handed to the local commit until every resource of the manifest has been staged.

use crate::ids::{BundleKey, InstanceId, LogicalResourceId, SequenceHash, SessionId};
use crate::lists::{copy_hashes, same_hashes};
use crate::manifest::{lineage_ids, lineage_views, CacheIdentity, IdentityView, LineageView};
use crate::remote::deadline::{BundlePullLimits, PullDeadline, PullInterruption};
use crate::remote::search::{
    BundleMissReason, BundlePullOutcome, CandidateView, RemoteBundleCandidate,
};
use crate::time::{Duration, Instant};
use vstd::prelude::*;

verus! {

/// A holder's permission to pull one resource through one session.
#[derive(Clone, Copy, Debug, PartialEq, Eq, Structural)]
pub struct TransferCapability {
    pub session: SessionId,
    pub instance_id: InstanceId,
    pub resource: LogicalResourceId,
}

/// A holder's answer to a request for blocks.
#[derive(Debug)]
pub enum OpenTransferSessionResponse {
    /// The blocks are committed to the session.
    Sync { capability: TransferCapability, committed: Vec<SequenceHash> },
    /// The blocks will follow.
    Async { capability: TransferCapability },
    NoBlocksFound,
}

/// One resource whose session is open.
#[derive(Debug)]
pub struct OpenedResource {
    pub resource: LogicalResourceId,
    pub hashes: Vec<SequenceHash>,
    pub capability: TransferCapability,
}

/// The mathematical content of an [`OpenedResource`].
pub struct OpenedView {
    pub resource: LogicalResourceId,
    pub hashes: Seq<SequenceHash>,
    pub capability: TransferCapability,
}

impl View for OpenedResource {
    type V = OpenedView;

    open spec fn view(&self) -> OpenedView {
        OpenedView {
            resource: self.resource,
            hashes: self.hashes@,
            capability: self.capability,
        }
    }
}

/// The content of a list of open resources.
pub open spec fn opened_views(opened: Seq<OpenedResource>) -> Seq<OpenedView> {
    Seq::new(opened.len(), |i: int| opened[i]@)
}

/// Why all sessions of an attempt are closed.
#[derive(Clone, Copy, Debug, PartialEq, Eq, Structural)]
pub enum CloseReason {
    AcquisitionFailed,
    AcquisitionInterrupted,
    HolderChanged,
    ResourceOmitted,
    UnexpectedAsync,
    IncompleteAcquisition,
}

impl CloseReason {
    pub open spec fn text(self) -> Seq<char> {
        match self {
            CloseReason::AcquisitionFailed => "bundle acquisition failed"@,
            CloseReason::AcquisitionInterrupted => "bundle acquisition interrupted"@,
            CloseReason::HolderChanged => "bundle holder identity changed"@,
            CloseReason::ResourceOmitted => "bundle resource omitted"@,
            CloseReason::UnexpectedAsync => "unexpected async bundle acquisition"@,
            CloseReason::IncompleteAcquisition => "incomplete bundle acquisition"@,
        }
    }

    pub fn as_text(self) -> (r: &'static str)
        ensures
            r@ == self.text(),
    {
        match self {
            CloseReason::AcquisitionFailed => "bundle acquisition failed",
            CloseReason::AcquisitionInterrupted => "bundle acquisition interrupted",
            CloseReason::HolderChanged => "bundle holder identity changed",
            CloseReason::ResourceOmitted => "bundle resource omitted",
            CloseReason::UnexpectedAsync => "unexpected async bundle acquisition",
            CloseReason::IncompleteAcquisition => "incomplete bundle acquisition",
        }
    }
}

/// How the pull of one open resource ended.
#[derive(Debug)]
pub enum ResourcePull {
    Staged { resource: LogicalResourceId, hashes: Vec<SequenceHash> },
    Failed(BundleMissReason),
    /// The task that drained the pull broke down.
    TaskFailed,
    Interrupted(PullInterruption),
}

/// How urgent a reason is: of several, the most urgent is reported.
pub open spec fn reason_rank(reason: BundleMissReason) -> int {
    match reason {
        BundleMissReason::Canceled => 7,
        BundleMissReason::OwnerLost => 6,
        BundleMissReason::Expired => 5,
        BundleMissReason::TimedOut => 4,
        BundleMissReason::ChecksumFailed => 4,
        BundleMissReason::TransferFailed => 3,
        BundleMissReason::Incomplete => 2,
        BundleMissReason::CommitFailed => 1,
        BundleMissReason::Incompatible => 1,
        BundleMissReason::NotFound => 1,
    }
}

fn rank(reason: BundleMissReason) -> (r: u8)
    ensures
        r == reason_rank(reason),
{
    match reason {
        BundleMissReason::Canceled => 7,
        BundleMissReason::OwnerLost => 6,
        BundleMissReason::Expired => 5,
        BundleMissReason::TimedOut => 4,
        BundleMissReason::ChecksumFailed => 4,
        BundleMissReason::TransferFailed => 3,
        BundleMissReason::Incomplete => 2,
        BundleMissReason::CommitFailed => 1,
        BundleMissReason::Incompatible => 1,
        BundleMissReason::NotFound => 1,
    }
}

/// The reason that stands once another comes in.
pub open spec fn merged_reason(
    current: Option<BundleMissReason>,
    incoming: BundleMissReason,
) -> BundleMissReason {
    match current {
        Some(current) => if reason_rank(current) >= reason_rank(incoming) {
            current
        } else {
            incoming
        },
        None => incoming,
    }
}

/// The more urgent of two reasons, the earlier one where they are equal.
pub fn merge_reason(
    current: Option<BundleMissReason>,
    incoming: BundleMissReason,
) -> (r: Option<BundleMissReason>)
    ensures
        r == Some(merged_reason(current, incoming)),
{
    match current {
        Some(current) => if rank(current) >= rank(incoming) {
            Some(current)
        } else {
            Some(incoming)
        },
        None => Some(incoming),
    }
}

/// What one resource's pull adds to the reasons for a miss.
pub open spec fn pull_miss(
    opened: OpenedView,
    pull: ResourcePull,
    deadline: PullDeadline,
) -> Option<BundleMissReason> {
    match pull {
        ResourcePull::Staged { resource, hashes } => if resource == opened.resource && hashes@
            == opened.hashes {
            None
        } else {
            Some(BundleMissReason::Incomplete)
        },
        ResourcePull::Failed(reason) => Some(reason),
        ResourcePull::TaskFailed => Some(BundleMissReason::TransferFailed),
        ResourcePull::Interrupted(interruption) => Some(deadline.miss(interruption)),
    }
}

/// The pulls that have a result.
pub open spec fn answered(opened: Seq<OpenedView>, pulls: Seq<ResourcePull>) -> int {
    if opened.len() <= pulls.len() {
        opened.len() as int
    } else {
        pulls.len() as int
    }
}

/// `miss` is the most urgent reason among the pulls' results, the first of equal ones, and none
/// exactly when every result is the staged resource that was asked for.
pub open spec fn most_urgent(
    opened: Seq<OpenedView>,
    pulls: Seq<ResourcePull>,
    deadline: PullDeadline,
    end: int,
    miss: Option<BundleMissReason>,
) -> bool {
    match miss {
        None => forall|i: int|
            0 <= i < end ==> pull_miss(#[trigger] opened[i], pulls[i], deadline) is None,
        Some(reason) => exists|at: int|
            {
                &&& 0 <= at < end
                &&& pull_miss(#[trigger] opened[at], pulls[at], deadline) == Some(reason)
                &&& forall|i: int|
                    0 <= i < end ==> match pull_miss(#[trigger] opened[i], pulls[i], deadline) {
                        Some(other) => reason_rank(other) <= reason_rank(reason) && (i < at
                            ==> reason_rank(other) < reason_rank(reason)),
                        None => true,
                    }
            },
    }
}

/// The most urgent reason among the results of the pulls.
pub fn settle_pulls(
    opened: &[OpenedResource],
    pulls: &[ResourcePull],
    deadline: &PullDeadline,
) -> (r: Option<BundleMissReason>)
    ensures
        most_urgent(
            opened_views(opened@),
            pulls@,
            *deadline,
            answered(opened_views(opened@), pulls@),
            r,
        ),
{
    let ghost views = opened_views(opened@);
    let mut miss: Option<BundleMissReason> = None;
    let ghost mut chosen: int = 0;
    let mut at: usize = 0;
    while at < opened.len() && at < pulls.len()
        invariant
            at <= opened@.len(),
            at <= pulls@.len(),
            views == opened_views(opened@),
            match miss {
                None => forall|i: int|
                    0 <= i < at ==> pull_miss(#[trigger] views[i], pulls@[i], *deadline) is None,
                Some(reason) => {
                    &&& 0 <= chosen < at
                    &&& pull_miss(views[chosen], pulls@[chosen], *deadline) == Some(reason)
                    &&& forall|i: int|
                        0 <= i < at ==> match pull_miss(
                            #[trigger] views[i],
                            pulls@[i],
                            *deadline,
                        ) {
                            Some(other) => reason_rank(other) <= reason_rank(reason) && (i < chosen
                                ==> reason_rank(other) < reason_rank(reason)),
                            None => true,
                        }
                },
            },
        decreases opened@.len() - at,
    {
        let incoming = match &pulls[at] {
            ResourcePull::Staged { resource, hashes } => if *resource == opened[at].resource
                && same_hashes(hashes.as_slice(), opened[at].hashes.as_slice()) {
                None
            } else {
                Some(BundleMissReason::Incomplete)
            },
            ResourcePull::Failed(reason) => Some(*reason),
            ResourcePull::TaskFailed => Some(BundleMissReason::TransferFailed),
            ResourcePull::Interrupted(interruption) => Some(deadline.reason(*interruption)),
        };
        assert(incoming == pull_miss(views[at as int], pulls@[at as int], *deadline));
        if let Some(reason) = incoming {
            let ghost before = miss;
            miss = merge_reason(miss, reason);
            proof {
                if before is None || reason_rank(before->Some_0) < reason_rank(reason) {
                    chosen = at as int;
                }
            }
        }
        at = at + 1;
    }
    proof {
        if let Some(reason) = miss {
            assert(pull_miss(views[chosen], pulls@[chosen], *deadline) == Some(reason));
        }
    }
    miss
}

/// The resources that were staged as asked, each with its number of blocks, in resource order.
pub fn staged_blocks(opened: &[OpenedResource], pulls: &[ResourcePull]) -> (r: Vec<
    (LogicalResourceId, usize),
>)
    ensures
        r@ == staged_up_to(
            opened_views(opened@),
            pulls@,
            answered(opened_views(opened@), pulls@),
        ),
{
    let ghost views = opened_views(opened@);
    let mut staged: Vec<(LogicalResourceId, usize)> = Vec::new();
    let mut at: usize = 0;
    while at < opened.len() && at < pulls.len()
        invariant
            at <= opened@.len(),
            at <= pulls@.len(),
            views == opened_views(opened@),
            staged@ == staged_up_to(views, pulls@, at as int),
        decreases opened@.len() - at,
    {
        if let ResourcePull::Staged { resource, hashes } = &pulls[at] {
            if *resource == opened[at].resource && same_hashes(
                hashes.as_slice(),
                opened[at].hashes.as_slice(),
            ) {
                staged.push((*resource, hashes.len()));
            }
        }
        at = at + 1;
    }
    staged
}

/// The resources among the first `end` pulls that were staged as asked.
pub open spec fn staged_up_to(
    opened: Seq<OpenedView>,
    pulls: Seq<ResourcePull>,
    end: int,
) -> Seq<(LogicalResourceId, usize)>
    decreases end,
{
    if end <= 0 {
        Seq::empty()
    } else {
        let before = staged_up_to(opened, pulls, end - 1);
        match pulls[end - 1] {
            ResourcePull::Staged { resource, hashes } => if resource == opened[end - 1].resource
                && hashes@ == opened[end - 1].hashes {
                before.push((resource, hashes@.len() as usize))
            } else {
                before
            },
            _ => before,
        }
    }
}

/// Where an attempt stands.
#[derive(Clone, Copy, Debug, PartialEq, Eq, Structural)]
pub enum PullState {
    Idle,
    Reserving,
    Opening,
    /// Sessions are being closed before this miss is reported.
    Closing(BundleMissReason),
    Pulling,
    Committing,
    Finished(BundlePullOutcome),
}

/// What an attempt is told.
#[derive(Debug)]
pub enum PullEvent {
    Started { canceled: bool, now_unix_ms: u64 },
    /// The local publication generation, or `None` where none could be reserved.
    Reserved { generation: Option<u64>, now_unix_ms: u64, now: Instant },
    Opened { response: OpenTransferSessionResponse, now: Instant },
    OpenFailed(BundleMissReason),
    Interrupted(PullInterruption),
    Closed,
    /// The results of all pulls, in the order of the open resources.
    Pulled { pulls: Vec<ResourcePull>, canceled: bool, now_unix_ms: u64 },
    Committed,
    CommitFailed,
}

/// What an attempt asks for.
#[derive(Debug)]
pub enum PullAction {
    ReserveGeneration,
    Open { resource: LogicalResourceId, hashes: Vec<SequenceHash>, watchdog: Duration },
    /// Close every open session.
    CloseAll(CloseReason),
    /// Pull every open resource.
    PullAll,
    /// Publish the staged resources under a generation.
    Commit { key: BundleKey, generation: u64 },
    Finish(BundlePullOutcome),
    /// The event does not belong to the state and changes nothing.
    Ignore,
}

/// The mathematical content of a [`PullAction`].
pub enum PullActionView {
    ReserveGeneration,
    Open { resource: LogicalResourceId, hashes: Seq<SequenceHash>, watchdog: nat },
    CloseAll(CloseReason),
    PullAll,
    Commit { key: BundleKey, generation: u64 },
    Finish(BundlePullOutcome),
    Ignore,
}

impl View for PullAction {
    type V = PullActionView;

    open spec fn view(&self) -> PullActionView {
        match self {
            PullAction::ReserveGeneration => PullActionView::ReserveGeneration,
            PullAction::Open { resource, hashes, watchdog } => PullActionView::Open {
                resource: *resource,
                hashes: hashes@,
                watchdog: watchdog@,
            },
            PullAction::CloseAll(reason) => PullActionView::CloseAll(*reason),
            PullAction::PullAll => PullActionView::PullAll,
            PullAction::Commit { key, generation } => PullActionView::Commit {
                key: *key,
                generation: *generation,
            },
            PullAction::Finish(outcome) => PullActionView::Finish(*outcome),
            PullAction::Ignore => PullActionView::Ignore,
        }
    }
}

/// The mathematical content of a [`RemoteBundlePull`].
pub struct PullView {
    pub identity: IdentityView,
    pub candidate: CandidateView,
    pub search_deadline: Instant,
    pub limits: BundlePullLimits,
    pub state: PullState,
    pub deadline: PullDeadline,
    pub generation: u64,
    pub opened: Seq<OpenedView>,
}

/// Whether a holder's answer opens the wanted resource; otherwise why all is closed, what is
/// reported, and whether the answer left a session to close.
pub open spec fn open_fault(
    owner: InstanceId,
    want: LineageView,
    response: OpenTransferSessionResponse,
) -> Option<(CloseReason, BundleMissReason)> {
    match response {
        OpenTransferSessionResponse::Sync { capability, committed } => if capability.instance_id
            != owner {
            Some((CloseReason::HolderChanged, BundleMissReason::OwnerLost))
        } else if capability.resource != want.resource || committed@ != want.hashes {
            Some((CloseReason::IncompleteAcquisition, BundleMissReason::Incomplete))
        } else {
            None
        },
        OpenTransferSessionResponse::Async { capability } => Some(
            (
                CloseReason::UnexpectedAsync,
                if capability.instance_id == owner {
                    BundleMissReason::Incomplete
                } else {
                    BundleMissReason::OwnerLost
                },
            ),
        ),
        OpenTransferSessionResponse::NoBlocksFound => Some(
            (CloseReason::ResourceOmitted, BundleMissReason::Incomplete),
        ),
    }
}

impl PullView {
    pub open spec fn lineages(self) -> Seq<LineageView> {
        self.candidate.advertisement.lineages
    }

    pub open spec fn opening_started(self) -> bool {
        self.state == PullState::Opening || self.state == PullState::Pulling || self.state
            == PullState::Committing
    }

    /// What every reachable attempt keeps: past the first checks, the offer is one of the expected
    /// identity, and what is open so far is what was asked for, in order and from the owner.
    pub open spec fn wf(self) -> bool {
        &&& self.candidate.advertisement.wf()
        &&& self.opening_started() ==> {
            &&& self.candidate.advertisement.identity == self.identity
            &&& self.opened.len() <= self.lineages().len()
            &&& forall|i: int|
                0 <= i < self.opened.len() ==> {
                    &&& (#[trigger] self.opened[i]).resource == self.lineages()[i].resource
                    &&& self.opened[i].hashes == self.lineages()[i].hashes
                    &&& self.opened[i].capability.instance_id
                        == self.candidate.advertisement.owner
                    &&& self.opened[i].capability.resource == self.lineages()[i].resource
                }
        }
        &&& self.state == PullState::Reserving ==> self.candidate.advertisement.identity
            == self.identity && self.opened.len() == 0
        &&& self.state == PullState::Idle ==> self.opened.len() == 0
        &&& self.state == PullState::Opening ==> self.opened.len() < self.lineages().len()
        &&& (self.state == PullState::Pulling || self.state == PullState::Committing)
            ==> self.opened.len() == self.lineages().len()
    }

    pub open spec fn finishing(self, outcome: BundlePullOutcome) -> (PullView, PullActionView) {
        (
            PullView { state: PullState::Finished(outcome), ..self },
            PullActionView::Finish(outcome),
        )
    }

    pub open spec fn missing(self, reason: BundleMissReason) -> (PullView, PullActionView) {
        self.finishing(BundlePullOutcome::Miss(reason))
    }

    pub open spec fn closing(self, why: CloseReason, miss: BundleMissReason) -> (
        PullView,
        PullActionView,
    ) {
        (PullView { state: PullState::Closing(miss), ..self }, PullActionView::CloseAll(why))
    }

    /// Asks for the next resource, or for all pulls once every resource is open.
    pub open spec fn asking(self, now: Instant) -> (PullView, PullActionView) {
        if self.opened.len() < self.lineages().len() {
            (
                PullView { state: PullState::Opening, ..self },
                PullActionView::Open {
                    resource: self.lineages()[self.opened.len() as int].resource,
                    hashes: self.lineages()[self.opened.len() as int].hashes,
                    watchdog: self.deadline.watchdog_nanos(self.limits, now),
                },
            )
        } else {
            (PullView { state: PullState::Pulling, ..self }, PullActionView::PullAll)
        }
    }

    /// The attempt with one more session, where the holder's answer left one.
    pub open spec fn with_session(self, response: OpenTransferSessionResponse) -> PullView {
        let want = self.lineages()[self.opened.len() as int];
        match response {
            OpenTransferSessionResponse::Sync { capability, .. } => PullView {
                opened: self.opened.push(
                    OpenedView { resource: want.resource, hashes: want.hashes, capability },
                ),
                ..self
            },
            OpenTransferSessionResponse::Async { capability } => PullView {
                opened: self.opened.push(
                    OpenedView { resource: want.resource, hashes: want.hashes, capability },
                ),
                ..self
            },
            OpenTransferSessionResponse::NoBlocksFound => self,
        }
    }

    pub open spec fn started(self, canceled: bool, now_unix_ms: u64) -> (PullView, PullActionView) {
        if canceled {
            self.missing(BundleMissReason::Canceled)
        } else if now_unix_ms >= self.candidate.lease_expires_at_unix_ms {
            self.missing(BundleMissReason::Expired)
        } else if self.candidate.advertisement.identity != self.identity
            || !self.candidate.advertisement.key.compatible(self.identity) {
            self.missing(BundleMissReason::Incompatible)
        } else {
            (
                PullView { state: PullState::Reserving, ..self },
                PullActionView::ReserveGeneration,
            )
        }
    }

    pub open spec fn opened_by(self, response: OpenTransferSessionResponse, now: Instant) -> (
        PullView,
        PullActionView,
    ) {
        let want = self.lineages()[self.opened.len() as int];
        match open_fault(self.candidate.advertisement.owner, want, response) {
            Some((why, miss)) => self.with_session(response).closing(why, miss),
            None => self.with_session(response).asking(now),
        }
    }

    /// What the results of all pulls lead to, given the most urgent reason among them.
    pub open spec fn pulled(
        self,
        miss: Option<BundleMissReason>,
        results: nat,
        canceled: bool,
        now_unix_ms: u64,
    ) -> (PullView, PullActionView) {
        if miss is Some {
            self.missing(miss->Some_0)
        } else if canceled {
            self.missing(BundleMissReason::Canceled)
        } else if now_unix_ms >= self.candidate.lease_expires_at_unix_ms {
            self.missing(BundleMissReason::Expired)
        } else if results < self.opened.len() {
            self.missing(BundleMissReason::Incomplete)
        } else {
            (
                PullView { state: PullState::Committing, ..self },
                PullActionView::Commit {
                    key: self.candidate.advertisement.key,
                    generation: self.generation,
                },
            )
        }
    }

    /// Whether an event can take the attempt from `self` to `after`, asking for `action`.
    pub open spec fn steps(self, event: PullEvent, after: PullView, action: PullActionView) -> bool {
        match (self.state, event) {
            (PullState::Idle, PullEvent::Started { canceled, now_unix_ms }) => (after, action)
                == self.started(canceled, now_unix_ms),
            (
                PullState::Reserving,
                PullEvent::Reserved { generation: Some(generation), now_unix_ms, now },
            ) => {
                &&& after.deadline.made(
                    self.candidate.lease_expires_at_unix_ms,
                    self.search_deadline,
                    now_unix_ms,
                    now,
                )
                &&& (after, action) == (PullView {
                    generation,
                    deadline: after.deadline,
                    ..self
                }).asking(now)
            },
            (PullState::Reserving, PullEvent::Reserved { generation: None, .. }) => (after, action)
                == self.missing(BundleMissReason::CommitFailed),
            (PullState::Opening, PullEvent::Opened { response, now }) => (after, action)
                == self.opened_by(response, now),
            (PullState::Opening, PullEvent::OpenFailed(reason)) => (after, action) == self.closing(
                CloseReason::AcquisitionFailed,
                reason,
            ),
            (PullState::Opening, PullEvent::Interrupted(interruption)) => (after, action)
                == self.closing(
                CloseReason::AcquisitionInterrupted,
                self.deadline.miss(interruption),
            ),
            (PullState::Closing(miss), PullEvent::Closed) => (after, action) == self.missing(miss),
            (PullState::Pulling, PullEvent::Pulled { pulls, canceled, now_unix_ms }) => exists|
                miss: Option<BundleMissReason>,
            |
                #[trigger] most_urgent(
                    self.opened,
                    pulls@,
                    self.deadline,
                    answered(self.opened, pulls@),
                    miss,
                ) && (after, action) == self.pulled(miss, pulls@.len(), canceled, now_unix_ms),
            (PullState::Committing, PullEvent::Committed) => (after, action) == self.finishing(
                BundlePullOutcome::Pulled(self.candidate.advertisement.key),
            ),
            (PullState::Committing, PullEvent::CommitFailed) => (after, action) == self.missing(
                BundleMissReason::CommitFailed,
            ),
            (PullState::Committing, PullEvent::Interrupted(interruption)) => (after, action)
                == self.missing(self.deadline.miss(interruption)),
            _ => after == self && action == PullActionView::Ignore,
        }
    }
}

/// One complete-bundle acquisition attempt.
#[derive(Debug)]
pub struct RemoteBundlePull {
    identity: CacheIdentity,
    candidate: RemoteBundleCandidate,
    search_deadline: Instant,
    limits: BundlePullLimits,
    state: PullState,
    deadline: PullDeadline,
    generation: u64,
    opened: Vec<OpenedResource>,
}

impl View for RemoteBundlePull {
    type V = PullView;

    closed spec fn view(&self) -> PullView {
        PullView {
            identity: self.identity@,
            candidate: self.candidate@,
            search_deadline: self.search_deadline,
            limits: self.limits,
            state: self.state,
            deadline: self.deadline,
            generation: self.generation,
            opened: opened_views(self.opened@),
        }
    }
}

impl RemoteBundlePull {
    pub fn new(
        candidate: RemoteBundleCandidate,
        expected_identity: CacheIdentity,
        search_deadline: Instant,
        limits: BundlePullLimits,
    ) -> (r: Self)
        ensures
            r@ == (PullView {
                identity: expected_identity@,
                candidate: candidate@,
                search_deadline,
                limits,
                state: PullState::Idle,
                deadline: PullDeadline { at: search_deadline, lease_limited: false },
                generation: 0,
                opened: Seq::empty(),
            }),
            r@.wf(),
    {
        let resources: usize = candidate.advertisement().lineages().len();
        let r = RemoteBundlePull {
            identity: expected_identity,
            candidate,
            search_deadline,
            limits,
            state: PullState::Idle,
            deadline: PullDeadline { at: search_deadline, lease_limited: false },
            generation: 0,
            opened: Vec::with_capacity(resources),
        };
        assert(opened_views(r.opened@) =~= Seq::<OpenedView>::empty());
        r
    }

    pub fn state(&self) -> (r: PullState)
        ensures
            r == self@.state,
    {
        self.state
    }

    /// The sessions that are open so far, in resource order.
    pub fn opened(&self) -> (r: &[OpenedResource])
        ensures
            opened_views(r@) == self@.opened,
    {
        self.opened.as_slice()
    }

    pub fn deadline(&self) -> (r: PullDeadline)
        ensures
            r == self@.deadline,
    {
        self.deadline
    }

    pub fn candidate(&self) -> (r: &RemoteBundleCandidate)
        ensures
            r@ == self@.candidate,
    {
        &self.candidate
    }

    fn finish(&mut self, outcome: BundlePullOutcome) -> (r: PullAction)
        ensures
            (final(self)@, r@) == old(self)@.finishing(outcome),
    {
        self.state = PullState::Finished(outcome);
        PullAction::Finish(outcome)
    }

    fn miss(&mut self, reason: BundleMissReason) -> (r: PullAction)
        ensures
            (final(self)@, r@) == old(self)@.missing(reason),
    {
        self.finish(BundlePullOutcome::Miss(reason))
    }

    fn close(&mut self, why: CloseReason, miss: BundleMissReason) -> (r: PullAction)
        ensures
            (final(self)@, r@) == old(self)@.closing(why, miss),
    {
        self.state = PullState::Closing(miss);
        PullAction::CloseAll(why)
    }

    fn ask(&mut self, now: Instant) -> (r: PullAction)
        ensures
            (final(self)@, r@) == old(self)@.asking(now),
    {
        let lineages = self.candidate.advertisement().lineages();
        let next: usize = self.opened.len();
        if next < lineages.len() {
            let resource = lineages[next].resource;
            let hashes = copy_hashes(lineages[next].hashes.as_slice());
            proof {
                assert(lineage_views(lineages@)[next as int] == lineages@[next as int]@);
            }
            let watchdog = self.deadline.watchdog(&self.limits, now);
            self.state = PullState::Opening;
            PullAction::Open { resource, hashes, watchdog }
        } else {
            self.state = PullState::Pulling;
            PullAction::PullAll
        }
    }

    fn start(&mut self, canceled: bool, now_unix_ms: u64) -> (r: PullAction)
        ensures
            (final(self)@, r@) == old(self)@.started(canceled, now_unix_ms),
    {
        if canceled {
            return self.miss(BundleMissReason::Canceled);
        }
        if now_unix_ms >= self.candidate.lease_expires_at_unix_ms() {
            return self.miss(BundleMissReason::Expired);
        }
        let advertisement = self.candidate.advertisement();
        let key = advertisement.key();
        if !advertisement.identity().same_as(&self.identity) || !key.is_compatible_with(
            &self.identity,
        ) {
            return self.miss(BundleMissReason::Incompatible);
        }
        self.state = PullState::Reserving;
        PullAction::ReserveGeneration
    }

    fn accept(&mut self, response: OpenTransferSessionResponse, now: Instant) -> (r: PullAction)
        requires
            old(self)@.opened.len() < old(self)@.lineages().len(),
        ensures
            (final(self)@, r@) == old(self)@.opened_by(response, now),
    {
        let advertisement = self.candidate.advertisement();
        let owner = advertisement.owner();
        let lineages = advertisement.lineages();
        let next: usize = self.opened.len();
        let resource = lineages[next].resource;
        let hashes = copy_hashes(lineages[next].hashes.as_slice());
        proof {
            assert(lineage_views(lineages@)[next as int] == lineages@[next as int]@);
        }
        match response {
            OpenTransferSessionResponse::Sync { capability, committed } => {
                let same_owner = capability.instance_id == owner;
                let complete = capability.resource == resource && same_hashes(
                    committed.as_slice(),
                    hashes.as_slice(),
                );
                self.push_session(resource, hashes, capability);
                if !same_owner {
                    return self.close(CloseReason::HolderChanged, BundleMissReason::OwnerLost);
                }
                if !complete {
                    return self.close(
                        CloseReason::IncompleteAcquisition,
                        BundleMissReason::Incomplete,
                    );
                }
                self.ask(now)
            },
            OpenTransferSessionResponse::Async { capability } => {
                let miss = if capability.instance_id == owner {
                    BundleMissReason::Incomplete
                } else {
                    BundleMissReason::OwnerLost
                };
                self.push_session(resource, hashes, capability);
                self.close(CloseReason::UnexpectedAsync, miss)
            },
            OpenTransferSessionResponse::NoBlocksFound => self.close(
                CloseReason::ResourceOmitted,
                BundleMissReason::Incomplete,
            ),
        }
    }

    fn push_session(
        &mut self,
        resource: LogicalResourceId,
        hashes: Vec<SequenceHash>,
        capability: TransferCapability,
    )
        ensures
            final(self)@ == (PullView {
                opened: old(self)@.opened.push(
                    OpenedView { resource, hashes: hashes@, capability },
                ),
                ..old(self)@
            }),
    {
        let ghost before = self.opened@;
        self.opened.push(OpenedResource { resource, hashes, capability });
        assert(opened_views(self.opened@) =~= opened_views(before).push(
            OpenedView { resource, hashes: hashes@, capability },
        ));
    }

    /// Takes the attempt one step further.
    pub fn step(&mut self, event: PullEvent) -> (r: PullAction)
        requires
            old(self)@.wf(),
        ensures
            old(self)@.steps(event, final(self)@, r@),
            final(self)@.wf(),
    {
        match (self.state, event) {
            (PullState::Idle, PullEvent::Started { canceled, now_unix_ms }) => self.start(
                canceled,
                now_unix_ms,
            ),
            (PullState::Reserving, PullEvent::Reserved { generation, now_unix_ms, now }) => {
                match generation {
                    Some(generation) => {
                        self.deadline = PullDeadline::new(
                            self.candidate.lease_expires_at_unix_ms(),
                            self.search_deadline,
                            now_unix_ms,
                            now,
                        );
                        self.generation = generation;
                        self.ask(now)
                    },
                    None => self.miss(BundleMissReason::CommitFailed),
                }
            },
            (PullState::Opening, PullEvent::Opened { response, now }) => self.accept(response, now),
            (PullState::Opening, PullEvent::OpenFailed(reason)) => self.close(
                CloseReason::AcquisitionFailed,
                reason,
            ),
            (PullState::Opening, PullEvent::Interrupted(interruption)) => {
                let miss = self.deadline.reason(interruption);
                self.close(CloseReason::AcquisitionInterrupted, miss)
            },
            (PullState::Closing(miss), PullEvent::Closed) => self.miss(miss),
            (PullState::Pulling, PullEvent::Pulled { pulls, canceled, now_unix_ms }) => {
                let miss = settle_pulls(self.opened.as_slice(), pulls.as_slice(), &self.deadline);
                if let Some(reason) = miss {
                    return self.miss(reason);
                }
                if canceled {
                    return self.miss(BundleMissReason::Canceled);
                }
                if now_unix_ms >= self.candidate.lease_expires_at_unix_ms() {
                    return self.miss(BundleMissReason::Expired);
                }
                if pulls.len() < self.opened.len() {
                    return self.miss(BundleMissReason::Incomplete);
                }
                self.state = PullState::Committing;
                PullAction::Commit {
                    key: self.candidate.advertisement().key(),
                    generation: self.generation,
                }
            },
            (PullState::Committing, PullEvent::Committed) => {
                let key = self.candidate.advertisement().key();
                self.finish(BundlePullOutcome::Pulled(key))
            },
            (PullState::Committing, PullEvent::CommitFailed) => self.miss(
                BundleMissReason::CommitFailed,
            ),
            (PullState::Committing, PullEvent::Interrupted(interruption)) => {
                let miss = self.deadline.reason(interruption);
                self.miss(miss)
            },
            _ => PullAction::Ignore,
        }
    }
}

/// A commit is asked for only when every resource of the expected identity is open with exactly
/// its advertised blocks, every one of them was staged as asked, and the lease still holds.
pub proof fn commit_needs_every_resource_staged(
    pull: PullView,
    event: PullEvent,
    after: PullView,
    action: PullActionView,
)
    requires
        pull.wf(),
        pull.steps(event, after, action),
        action matches PullActionView::Commit { .. },
    ensures
        action == (PullActionView::Commit {
            key: pull.candidate.advertisement.key,
            generation: pull.generation,
        }),
        pull.candidate.advertisement.identity == pull.identity,
        lineage_ids(pull.lineages()) == pull.identity.ids(),
        event matches PullEvent::Pulled { pulls, canceled, now_unix_ms } && {
            &&& !canceled
            &&& now_unix_ms < pull.candidate.lease_expires_at_unix_ms
            &&& forall|i: int|
                0 <= i < pull.lineages().len() ==> (#[trigger] pulls@[i] matches
                    ResourcePull::Staged { resource, hashes } && resource
                    == pull.lineages()[i].resource && hashes@ == pull.lineages()[i].hashes)
        },
{
    if let PullEvent::Pulled { pulls, canceled, now_unix_ms } = event {
        assert forall|i: int| 0 <= i < pull.lineages().len() implies (#[trigger] pulls@[i] matches
            ResourcePull::Staged { resource, hashes } && resource == pull.lineages()[i].resource
            && hashes@ == pull.lineages()[i].hashes) by {
            assert(pull_miss(pull.opened[i], pulls@[i], pull.deadline) is None);
        }
    }
}

/// A bundle is reported as pulled only after the local commit of that very bundle succeeded.
pub proof fn pulled_only_after_commit(
    pull: PullView,
    event: PullEvent,
    after: PullView,
    action: PullActionView,
    key: BundleKey,
)
    requires
        pull.wf(),
        pull.steps(event, after, action),
        action == PullActionView::Finish(BundlePullOutcome::Pulled(key)),
    ensures
        pull.state == PullState::Committing,
        event == PullEvent::Committed,
        key == pull.candidate.advertisement.key,
{
}

/// A finished attempt stays finished: no event leads on from its outcome.
pub proof fn finished_pulls_stay_finished(
    pull: PullView,
    event: PullEvent,
    after: PullView,
    action: PullActionView,
)
    requires
        pull.state is Finished,
        pull.steps(event, after, action),
    ensures
        after == pull,
        action == PullActionView::Ignore,
{
}

/// While resources are being opened, every failure closes all sessions that were opened before it
/// is reported.
pub proof fn failed_openings_close_every_session(
    pull: PullView,
    event: PullEvent,
    after: PullView,
    action: PullActionView,
)
    requires
        pull.wf(),
        pull.state == PullState::Opening,
        pull.steps(event, after, action),
    ensures
        !(action is Finish),
        action is CloseAll ==> after.state is Closing && pull.opened.is_prefix_of(after.opened),
        action is CloseAll || action is Open || action is PullAll || action is Ignore,
{
}

/// Of several reasons a cancellation outranks the loss of the owner, that the end of the lease, that
/// the end of the search and a bad checksum, those a failed transfer, that missing blocks, and those
/// all other reasons.
pub proof fn reasons_are_ranked_by_urgency(reason: BundleMissReason)
    ensures
        reason_rank(BundleMissReason::Canceled) > reason_rank(BundleMissReason::OwnerLost),
        reason_rank(BundleMissReason::OwnerLost) > reason_rank(BundleMissReason::Expired),
        reason_rank(BundleMissReason::Expired) > reason_rank(BundleMissReason::TimedOut),
        reason_rank(BundleMissReason::TimedOut) == reason_rank(BundleMissReason::ChecksumFailed),
        reason_rank(BundleMissReason::TimedOut) > reason_rank(BundleMissReason::TransferFailed),
        reason_rank(BundleMissReason::TransferFailed) > reason_rank(BundleMissReason::Incomplete),
        reason is CommitFailed || reason is Incompatible || reason is NotFound ==> reason_rank(
            BundleMissReason::Incomplete,
        ) > reason_rank(reason) && reason_rank(reason) == reason_rank(
            BundleMissReason::NotFound,
        ),
{
}

/// An attempt starts exactly if it was not canceled, the lease still holds and the offer is one of
/// the expected identity, and is refused for the first of these that does not hold.
pub proof fn attempts_start_on_live_leases_of_the_identity(
    pull: PullView,
    canceled: bool,
    now_unix_ms: u64,
    after: PullView,
    action: PullActionView,
)
    requires
        pull.wf(),
        pull.state is Idle,
        pull.steps(PullEvent::Started { canceled, now_unix_ms }, after, action),
    ensures
        ({
            let live = now_unix_ms < pull.candidate.lease_expires_at_unix_ms;
            let same = pull.candidate.advertisement.identity == pull.identity;
            &&& action is ReserveGeneration <==> !canceled && live && same
            &&& canceled ==> action == PullActionView::Finish(
                BundlePullOutcome::Miss(BundleMissReason::Canceled),
            )
            &&& !canceled && !live ==> action == PullActionView::Finish(
                BundlePullOutcome::Miss(BundleMissReason::Expired),
            )
            &&& !canceled && live && !same ==> action == PullActionView::Finish(
                BundlePullOutcome::Miss(BundleMissReason::Incompatible),
            )
        }),
{
}

/// Resources are opened one after the other, in the order of the offer and with exactly the offered
/// blocks, each for no longer than the holder may keep it; once all are open, all are pulled.
pub proof fn resources_are_opened_in_order(
    pull: PullView,
    event: PullEvent,
    after: PullView,
    action: PullActionView,
)
    requires
        pull.wf(),
        pull.steps(event, after, action),
    ensures
        action matches PullActionView::Open { resource, hashes, watchdog } ==> {
            let next = pull.candidate.advertisement.lineages[after.opened.len() as int];
            &&& after.opened.len() < pull.candidate.advertisement.lineages.len()
            &&& resource == next.resource
            &&& hashes == next.hashes
            &&& watchdog >= 1_000_000
            &&& watchdog > 1_000_000 ==> watchdog <= pull.limits.holder_watchdog@
            &&& after.state is Opening
        },
        action is PullAll ==> after.opened.len() == pull.candidate.advertisement.lineages.len()
            && after.state is Pulling,
        after.candidate == pull.candidate,
        after.identity == pull.identity,
        after.limits == pull.limits,
        after.search_deadline == pull.search_deadline,
{
}

/// A holder's answer is taken exactly if it commits the offered blocks of the wanted resource, from
/// the owner of the offer; any other answer closes everything, and an answer from somebody else is
/// the loss of the owner.
pub proof fn only_the_offered_blocks_are_taken(
    pull: PullView,
    response: OpenTransferSessionResponse,
    now: Instant,
    after: PullView,
    action: PullActionView,
)
    requires
        pull.wf(),
        pull.state is Opening,
        pull.steps(PullEvent::Opened { response, now }, after, action),
    ensures
        ({
            let owner = pull.candidate.advertisement.owner;
            let want = pull.candidate.advertisement.lineages[pull.opened.len() as int];
            &&& action is CloseAll <==> !(response matches OpenTransferSessionResponse::Sync {
                capability,
                committed,
            } && capability.instance_id == owner && capability.resource == want.resource
                && committed@ == want.hashes)
            &&& !(action is CloseAll) ==> (action is Open || action is PullAll) && after.opened
                == pull.opened.push(
                OpenedView {
                    resource: want.resource,
                    hashes: want.hashes,
                    capability: response->Sync_capability,
                },
            )
            &&& match response {
                OpenTransferSessionResponse::Sync { capability, .. } => capability.instance_id
                    != owner ==> after.state == PullState::Closing(BundleMissReason::OwnerLost)
                    && action == PullActionView::CloseAll(CloseReason::HolderChanged),
                OpenTransferSessionResponse::Async { capability } => action
                    == PullActionView::CloseAll(CloseReason::UnexpectedAsync) && (
                capability.instance_id != owner <==> after.state == PullState::Closing(
                    BundleMissReason::OwnerLost,
                )),
                OpenTransferSessionResponse::NoBlocksFound => action == PullActionView::CloseAll(
                    CloseReason::ResourceOmitted,
                ) && after.state == PullState::Closing(BundleMissReason::Incomplete),
            }
            &&& action is CloseAll && after.state != PullState::Closing(BundleMissReason::OwnerLost)
                ==> after.state == PullState::Closing(BundleMissReason::Incomplete)
            &&& !(response is NoBlocksFound) ==> after.opened.len() == pull.opened.len() + 1
        }),
{
}

/// A commit is owed once every open resource was staged as asked, nothing was canceled and the
/// lease still holds.
pub proof fn complete_pulls_are_committed(
    pull: PullView,
    pulls: Vec<ResourcePull>,
    canceled: bool,
    now_unix_ms: u64,
    after: PullView,
    action: PullActionView,
)
    requires
        pull.wf(),
        pull.state is Pulling,
        pull.steps(PullEvent::Pulled { pulls, canceled, now_unix_ms }, after, action),
        pulls@.len() == pull.opened.len(),
        forall|i: int|
            0 <= i < pulls@.len() ==> (#[trigger] pulls@[i] matches ResourcePull::Staged {
                resource,
                hashes,
            } && resource == pull.opened[i].resource && hashes@ == pull.opened[i].hashes),
    ensures
        !canceled && now_unix_ms < pull.candidate.lease_expires_at_unix_ms ==> action == (
        PullActionView::Commit {
            key: pull.candidate.advertisement.key,
            generation: pull.generation,
        }) && after.state is Committing,
        canceled ==> action == PullActionView::Finish(
            BundlePullOutcome::Miss(BundleMissReason::Canceled),
        ),
        !canceled && now_unix_ms >= pull.candidate.lease_expires_at_unix_ms ==> action
            == PullActionView::Finish(BundlePullOutcome::Miss(BundleMissReason::Expired)),
{
    let miss = choose|miss: Option<BundleMissReason>| #[trigger]
        most_urgent(
            pull.opened,
            pulls@,
            pull.deadline,
            answered(pull.opened, pulls@),
            miss,
        ) && (after, action) == pull.pulled(miss, pulls@.len(), canceled, now_unix_ms);
    assert forall|i: int| 0 <= i < pulls@.len() implies pull_miss(
        #[trigger] pull.opened[i],
        pulls@[i],
        pull.deadline,
    ) is None by {
        assert(pulls@[i] is Staged);
    }
    assert(miss is None);
}

/// Where some pull failed, the attempt ends with a miss that is at least as urgent: nothing that a
/// pull reports is lost to a lesser reason.
pub proof fn no_failure_is_hidden_by_a_lesser_one(
    pull: PullView,
    pulls: Vec<ResourcePull>,
    canceled: bool,
    now_unix_ms: u64,
    after: PullView,
    action: PullActionView,
    i: int,
)
    requires
        pull.wf(),
        pull.state is Pulling,
        pull.steps(PullEvent::Pulled { pulls, canceled, now_unix_ms }, after, action),
        0 <= i < pull.opened.len(),
        i < pulls@.len(),
    ensures
        ({
            let ended = action matches PullActionView::Finish(BundlePullOutcome::Miss(_));
            let least = action->Finish_0->Miss_0;
            match pulls@[i] {
                ResourcePull::Staged { resource, hashes } => resource != pull.opened[i].resource
                    || hashes@ != pull.opened[i].hashes ==> ended && reason_rank(least)
                    >= reason_rank(BundleMissReason::Incomplete),
                ResourcePull::Failed(reason) => ended && reason_rank(least) >= reason_rank(reason),
                ResourcePull::TaskFailed => ended && reason_rank(least) >= reason_rank(
                    BundleMissReason::TransferFailed,
                ),
                ResourcePull::Interrupted(PullInterruption::Canceled) => ended && least is Canceled,
                ResourcePull::Interrupted(PullInterruption::Deadline) => ended && reason_rank(least)
                    >= reason_rank(
                    if pull.deadline.lease_limited {
                        BundleMissReason::Expired
                    } else {
                        BundleMissReason::TimedOut
                    },
                ),
            }
        }),
{
    let miss = choose|miss: Option<BundleMissReason>| #[trigger]
        most_urgent(
            pull.opened,
            pulls@,
            pull.deadline,
            answered(pull.opened, pulls@),
            miss,
        ) && (after, action) == pull.pulled(miss, pulls@.len(), canceled, now_unix_ms);
    let own = pull_miss(pull.opened[i], pulls@[i], pull.deadline);
    if own is Some {
        assert(miss is Some);
        assert(reason_rank(own->Some_0) <= reason_rank(miss->Some_0));
    }
}

/// A reserved generation is the one that is committed, and the deadline of the attempt is the
/// earlier end of the search and the lease; without a generation the attempt ends.
pub proof fn reserved_generations_are_committed(
    pull: PullView,
    generation: Option<u64>,
    now_unix_ms: u64,
    now: Instant,
    after: PullView,
    action: PullActionView,
)
    requires
        pull.wf(),
        pull.state is Reserving,
        pull.steps(PullEvent::Reserved { generation, now_unix_ms, now }, after, action),
    ensures
        generation is None ==> action == PullActionView::Finish(
            BundlePullOutcome::Miss(BundleMissReason::CommitFailed),
        ),
        generation is Some ==> {
            &&& after.generation == generation->Some_0
            &&& after.deadline.at.nanos <= pull.search_deadline.nanos
            &&& after.opened.len() == 0
            &&& action is Open || action is PullAll
        },
{
}

/// What a failed opening is closed for is what is reported once everything is closed, and what
/// fails or interrupts a commit is reported at once.
pub proof fn failures_are_reported_as_they_came(
    pull: PullView,
    event: PullEvent,
    after: PullView,
    action: PullActionView,
)
    requires
        pull.wf(),
        pull.steps(event, after, action),
    ensures
        match (pull.state, event) {
            (PullState::Opening, PullEvent::OpenFailed(reason)) => after.state
                == PullState::Closing(reason) && action is CloseAll,
            (PullState::Opening, PullEvent::Interrupted(PullInterruption::Canceled)) => after.state
                == PullState::Closing(BundleMissReason::Canceled) && action is CloseAll,
            (PullState::Opening, PullEvent::Interrupted(PullInterruption::Deadline)) => after.state
                == PullState::Closing(
                if pull.deadline.lease_limited {
                    BundleMissReason::Expired
                } else {
                    BundleMissReason::TimedOut
                },
            ) && action is CloseAll,
            (PullState::Closing(miss), PullEvent::Closed) => action == PullActionView::Finish(
                BundlePullOutcome::Miss(miss),
            ),
            (PullState::Committing, PullEvent::Committed) => action == PullActionView::Finish(
                BundlePullOutcome::Pulled(pull.candidate.advertisement.key),
            ),
            (PullState::Committing, PullEvent::CommitFailed) => action == PullActionView::Finish(
                BundlePullOutcome::Miss(BundleMissReason::CommitFailed),
            ),
            (PullState::Committing, PullEvent::Interrupted(PullInterruption::Canceled)) => action
                == PullActionView::Finish(BundlePullOutcome::Miss(BundleMissReason::Canceled)),
            (PullState::Committing, PullEvent::Interrupted(PullInterruption::Deadline)) => action
                == PullActionView::Finish(
                BundlePullOutcome::Miss(
                    if pull.deadline.lease_limited {
                        BundleMissReason::Expired
                    } else {
                        BundleMissReason::TimedOut
                    },
                ),
            ),
            _ => true,
        },
{
}

/// The staged resources are exactly the open ones whose pull staged what was asked for, each with
/// its number of blocks.
pub proof fn staged_resources_are_those_asked_for(
    opened: Seq<OpenedView>,
    pulls: Seq<ResourcePull>,
    end: int,
    resource: LogicalResourceId,
    blocks: usize,
)
    requires
        0 <= end <= opened.len(),
        end <= pulls.len(),
        forall|i: int|
            0 <= i < opened.len() ==> (#[trigger] opened[i]).hashes.len() <= usize::MAX,
    ensures
        staged_up_to(opened, pulls, end).len() <= end,
        staged_up_to(opened, pulls, end).contains((resource, blocks)) <==> exists|i: int|
            {
                &&& 0 <= i < end
                &&& (#[trigger] opened[i]).resource == resource
                &&& opened[i].hashes.len() == blocks
                &&& pulls[i] matches ResourcePull::Staged { resource: staged, hashes } && staged
                    == resource && hashes@ == opened[i].hashes
            },
    decreases end,
{
    if end > 0 {
        staged_resources_are_those_asked_for(opened, pulls, end - 1, resource, blocks);
        let before = staged_up_to(opened, pulls, end - 1);
        let all = staged_up_to(opened, pulls, end);
        let pair = (resource, blocks);
        if all.contains(pair) {
            let at = choose|at: int| 0 <= at < all.len() && all[at] == pair;
            if at < before.len() {
                assert(before[at] == pair);
                assert(before.contains(pair));
            } else {
                assert(opened[end - 1].resource == resource);
            }
        }
        if before.contains(pair) {
            let at = choose|at: int| 0 <= at < before.len() && before[at] == pair;
            assert(all[at] == pair);
        }
        if pulls[end - 1] matches ResourcePull::Staged { resource: staged, hashes } && staged
            == resource && hashes@ == opened[end - 1].hashes && opened[end - 1].resource == resource
            && opened[end - 1].hashes.len() == blocks {
            assert(all[before.len() as int] == pair);
        }
    }
}

/// A resource without a result leaves the bundle incomplete: where everything that did report was
/// staged as asked, nothing was canceled and the lease holds, that is what the attempt ends with.
pub proof fn missing_results_leave_the_bundle_incomplete(
    pull: PullView,
    pulls: Vec<ResourcePull>,
    now_unix_ms: u64,
    after: PullView,
    action: PullActionView,
)
    requires
        pull.wf(),
        pull.state is Pulling,
        pull.steps(PullEvent::Pulled { pulls, canceled: false, now_unix_ms }, after, action),
        pulls@.len() < pull.opened.len(),
        now_unix_ms < pull.candidate.lease_expires_at_unix_ms,
        forall|i: int|
            0 <= i < pulls@.len() ==> (#[trigger] pulls@[i] matches ResourcePull::Staged {
                resource,
                hashes,
            } && resource == pull.opened[i].resource && hashes@ == pull.opened[i].hashes),
    ensures
        action == PullActionView::Finish(BundlePullOutcome::Miss(BundleMissReason::Incomplete)),
{
    let miss = choose|miss: Option<BundleMissReason>| #[trigger]
        most_urgent(
            pull.opened,
            pulls@,
            pull.deadline,
            answered(pull.opened, pulls@),
            miss,
        ) && (after, action) == pull.pulled(miss, pulls@.len(), false, now_unix_ms);
    assert forall|i: int| 0 <= i < pulls@.len() implies pull_miss(
        #[trigger] pull.opened[i],
        pulls@[i],
        pull.deadline,
    ) is None by {
        assert(pulls@[i] is Staged);
    }
    assert(miss is None);
}

/// Of two reasons the more urgent one stands, and the earlier one where they are equally urgent: the
/// first always stands alone, nothing outranks a cancellation, and it outranks everything else.
pub proof fn the_more_urgent_reason_stands(
    current: Option<BundleMissReason>,
    incoming: BundleMissReason,
)
    ensures
        current is None ==> merged_reason(current, incoming) == incoming,
        current is Some ==> {
            let merged = merged_reason(current, incoming);
            &&& merged == incoming || merged == current->Some_0
            &&& reason_rank(merged) >= reason_rank(incoming)
            &&& reason_rank(merged) >= reason_rank(current->Some_0)
            &&& reason_rank(current->Some_0) == reason_rank(incoming) ==> merged == current->Some_0
            &&& current->Some_0 is Canceled || incoming is Canceled ==> merged is Canceled
        },
{
}

/// Sessions are closed for what went wrong with the opening: an answer from the owner that does not
/// commit the wanted blocks is an incomplete acquisition, and a failure or an interruption is
/// named as such.
pub proof fn sessions_are_closed_for_what_went_wrong(
    pull: PullView,
    event: PullEvent,
    after: PullView,
    why: CloseReason,
)
    requires
        pull.wf(),
        pull.steps(event, after, PullActionView::CloseAll(why)),
    ensures
        pull.state is Opening,
        match why {
            CloseReason::AcquisitionFailed => event is OpenFailed,
            CloseReason::AcquisitionInterrupted => event is Interrupted,
            CloseReason::HolderChanged => event matches PullEvent::Opened { response, .. }
                && response matches OpenTransferSessionResponse::Sync { capability, .. }
                && capability.instance_id != pull.candidate.advertisement.owner,
            CloseReason::IncompleteAcquisition => event matches PullEvent::Opened { response, .. }
                && response matches OpenTransferSessionResponse::Sync { capability, .. }
                && capability.instance_id == pull.candidate.advertisement.owner,
            CloseReason::UnexpectedAsync => event matches PullEvent::Opened { response, .. }
                && response is Async,
            CloseReason::ResourceOmitted => event matches PullEvent::Opened { response, .. }
                && response is NoBlocksFound,
        },
{
}

} // verus!
