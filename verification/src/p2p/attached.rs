//! The pull of one resource over an attached session, as a machine: it says what to do next, and
//! is told what came of it.

use crate::ids::{BlockId, SequenceHash};
use crate::lists::{copy_block_ids, copy_hashes};
use crate::ordered::{firsts, pairs_map, pairs_map_holds_the_pairs, KeyMap, KeySet};
use crate::p2p::integrity::{PayloadBlock, PayloadChecksum};
use crate::p2p::staging::{
    numbered, not_committed, order_selected, payload_blocks, prepare_payload_verification,
    record_fault, select_hashes, servable, source_ordinals, verify_payloads, CommittedBlock,
    StagingError, VerifiedCommittedBlock,
};
use vstd::prelude::*;

verus! {

/// Blocks that are being pulled together.
#[derive(Debug)]
enum Chunk {
    Plain(Vec<CommittedBlock>),
    Verified(Vec<VerifiedCommittedBlock>),
}

/// The mathematical content of blocks that are being pulled together.
pub enum ChunkView {
    Plain(Seq<CommittedBlock>),
    Verified(Seq<VerifiedCommittedBlock>),
}

impl ChunkView {
    pub open spec fn hashes(self) -> Seq<SequenceHash> {
        match self {
            ChunkView::Plain(blocks) => Seq::new(blocks.len(), |i: int| blocks[i].hash),
            ChunkView::Verified(records) => Seq::new(
                records.len(),
                |i: int| records[i].block.hash,
            ),
        }
    }
}

impl View for Chunk {
    type V = ChunkView;

    closed spec fn view(&self) -> ChunkView {
        match self {
            Chunk::Plain(blocks) => ChunkView::Plain(blocks@),
            Chunk::Verified(records) => ChunkView::Verified(records@),
        }
    }
}

impl Chunk {
    fn hashes(&self) -> (r: Vec<SequenceHash>)
        ensures
            r@ == self@.hashes(),
    {
        let mut hashes: Vec<SequenceHash> = Vec::new();
        let mut at: usize = 0;
        match self {
            Chunk::Plain(blocks) => {
                while at < blocks.len()
                    invariant
                        at <= blocks@.len(),
                        hashes@.len() == at,
                        forall|i: int| 0 <= i < at ==> #[trigger] hashes@[i] == blocks@[i].hash,
                    decreases blocks@.len() - at,
                {
                    hashes.push(blocks[at].hash);
                    at = at + 1;
                }
            },
            Chunk::Verified(records) => {
                while at < records.len()
                    invariant
                        at <= records@.len(),
                        hashes@.len() == at,
                        forall|i: int|
                            0 <= i < at ==> #[trigger] hashes@[i] == records@[i].block.hash,
                    decreases records@.len() - at,
                {
                    hashes.push(records[at].block.hash);
                    at = at + 1;
                }
            },
        }
        assert(hashes@ =~= self@.hashes());
        hashes
    }
}

/// What a pull is told.
#[derive(Debug)]
pub enum AttachedEvent {
    /// The holder offers blocks without checksums.
    Available(Vec<CommittedBlock>),
    /// The holder offers blocks with checksums.
    Verified(Vec<VerifiedCommittedBlock>),
    /// The holder offers no more.
    Drained,
    AllocationFailed,
    PullFailed,
    /// The destinations that were filled, in the order of the hashes that were asked for.
    Filled(Vec<BlockId>),
    /// The checksums of the filled destinations.
    Checksums(Vec<PayloadChecksum>),
    ChecksumsUnavailable,
    /// The filled destinations hold their hashes from now on.
    Staged,
    StageFailed,
}

/// What a pull asks for.
#[derive(Debug)]
pub enum AttachedAction {
    /// Wait for the holder's next offer.
    Next,
    /// Allocate destinations and pull these hashes into them.
    Pull(Vec<SequenceHash>),
    /// Checksum these destinations.
    Checksum(Vec<PayloadBlock>),
    /// Mark filled destinations as holding these hashes, without registering them.
    Stage { hashes: Vec<SequenceHash>, filled: Vec<BlockId> },
    /// Every wanted block is staged; the destinations stand in the order of the wanted hashes.
    Finish { blocks: Vec<BlockId>, host_blocks: usize },
    Fail(StagingError),
    /// The event does not belong to the state and changes nothing.
    Ignore,
}

/// The mathematical content of an [`AttachedAction`].
pub enum AttachedActionView {
    Next,
    Pull(Seq<SequenceHash>),
    Checksum(Seq<PayloadBlock>),
    Stage { hashes: Seq<SequenceHash>, filled: Seq<BlockId> },
    Finish { blocks: Seq<BlockId>, host_blocks: usize },
    Fail(StagingError),
    Ignore,
}

impl View for AttachedAction {
    type V = AttachedActionView;

    open spec fn view(&self) -> AttachedActionView {
        match self {
            AttachedAction::Next => AttachedActionView::Next,
            AttachedAction::Pull(hashes) => AttachedActionView::Pull(hashes@),
            AttachedAction::Checksum(blocks) => AttachedActionView::Checksum(blocks@),
            AttachedAction::Stage { hashes, filled } => AttachedActionView::Stage {
                hashes: hashes@,
                filled: filled@,
            },
            AttachedAction::Finish { blocks, host_blocks } => AttachedActionView::Finish {
                blocks: blocks@,
                host_blocks: *host_blocks,
            },
            AttachedAction::Fail(e) => AttachedActionView::Fail(*e),
            AttachedAction::Ignore => AttachedActionView::Ignore,
        }
    }
}

/// Where a pull stands.
#[derive(Debug)]
enum AttachedState {
    Draining,
    Pulling(Chunk),
    Verifying { records: Vec<VerifiedCommittedBlock>, filled: Vec<BlockId> },
    Staging { hashes: Vec<SequenceHash>, filled: Vec<BlockId> },
    Finished,
}

/// The mathematical content of the state of a pull.
pub enum AttachedStateView {
    Draining,
    Pulling(ChunkView),
    Verifying { records: Seq<VerifiedCommittedBlock>, filled: Seq<BlockId> },
    Staging { hashes: Seq<SequenceHash>, filled: Seq<BlockId> },
    Finished,
}

impl View for AttachedState {
    type V = AttachedStateView;

    closed spec fn view(&self) -> AttachedStateView {
        match self {
            AttachedState::Draining => AttachedStateView::Draining,
            AttachedState::Pulling(chunk) => AttachedStateView::Pulling(chunk@),
            AttachedState::Verifying { records, filled } => AttachedStateView::Verifying {
                records: records@,
                filled: filled@,
            },
            AttachedState::Staging { hashes, filled } => AttachedStateView::Staging {
                hashes: hashes@,
                filled: filled@,
            },
            AttachedState::Finished => AttachedStateView::Finished,
        }
    }
}

/// Hashes paired with the blocks that hold them.
pub open spec fn paired(hashes: Seq<SequenceHash>, blocks: Seq<BlockId>) -> Seq<
    (SequenceHash, BlockId),
> {
    Seq::new(hashes.len(), |i: int| (hashes[i], blocks[i]))
}

/// Whether the first fault among the records is this.
pub open spec fn first_record_fault(
    ordinals: Map<SequenceHash, u32>,
    records: Seq<VerifiedCommittedBlock>,
    e: StagingError,
) -> bool {
    exists|at: int|
        {
            &&& 0 <= at < records.len()
            &&& record_fault(ordinals, #[trigger] records[at]) == Some(e)
            &&& forall|i: int| 0 <= i < at ==> record_fault(ordinals, #[trigger] records[i]) is None
        }
}

/// The mathematical content of an [`AttachedPull`].
pub struct AttachedView {
    pub targets: Seq<SequenceHash>,
    pub ordinals: Map<SequenceHash, u32>,
    pub require_integrity: bool,
    pub staged: Seq<(SequenceHash, BlockId)>,
    pub state: AttachedStateView,
}

impl AttachedView {
    /// The hashes that are staged so far.
    pub open spec fn pulled(self) -> Set<SequenceHash> {
        firsts(self.staged).to_set()
    }

    /// Whether a block is wanted and not staged yet.
    pub open spec fn wants(self, hash: SequenceHash) -> bool {
        self.targets.contains(hash) && !self.pulled().contains(hash)
    }

    /// What every reachable pull keeps: only wanted hashes are staged, and what is being pulled is
    /// wanted; where integrity is required, it came with checksums.
    pub open spec fn wf(self) -> bool {
        &&& self.pulled().subset_of(self.targets.to_set())
        &&& self.targets.len() > 0 || self.state is Finished
        &&& match self.state {
            AttachedStateView::Pulling(chunk) => {
                &&& forall|i: int|
                    0 <= i < chunk.hashes().len() ==> self.targets.contains(
                        #[trigger] chunk.hashes()[i],
                    )
                &&& self.require_integrity ==> chunk is Verified
            },
            AttachedStateView::Verifying { records, filled } => {
                &&& records.len() == filled.len()
                &&& forall|i: int|
                    0 <= i < records.len() ==> self.targets.contains(
                        (#[trigger] records[i]).block.hash,
                    )
            },
            AttachedStateView::Staging { hashes, filled } => {
                &&& hashes.len() == filled.len()
                &&& forall|i: int|
                    0 <= i < hashes.len() ==> self.targets.contains(#[trigger] hashes[i])
            },
            _ => true,
        }
    }

    pub open spec fn failing(self, e: StagingError) -> (AttachedView, AttachedActionView) {
        (
            AttachedView { state: AttachedStateView::Finished, ..self },
            AttachedActionView::Fail(e),
        )
    }

    pub open spec fn asking(self, chunk: ChunkView) -> (AttachedView, AttachedActionView) {
        if chunk.hashes().len() == 0 {
            (self, AttachedActionView::Next)
        } else {
            (
                AttachedView { state: AttachedStateView::Pulling(chunk), ..self },
                AttachedActionView::Pull(chunk.hashes()),
            )
        }
    }

    pub open spec fn offered_plain(self, blocks: Seq<CommittedBlock>) -> (
        AttachedView,
        AttachedActionView,
    ) {
        if self.require_integrity && exists|i: int|
            0 <= i < blocks.len() && self.targets.contains((#[trigger] blocks[i]).hash) {
            self.failing(StagingError::Unverified)
        } else {
            self.asking(
                ChunkView::Plain(blocks.filter(|block: CommittedBlock| self.wants(block.hash))),
            )
        }
    }

    pub open spec fn offered_verified(self, records: Seq<VerifiedCommittedBlock>) -> (
        AttachedView,
        AttachedActionView,
    ) {
        self.asking(
            ChunkView::Verified(
                records.filter(|record: VerifiedCommittedBlock| self.wants(record.block.hash)),
            ),
        )
    }

    pub open spec fn staging(self, hashes: Seq<SequenceHash>, filled: Seq<BlockId>) -> (
        AttachedView,
        AttachedActionView,
    ) {
        (
            AttachedView { state: AttachedStateView::Staging { hashes, filled }, ..self },
            AttachedActionView::Stage { hashes, filled },
        )
    }

    pub open spec fn with_staged(self, hashes: Seq<SequenceHash>, filled: Seq<BlockId>) -> AttachedView {
        AttachedView { staged: self.staged + paired(hashes, filled), ..self }
    }

    /// Whether the pull ends like this once no more blocks are to come.
    pub open spec fn ends(self, after: AttachedView, action: AttachedActionView) -> bool {
        let map = pairs_map(self.staged);
        &&& after == (AttachedView { state: AttachedStateView::Finished, ..self })
        &&& if self.pulled() != self.targets.to_set() {
            action == AttachedActionView::Fail(
                StagingError::Drained {
                    pulled: self.pulled().len() as usize,
                    wanted: self.targets.to_set().len() as usize,
                },
            )
        } else if self.targets.no_duplicates() {
            &&& action matches AttachedActionView::Finish { blocks, host_blocks }
            &&& host_blocks == self.targets.to_set().len()
            &&& blocks.len() == self.targets.len()
            &&& forall|i: int|
                0 <= i < blocks.len() ==> #[trigger] blocks[i] == map[self.targets[i]]
        } else {
            exists|at: int|
                {
                    &&& 0 <= at < self.targets.len()
                    &&& action == AttachedActionView::Fail(
                        StagingError::MissingDestination { hash: self.targets[at] },
                    )
                    &&& crate::ordered::first_repeat(self.targets, at)
                }
        }
    }

    /// Whether the pull goes on like this after a chunk was staged.
    pub open spec fn goes_on(self, after: AttachedView, action: AttachedActionView) -> bool {
        if self.pulled() == self.targets.to_set() {
            self.ends(after, action)
        } else {
            after == (AttachedView { state: AttachedStateView::Draining, ..self }) && action
                == AttachedActionView::Next
        }
    }

    pub open spec fn filled_with(
        self,
        chunk: ChunkView,
        filled: Seq<BlockId>,
        after: AttachedView,
        action: AttachedActionView,
    ) -> bool {
        let hashes = chunk.hashes();
        if filled.len() != hashes.len() {
            (after, action) == self.failing(
                StagingError::PulledCount {
                    returned: filled.len() as usize,
                    expected: hashes.len() as usize,
                },
            )
        } else if self.require_integrity && chunk is Verified {
            let records = chunk->Verified_0;
            if forall|i: int|
                0 <= i < records.len() ==> record_fault(
                    self.ordinals,
                    #[trigger] records[i],
                ) is None {
                (after, action) == (
                    AttachedView {
                        state: AttachedStateView::Verifying { records, filled },
                        ..self
                    },
                    AttachedActionView::Checksum(payload_blocks(self.ordinals, records, filled)),
                )
            } else {
                exists|e: StagingError| #[trigger]
                    first_record_fault(self.ordinals, records, e) && (after, action) == self.failing(e)
            }
        } else {
            (after, action) == self.staging(hashes, filled)
        }
    }

    pub open spec fn checksummed_with(
        self,
        records: Seq<VerifiedCommittedBlock>,
        filled: Seq<BlockId>,
        checksums: Seq<PayloadChecksum>,
        after: AttachedView,
        action: AttachedActionView,
    ) -> bool {
        if checksums.len() != records.len() {
            (after, action) == self.failing(StagingError::ChecksumUnavailable)
        } else if forall|i: int|
            0 <= i < records.len() ==> (#[trigger] records[i]).checksum@ == checksums[i]@ {
            (after, action) == self.staging(ChunkView::Verified(records).hashes(), filled)
        } else {
            exists|at: int|
                {
                    &&& 0 <= at < records.len()
                    &&& (#[trigger] records[at]).checksum@ != checksums[at]@
                    &&& forall|i: int|
                        0 <= i < at ==> (#[trigger] records[i]).checksum@ == checksums[i]@
                    &&& (after, action) == self.failing(
                        StagingError::ChecksumMismatch { hash: records[at].block.hash },
                    )
                }
        }
    }

    /// Whether an event can take the pull from `self` to `after`, asking for `action`.
    pub open spec fn steps(
        self,
        event: AttachedEvent,
        after: AttachedView,
        action: AttachedActionView,
    ) -> bool {
        match (self.state, event) {
            (AttachedStateView::Draining, AttachedEvent::Available(blocks)) => (after, action)
                == self.offered_plain(blocks@),
            (AttachedStateView::Draining, AttachedEvent::Verified(records)) => (after, action)
                == self.offered_verified(records@),
            (AttachedStateView::Draining, AttachedEvent::Drained) => self.ends(after, action),
            (AttachedStateView::Pulling(chunk), AttachedEvent::AllocationFailed) => (after, action)
                == self.failing(
                StagingError::AllocationFailed { blocks: chunk.hashes().len() as usize },
            ),
            (AttachedStateView::Pulling(_), AttachedEvent::PullFailed) => (after, action)
                == self.failing(StagingError::PullFailed),
            (AttachedStateView::Pulling(chunk), AttachedEvent::Filled(filled)) => self.filled_with(
                chunk,
                filled@,
                after,
                action,
            ),
            (
                AttachedStateView::Verifying { records, filled },
                AttachedEvent::Checksums(checksums),
            ) => self.checksummed_with(records, filled, checksums@, after, action),
            (AttachedStateView::Verifying { .. }, AttachedEvent::ChecksumsUnavailable) => (
                after,
                action,
            ) == self.failing(StagingError::ChecksumUnavailable),
            (
                AttachedStateView::Staging { hashes, filled },
                AttachedEvent::Staged,
            ) => self.with_staged(hashes, filled).goes_on(after, action),
            (AttachedStateView::Staging { .. }, AttachedEvent::StageFailed) => (after, action)
                == self.failing(StagingError::StageFailed),
            _ => after == self && action == AttachedActionView::Ignore,
        }
    }
}

/// One resource's pull over an attached session.
#[derive(Debug)]
pub struct AttachedPull {
    targets: Vec<SequenceHash>,
    target_set: KeySet<SequenceHash>,
    ordinals: KeyMap<SequenceHash, u32>,
    require_integrity: bool,
    pulled: KeySet<SequenceHash>,
    staged: Vec<(SequenceHash, BlockId)>,
    state: AttachedState,
}

impl View for AttachedPull {
    type V = AttachedView;

    closed spec fn view(&self) -> AttachedView {
        AttachedView {
            targets: self.targets@,
            ordinals: self.ordinals@,
            require_integrity: self.require_integrity,
            staged: self.staged@,
            state: self.state@,
        }
    }
}

impl AttachedPull {
    /// The sets hold what the lists hold.
    closed spec fn sets_agree(&self) -> bool {
        &&& self.target_set@ == self.targets@.to_set()
        &&& self.pulled@ == firsts(self.staged@).to_set()
    }

    pub closed spec fn wf(&self) -> bool {
        self.sets_agree() && self@.wf()
    }

    /// Starts a pull of the selected hashes, or of all that the holder has committed. With nothing
    /// to pull it is finished from the start.
    pub fn new(
        committed: Vec<SequenceHash>,
        selector: Option<Vec<SequenceHash>>,
        require_integrity: bool,
    ) -> (r: Result<(Self, AttachedAction), StagingError>)
        ensures
            ({
                let wanted = match selector {
                    Some(selector) => selector@,
                    None => committed@,
                };
                let missing = not_committed(committed@, wanted).len();
                match r {
                    Ok((pull, action)) => {
                        &&& committed@.len() <= 0x1_0000_0000
                        &&& selector is Some ==> missing == 0
                        &&& pull.wf()
                        &&& pull@.wf()
                        &&& pull@ == (AttachedView {
                            targets: wanted,
                            ordinals: pairs_map(numbered(committed@)),
                            require_integrity,
                            staged: Seq::empty(),
                            state: if wanted.len() == 0 {
                                AttachedStateView::Finished
                            } else {
                                AttachedStateView::Draining
                            },
                        })
                        &&& action@ == if wanted.len() == 0 {
                            AttachedActionView::Finish { blocks: Seq::empty(), host_blocks: 0 }
                        } else {
                            AttachedActionView::Next
                        }
                    },
                    Err(StagingError::OrdinalOverflow) => committed@.len() > 0x1_0000_0000,
                    Err(e) => {
                        &&& committed@.len() <= 0x1_0000_0000
                        &&& selector is Some
                        &&& missing > 0
                        &&& e == (StagingError::HashesNotCommitted { missing: missing as usize })
                    },
                }
            }),
    {
        let ordinals = match source_ordinals(committed.as_slice()) {
            Ok(ordinals) => ordinals,
            Err(e) => {
                return Err(e);
            },
        };
        let targets = match select_hashes(committed, selector) {
            Ok(targets) => targets,
            Err(e) => {
                return Err(e);
            },
        };
        let (target_set, _) = KeySet::from_keys(targets.as_slice());
        let empty = targets.len() == 0;
        let state = if empty {
            AttachedState::Finished
        } else {
            AttachedState::Draining
        };
        let pull = AttachedPull {
            targets,
            target_set,
            ordinals,
            require_integrity,
            pulled: KeySet::new(),
            staged: Vec::new(),
            state,
        };
        proof {
            assert(firsts(pull.staged@).to_set() =~= Set::<SequenceHash>::empty());
            assert(pull@.staged =~= Seq::<(SequenceHash, BlockId)>::empty());
        }
        let action = if empty {
            let blocks: Vec<BlockId> = Vec::new();
            assert(blocks@ =~= Seq::<BlockId>::empty());
            AttachedAction::Finish { blocks, host_blocks: 0 }
        } else {
            AttachedAction::Next
        };
        Ok((pull, action))
    }

    /// The hashes to pull.
    pub fn targets(&self) -> (r: &[SequenceHash])
        ensures
            r@ == self@.targets,
    {
        self.targets.as_slice()
    }

    fn fail(&mut self, e: StagingError) -> (r: AttachedAction)
        requires
            old(self).sets_agree(),
            old(self)@.pulled().subset_of(old(self)@.targets.to_set()),
        ensures
            (final(self)@, r@) == old(self)@.failing(e),
            final(self).wf(),
    {
        self.state = AttachedState::Finished;
        AttachedAction::Fail(e)
    }

    fn ask(&mut self, chunk: Chunk) -> (r: AttachedAction)
        requires
            old(self).sets_agree(),
            old(self)@.state is Draining,
            (AttachedView { state: AttachedStateView::Pulling(chunk@), ..old(self)@ }).wf(),
        ensures
            (final(self)@, r@) == old(self)@.asking(chunk@),
            final(self).wf(),
    {
        let hashes = chunk.hashes();
        if hashes.len() == 0 {
            return AttachedAction::Next;
        }
        self.state = AttachedState::Pulling(chunk);
        AttachedAction::Pull(hashes)
    }

    fn wanted(&self, hash: &SequenceHash) -> (r: bool)
        requires
            self.sets_agree(),
        ensures
            r == self@.wants(*hash),
    {
        assert(self.targets@.contains(*hash) <==> self.targets@.to_set().contains(*hash));
        self.target_set.contains(hash) && !self.pulled.contains(hash)
    }

    fn offer_plain(&mut self, blocks: Vec<CommittedBlock>) -> (r: AttachedAction)
        requires
            old(self).wf(),
            old(self)@.state is Draining,
        ensures
            (final(self)@, r@) == old(self)@.offered_plain(blocks@),
            final(self).wf(),
    {
        let ghost view = self@;
        let ghost wants = |block: CommittedBlock| view.wants(block.hash);
        let mut chunk: Vec<CommittedBlock> = Vec::new();
        let mut any_target = false;
        let mut at: usize = 0;
        proof {
            reveal(Seq::filter);
            assert(blocks@.subrange(0, 0).filter(wants) =~= Seq::<CommittedBlock>::empty());
        }
        while at < blocks.len()
            invariant
                at <= blocks@.len(),
                *self == *old(self),
                self.wf(),
                view == self@,
                wants == (|block: CommittedBlock| view.wants(block.hash)),
                chunk@ == blocks@.subrange(0, at as int).filter(wants),
                any_target == exists|i: int|
                    0 <= i < at && view.targets.contains((#[trigger] blocks@[i]).hash),
                forall|i: int|
                    0 <= i < chunk@.len() ==> view.targets.contains((#[trigger] chunk@[i]).hash),
            decreases blocks@.len() - at,
        {
            let block = blocks[at];
            let ghost was = any_target;
            proof {
                reveal(Seq::filter);
                let more = blocks@.subrange(0, at + 1);
                assert(more.drop_last() =~= blocks@.subrange(0, at as int));
                assert(more.last() == block);
                assert(self.targets@.contains(block.hash) <==> self.targets@.to_set().contains(
                    block.hash,
                ));
            }
            if self.target_set.contains(&block.hash) {
                any_target = true;
            }
            if self.wanted(&block.hash) {
                chunk.push(block);
            }
            proof {
                if any_target && !was {
                    assert(view.targets.contains(blocks@[at as int].hash));
                }
            }
            at = at + 1;
        }
        assert(blocks@.subrange(0, at as int) =~= blocks@);
        if self.require_integrity && any_target {
            return self.fail(StagingError::Unverified);
        }
        proof {
            if self.require_integrity && chunk@.len() > 0 {
                assert(view.targets.contains(chunk@[0].hash));
                blocks@.lemma_filter_contains_rev(wants, chunk@[0]);
                let i = choose|i: int| 0 <= i < blocks@.len() && blocks@[i] == chunk@[0];
                assert(view.targets.contains(blocks@[i].hash));
            }
        }
        if chunk.len() == 0 {
            return AttachedAction::Next;
        }
        self.ask(Chunk::Plain(chunk))
    }

    fn offer_verified(&mut self, records: Vec<VerifiedCommittedBlock>) -> (r: AttachedAction)
        requires
            old(self).wf(),
            old(self)@.state is Draining,
        ensures
            (final(self)@, r@) == old(self)@.offered_verified(records@),
            final(self).wf(),
    {
        let ghost view = self@;
        let ghost wants = |record: VerifiedCommittedBlock| view.wants(record.block.hash);
        let mut chunk: Vec<VerifiedCommittedBlock> = Vec::new();
        let mut at: usize = 0;
        proof {
            reveal(Seq::filter);
            assert(records@.subrange(0, 0).filter(wants) =~= Seq::<VerifiedCommittedBlock>::empty());
        }
        while at < records.len()
            invariant
                at <= records@.len(),
                *self == *old(self),
                self.wf(),
                view == self@,
                wants == (|record: VerifiedCommittedBlock| view.wants(record.block.hash)),
                chunk@ == records@.subrange(0, at as int).filter(wants),
                forall|i: int|
                    0 <= i < chunk@.len() ==> view.targets.contains(
                        (#[trigger] chunk@[i]).block.hash,
                    ),
            decreases records@.len() - at,
        {
            let record = records[at];
            proof {
                reveal(Seq::filter);
                let more = records@.subrange(0, at + 1);
                assert(more.drop_last() =~= records@.subrange(0, at as int));
                assert(more.last() == record);
            }
            if self.wanted(&record.block.hash) {
                chunk.push(record);
            }
            at = at + 1;
        }
        assert(records@.subrange(0, at as int) =~= records@);
        self.ask(Chunk::Verified(chunk))
    }

    /// Notes the destinations of a chunk.
    fn stage(&mut self, hashes: &[SequenceHash], filled: &[BlockId])
        requires
            old(self).sets_agree(),
            hashes@.len() == filled@.len(),
            old(self)@.pulled().subset_of(old(self)@.targets.to_set()),
            forall|i: int|
                0 <= i < hashes@.len() ==> old(self)@.targets.contains(#[trigger] hashes@[i]),
        ensures
            final(self).sets_agree(),
            final(self)@ == old(self)@.with_staged(hashes@, filled@),
            final(self)@.pulled().subset_of(final(self)@.targets.to_set()),
    {
        let ghost all = paired(hashes@, filled@);
        let mut at: usize = 0;
        assert(self.staged@ =~= old(self).staged@ + all.subrange(0, 0));
        while at < hashes.len()
            invariant
                at <= hashes@.len(),
                hashes@.len() == filled@.len(),
                all == paired(hashes@, filled@),
                self.sets_agree(),
                self.staged@ == old(self).staged@ + all.subrange(0, at as int),
                self@ == (AttachedView { staged: self.staged@, ..old(self)@ }),
                self@.pulled().subset_of(self@.targets.to_set()),
                forall|i: int|
                    0 <= i < hashes@.len() ==> old(self)@.targets.contains(#[trigger] hashes@[i]),
            decreases hashes@.len() - at,
        {
            let ghost before = self.staged@;
            let hash = hashes[at];
            self.staged.push((hash, filled[at]));
            self.pulled.insert(hash);
            proof {
                let a = firsts(before);
                let b = firsts(self.staged@);
                assert(b =~= a.push(hash));
                assert forall|h: SequenceHash| b.to_set().contains(h) <==> a.to_set().contains(h)
                    || h == hash by {
                    if a.contains(h) {
                        let i = choose|i: int| 0 <= i < a.len() && a[i] == h;
                        assert(b[i] == h);
                    }
                    if b.contains(h) {
                        let i = choose|i: int| 0 <= i < b.len() && b[i] == h;
                        if i < a.len() {
                            assert(a[i] == h);
                        }
                    }
                    assert(b[a.len() as int] == hash);
                }
                assert(self.pulled@ =~= b.to_set());
                assert(self@.targets.contains(hashes@[at as int]));
                assert(self.staged@ =~= old(self).staged@ + all.subrange(0, at + 1));
            }
            at = at + 1;
        }
        assert(all.subrange(0, at as int) =~= all);
    }

    /// Ends the pull with what is staged.
    fn end(&mut self) -> (r: AttachedAction)
        requires
            old(self).sets_agree(),
            old(self)@.targets.len() > 0,
            old(self)@.pulled().subset_of(old(self)@.targets.to_set()),
        ensures
            old(self)@.ends(final(self)@, r@),
            final(self).wf(),
    {
        let ghost view = self@;
        self.state = AttachedState::Finished;
        let pulled: usize = self.pulled.len();
        let wanted: usize = self.target_set.len();
        if pulled != wanted {
            return AttachedAction::Fail(StagingError::Drained { pulled, wanted });
        }
        proof {
            vstd::set_lib::lemma_subset_equality(self.pulled@, self.target_set@);
        }
        let staged = copy_pairs(self.staged.as_slice());
        proof {
            pairs_map_holds_the_pairs(staged@);
            assert(pairs_map(staged@).dom() == self.targets@.to_set());
        }
        match order_selected(self.targets.as_slice(), staged) {
            Ok(blocks) => {
                proof {
                    assert forall|i: int, j: int|
                        0 <= i < self.targets@.len() && 0 <= j < self.targets@.len() && i
                            != j implies self.targets@[i] != self.targets@[j] by {
                        assert(servable(self.targets@, staged@, i));
                        assert(servable(self.targets@, staged@, j));
                        if self.targets@[i] == self.targets@[j] {
                            if i < j {
                                assert(crate::ordered::occurs_before(
                                    self.targets@,
                                    j,
                                    self.targets@[j],
                                ));
                            } else {
                                assert(crate::ordered::occurs_before(
                                    self.targets@,
                                    i,
                                    self.targets@[i],
                                ));
                            }
                        }
                    }
                    assert(self.targets@.no_duplicates());
                }
                AttachedAction::Finish { blocks, host_blocks: pulled }
            },
            Err(e) => {
                proof {
                    Self::only_repeats_are_unservable(self.targets@, staged@, e);
                }
                AttachedAction::Fail(e)
            },
        }
    }

    /// When exactly the targets are staged, a target fails to be served only as a repeat.
    proof fn only_repeats_are_unservable(
        targets: Seq<SequenceHash>,
        staged: Seq<(SequenceHash, BlockId)>,
        e: StagingError,
    )
        requires
            pairs_map(staged).dom() == targets.to_set(),
            ({
                let all = forall|i: int|
                    0 <= i < targets.len() ==> #[trigger] servable(targets, staged, i);
                match e {
                    StagingError::MissingDestination { hash } => exists|at: int|
                        {
                            &&& 0 <= at < targets.len()
                            &&& !#[trigger] servable(targets, staged, at)
                            &&& targets[at] == hash
                            &&& forall|i: int|
                                0 <= i < at ==> #[trigger] servable(targets, staged, i)
                        },
                    StagingError::OutsideSelector { blocks } => all && blocks > 0 && blocks
                        == pairs_map(staged).dom().difference(targets.to_set()).len(),
                    _ => false,
                }
            }),
        ensures
            !targets.no_duplicates(),
            exists|at: int|
                {
                    &&& 0 <= at < targets.len()
                    &&& e == (StagingError::MissingDestination { hash: targets[at] })
                    &&& crate::ordered::first_repeat(targets, at)
                },
    {
        assert(pairs_map(staged).dom().difference(targets.to_set()) =~= Set::empty());
        let at = choose|at: int|
            {
                &&& 0 <= at < targets.len()
                &&& !#[trigger] servable(targets, staged, at)
                &&& e == (StagingError::MissingDestination { hash: targets[at] })
                &&& forall|i: int| 0 <= i < at ==> #[trigger] servable(targets, staged, i)
            };
        assert(targets.contains(targets[at]));
        assert(targets.to_set().contains(targets[at]));
        assert(crate::ordered::occurs_before(targets, at, targets[at]));
        let earlier = choose|i: int| 0 <= i < at && #[trigger] targets[i] == targets[at];
        assert(targets[earlier] == targets[at]);
        assert forall|i: int, j: int|
            #![trigger targets[i], targets[j]]
            0 <= i < j < at implies targets[i] != targets[j] by {
            assert(servable(targets, staged, j));
            if targets[i] == targets[j] {
                assert(crate::ordered::occurs_before(targets, j, targets[j]));
            }
        }
        assert(crate::ordered::first_repeat(targets, at));
    }

    /// Goes on after a chunk was staged.
    fn go_on(&mut self) -> (r: AttachedAction)
        requires
            old(self).sets_agree(),
            old(self)@.targets.len() > 0,
            old(self)@.pulled().subset_of(old(self)@.targets.to_set()),
        ensures
            old(self)@.goes_on(final(self)@, r@),
            final(self).wf(),
    {
        if self.pulled.len() == self.target_set.len() {
            proof {
                vstd::set_lib::lemma_subset_equality(self.pulled@, self.target_set@);
            }
            self.end()
        } else {
            self.state = AttachedState::Draining;
            AttachedAction::Next
        }
    }

    fn ask_to_stage(&mut self, hashes: Vec<SequenceHash>, filled: Vec<BlockId>) -> (r:
        AttachedAction)
        requires
            old(self).sets_agree(),
            old(self)@.targets.len() > 0,
            old(self)@.pulled().subset_of(old(self)@.targets.to_set()),
            hashes@.len() == filled@.len(),
            forall|i: int|
                0 <= i < hashes@.len() ==> old(self)@.targets.contains(#[trigger] hashes@[i]),
        ensures
            (final(self)@, r@) == old(self)@.staging(hashes@, filled@),
            final(self).wf(),
    {
        let action = AttachedAction::Stage {
            hashes: copy_hashes(hashes.as_slice()),
            filled: copy_block_ids(filled.as_slice()),
        };
        self.state = AttachedState::Staging { hashes, filled };
        action
    }

    fn fill(&mut self, chunk: Chunk, filled: Vec<BlockId>) -> (r: AttachedAction)
        requires
            old(self).sets_agree(),
            old(self)@.targets.len() > 0,
            old(self)@.pulled().subset_of(old(self)@.targets.to_set()),
            forall|i: int|
                0 <= i < chunk@.hashes().len() ==> old(self)@.targets.contains(
                    #[trigger] chunk@.hashes()[i],
                ),
        ensures
            old(self)@.filled_with(chunk@, filled@, final(self)@, r@),
            final(self).wf(),
    {
        let hashes = chunk.hashes();
        if filled.len() != hashes.len() {
            return self.fail(
                StagingError::PulledCount { returned: filled.len(), expected: hashes.len() },
            );
        }
        if self.require_integrity {
            if let Chunk::Verified(records) = chunk {
                proof {
                    assert forall|i: int| 0 <= i < records@.len() implies self@.targets.contains(
                        (#[trigger] records@[i]).block.hash,
                    ) by {
                        assert(self@.targets.contains(chunk@.hashes()[i]));
                    }
                }
                match prepare_payload_verification(
                    &self.ordinals,
                    records.as_slice(),
                    filled.as_slice(),
                ) {
                    Ok((_, blocks)) => {
                        self.state = AttachedState::Verifying { records, filled };
                        return AttachedAction::Checksum(blocks);
                    },
                    Err(e) => {
                        assert(first_record_fault(self@.ordinals, records@, e));
                        return self.fail(e);
                    },
                }
            }
        }
        self.ask_to_stage(hashes, filled)
    }

    fn check(
        &mut self,
        records: Vec<VerifiedCommittedBlock>,
        filled: Vec<BlockId>,
        checksums: Vec<PayloadChecksum>,
    ) -> (r: AttachedAction)
        requires
            old(self).sets_agree(),
            old(self)@.targets.len() > 0,
            old(self)@.pulled().subset_of(old(self)@.targets.to_set()),
            records@.len() == filled@.len(),
            forall|i: int|
                0 <= i < records@.len() ==> old(self)@.targets.contains(
                    (#[trigger] records@[i]).block.hash,
                ),
        ensures
            old(self)@.checksummed_with(records@, filled@, checksums@, final(self)@, r@),
            final(self).wf(),
    {
        match verify_payloads(records.as_slice(), checksums.as_slice()) {
            Ok(()) => {},
            Err(e) => {
                return self.fail(e);
            },
        }
        let chunk = Chunk::Verified(records);
        let hashes = chunk.hashes();
        proof {
            assert forall|i: int| 0 <= i < hashes@.len() implies self@.targets.contains(
                #[trigger] hashes@[i],
            ) by {
                assert(self@.targets.contains(records@[i].block.hash));
            }
        }
        self.ask_to_stage(hashes, filled)
    }

    /// Takes the pull one step further.
    pub fn step(&mut self, event: AttachedEvent) -> (r: AttachedAction)
        requires
            old(self).wf(),
        ensures
            old(self)@.steps(event, final(self)@, r@),
            final(self).wf(),
            final(self)@.wf(),
    {
        let mut state = AttachedState::Finished;
        std::mem::swap(&mut self.state, &mut state);
        match (state, event) {
            (AttachedState::Draining, AttachedEvent::Available(blocks)) => {
                self.state = AttachedState::Draining;
                self.offer_plain(blocks)
            },
            (AttachedState::Draining, AttachedEvent::Verified(records)) => {
                self.state = AttachedState::Draining;
                self.offer_verified(records)
            },
            (AttachedState::Draining, AttachedEvent::Drained) => self.end(),
            (AttachedState::Pulling(chunk), AttachedEvent::AllocationFailed) => {
                let blocks: usize = chunk.hashes().len();
                self.fail(StagingError::AllocationFailed { blocks })
            },
            (AttachedState::Pulling(_), AttachedEvent::PullFailed) => self.fail(
                StagingError::PullFailed,
            ),
            (AttachedState::Pulling(chunk), AttachedEvent::Filled(filled)) => self.fill(
                chunk,
                filled,
            ),
            (
                AttachedState::Verifying { records, filled },
                AttachedEvent::Checksums(checksums),
            ) => self.check(records, filled, checksums),
            (AttachedState::Verifying { .. }, AttachedEvent::ChecksumsUnavailable) => self.fail(
                StagingError::ChecksumUnavailable,
            ),
            (AttachedState::Staging { hashes, filled }, AttachedEvent::Staged) => {
                self.stage(hashes.as_slice(), filled.as_slice());
                self.go_on()
            },
            (AttachedState::Staging { .. }, AttachedEvent::StageFailed) => self.fail(
                StagingError::StageFailed,
            ),
            (state, _) => {
                self.state = state;
                AttachedAction::Ignore
            },
        }
    }
}

/// Copies a list of staged pairs.
fn copy_pairs(pairs: &[(SequenceHash, BlockId)]) -> (r: Vec<(SequenceHash, BlockId)>)
    ensures
        r@ == pairs@,
{
    let mut copy: Vec<(SequenceHash, BlockId)> = Vec::new();
    let mut at: usize = 0;
    while at < pairs.len()
        invariant
            at <= pairs@.len(),
            copy@ == pairs@.subrange(0, at as int),
        decreases pairs@.len() - at,
    {
        copy.push(pairs[at]);
        at = at + 1;
        assert(copy@ =~= pairs@.subrange(0, at as int));
    }
    assert(copy@ =~= pairs@);
    copy
}

/// Where integrity is required, staging is asked for only after the checksum of every block of the
/// chunk was compared and matched, and nothing counts as staged before that was asked for and done.
pub proof fn unverified_blocks_are_never_staged(
    pull: AttachedView,
    event: AttachedEvent,
    after: AttachedView,
    action: AttachedActionView,
)
    requires
        pull.wf(),
        pull.require_integrity,
        pull.steps(event, after, action),
    ensures
        after.staged != pull.staged ==> pull.state is Staging && event is Staged,
        after.state is Staging && !(pull.state is Staging) ==> (pull.state matches
            AttachedStateView::Verifying { records, filled } && event matches
            AttachedEvent::Checksums(checksums) && checksums@.len() == records.len() && forall|i: int|
            0 <= i < records.len() ==> (#[trigger] records[i]).checksum@ == checksums@[i]@),
{
}

/// A pull finishes only with a destination for every wanted hash, in the wanted order.
pub proof fn finished_pulls_are_complete(
    pull: AttachedView,
    event: AttachedEvent,
    after: AttachedView,
    action: AttachedActionView,
    blocks: Seq<BlockId>,
    host_blocks: usize,
)
    requires
        pull.wf(),
        pull.steps(event, after, action),
        action == (AttachedActionView::Finish { blocks, host_blocks }),
    ensures
        after.pulled() == pull.targets.to_set(),
        blocks.len() == pull.targets.len(),
        forall|i: int|
            0 <= i < blocks.len() ==> #[trigger] blocks[i] == pairs_map(
                after.staged,
            )[pull.targets[i]],
{
}

/// Of what a holder offers, exactly the blocks that are wanted and not staged yet are pulled; where
/// there are none, the next offer is waited for.
pub proof fn exactly_the_wanted_blocks_are_pulled(
    pull: AttachedView,
    records: Vec<VerifiedCommittedBlock>,
    after: AttachedView,
    action: AttachedActionView,
    hash: SequenceHash,
)
    requires
        pull.state is Draining,
        pull.steps(AttachedEvent::Verified(records), after, action),
    ensures
        ({
            let offered = exists|i: int|
                0 <= i < records@.len() && (#[trigger] records@[i]).block.hash == hash;
            let staged = exists|i: int|
                0 <= i < pull.staged.len() && (#[trigger] pull.staged[i]).0 == hash;
            let pulled = action is Pull && action->Pull_0.contains(hash);
            &&& action is Pull || action is Next && after == pull
            &&& pulled <==> offered && pull.targets.contains(hash) && !staged
        }),
{
    let keep = |record: VerifiedCommittedBlock| pull.wants(record.block.hash);
    let kept = records@.filter(keep);
    let chunk = ChunkView::Verified(kept);
    staged_hashes(pull, hash);
    filtered_records(records@, keep);
    if exists|i: int| 0 <= i < records@.len() && (#[trigger] records@[i]).block.hash == hash {
        let i = choose|i: int|
            0 <= i < records@.len() && (#[trigger] records@[i]).block.hash == hash;
        if pull.wants(hash) {
            assert(kept.contains(records@[i]));
            let k = choose|k: int| 0 <= k < kept.len() && kept[k] == records@[i];
            assert(chunk.hashes()[k] == hash);
        }
    }
    if chunk.hashes().contains(hash) {
        let k = choose|k: int| 0 <= k < chunk.hashes().len() && chunk.hashes()[k] == hash;
        assert(kept.contains(kept[k]));
        let i = choose|i: int| 0 <= i < records@.len() && records@[i] == kept[k];
        assert(records@[i].block.hash == hash);
    }
}

/// The same of blocks that are offered without checksums; where integrity is required, any of them
/// that is a target ends the pull.
pub proof fn plain_blocks_are_pulled_only_without_integrity(
    pull: AttachedView,
    blocks: Vec<CommittedBlock>,
    after: AttachedView,
    action: AttachedActionView,
    hash: SequenceHash,
)
    requires
        pull.state is Draining,
        pull.steps(AttachedEvent::Available(blocks), after, action),
    ensures
        ({
            let offered = exists|i: int|
                0 <= i < blocks@.len() && (#[trigger] blocks@[i]).hash == hash;
            let staged = exists|i: int|
                0 <= i < pull.staged.len() && (#[trigger] pull.staged[i]).0 == hash;
            let pulled = action is Pull && action->Pull_0.contains(hash);
            &&& pull.require_integrity && offered && pull.targets.contains(hash) ==> action
                == AttachedActionView::Fail(StagingError::Unverified) && after.state is Finished
            &&& !pull.require_integrity ==> (pulled <==> offered && pull.targets.contains(hash)
                && !staged)
            &&& pull.require_integrity ==> !pulled
        }),
{
    let keep = |block: CommittedBlock| pull.wants(block.hash);
    let kept = blocks@.filter(keep);
    let chunk = ChunkView::Plain(kept);
    staged_hashes(pull, hash);
    filtered_records(blocks@, keep);
    if exists|i: int| 0 <= i < blocks@.len() && (#[trigger] blocks@[i]).hash == hash {
        let i = choose|i: int| 0 <= i < blocks@.len() && (#[trigger] blocks@[i]).hash == hash;
        if pull.wants(hash) {
            assert(kept.contains(blocks@[i]));
            let k = choose|k: int| 0 <= k < kept.len() && kept[k] == blocks@[i];
            assert(chunk.hashes()[k] == hash);
        }
    }
    if chunk.hashes().contains(hash) {
        let k = choose|k: int| 0 <= k < chunk.hashes().len() && chunk.hashes()[k] == hash;
        assert(kept.contains(kept[k]));
        let i = choose|i: int| 0 <= i < blocks@.len() && blocks@[i] == kept[k];
        assert(blocks@[i].hash == hash);
    }
}

proof fn staged_hashes(pull: AttachedView, hash: SequenceHash)
    ensures
        pull.pulled().contains(hash) <==> exists|i: int|
            0 <= i < pull.staged.len() && (#[trigger] pull.staged[i]).0 == hash,
{
    let hashes = firsts(pull.staged);
    assert(hashes.to_set().contains(hash) <==> hashes.contains(hash));
    if hashes.contains(hash) {
        let i = choose|i: int| 0 <= i < hashes.len() && hashes[i] == hash;
        assert(pull.staged[i].0 == hash);
    }
    if exists|i: int| 0 <= i < pull.staged.len() && (#[trigger] pull.staged[i]).0 == hash {
        let i = choose|i: int| 0 <= i < pull.staged.len() && (#[trigger] pull.staged[i]).0 == hash;
        assert(hashes[i] == hash);
    }
}

proof fn filtered_records<T>(records: Seq<T>, keep: spec_fn(T) -> bool)
    ensures
        forall|record: T| #[trigger]
            records.filter(keep).contains(record) <==> records.contains(record) && keep(record),
        forall|i: int|
            0 <= i < records.len() && keep(#[trigger] records[i]) ==> records.filter(keep).contains(
                records[i],
            ),
    decreases records.len(),
{
    reveal(Seq::filter);
    if records.len() > 0 {
        let rest = records.drop_last();
        let before = rest.filter(keep);
        let after = records.filter(keep);
        filtered_records(rest, keep);
        assert forall|record: T| #[trigger]
            after.contains(record) <==> records.contains(record) && keep(record) by {
            if rest.contains(record) {
                let i = choose|i: int| 0 <= i < rest.len() && rest[i] == record;
                assert(records[i] == record);
            }
            if records.contains(record) {
                let i = choose|i: int| 0 <= i < records.len() && records[i] == record;
                if i < rest.len() {
                    assert(rest[i] == record);
                }
            }
            if before.contains(record) {
                let i = choose|i: int| 0 <= i < before.len() && before[i] == record;
                assert(after[i] == record);
            }
            if keep(records.last()) {
                assert(after[before.len() as int] == records.last());
                if after.contains(record) {
                    let i = choose|i: int| 0 <= i < after.len() && after[i] == record;
                    if i < before.len() {
                        assert(before[i] == record);
                    }
                }
            }
            assert(before.contains(record) <==> rest.contains(record) && keep(record));
            assert(records[records.len() - 1] == records.last());
        }
        assert forall|i: int| 0 <= i < records.len() && keep(#[trigger] records[i]) implies after.contains(
            records[i],
        ) by {
            assert(records.contains(records[i]));
        }
    }
}

/// A filled destination is staged under the hash that was asked for in its place: what is staged
/// grows by exactly those pairs, and the hashes and destinations of one chunk stay together from
/// the pull to the staging.
pub proof fn destinations_are_staged_under_their_hashes(
    pull: AttachedView,
    event: AttachedEvent,
    after: AttachedView,
    action: AttachedActionView,
)
    requires
        pull.wf(),
        pull.steps(event, after, action),
    ensures
        match (pull.state, event) {
            (AttachedStateView::Staging { hashes, filled }, AttachedEvent::Staged) => {
                &&& after.staged.len() == pull.staged.len() + hashes.len()
                &&& forall|i: int|
                    0 <= i < pull.staged.len() ==> #[trigger] after.staged[i] == pull.staged[i]
                &&& forall|i: int|
                    0 <= i < hashes.len() ==> after.staged[pull.staged.len() + i] == (
                        #[trigger] hashes[i],
                        filled[i],
                    )
            },
            (AttachedStateView::Pulling(chunk), AttachedEvent::Filled(filled)) => {
                &&& action matches AttachedActionView::Stage { hashes, filled: into } ==> hashes
                    == chunk.hashes() && into == filled@ && hashes.len() == filled@.len()
                &&& action matches AttachedActionView::Checksum(blocks) ==> {
                    &&& blocks.len() == filled@.len()
                    &&& forall|i: int|
                        0 <= i < blocks.len() ==> (#[trigger] blocks[i]).block_id == filled@[i]
                            && blocks[i].hash == chunk.hashes()[i]
                }
                &&& filled@.len() != chunk.hashes().len() ==> action is Fail
                &&& !pull.require_integrity && filled@.len() == chunk.hashes().len()
                    ==> action is Stage
                &&& pull.require_integrity ==> action is Checksum || action is Fail
            },
            (
                AttachedStateView::Verifying { records, filled },
                AttachedEvent::Checksums(checksums),
            ) => action matches AttachedActionView::Stage { hashes, filled: into } ==> {
                &&& into == filled
                &&& hashes.len() == records.len()
                &&& forall|i: int|
                    0 <= i < hashes.len() ==> #[trigger] hashes[i] == records[i].block.hash
            },
            _ => after.staged == pull.staged,
        },
        after.targets == pull.targets,
        after.ordinals == pull.ordinals,
        after.require_integrity == pull.require_integrity,
{
}

/// Every destination of a finished pull was staged under the hash in whose place it stands.
pub proof fn finished_blocks_hold_their_hashes(
    pull: AttachedView,
    event: AttachedEvent,
    after: AttachedView,
    blocks: Seq<BlockId>,
    host_blocks: usize,
    i: int,
)
    requires
        pull.wf(),
        pull.steps(event, after, AttachedActionView::Finish { blocks, host_blocks }),
        0 <= i < blocks.len(),
    ensures
        blocks.len() == pull.targets.len(),
        after.staged.contains((pull.targets[i], blocks[i])),
{
    finished_pulls_are_complete(
        pull,
        event,
        after,
        AttachedActionView::Finish { blocks, host_blocks },
        blocks,
        host_blocks,
    );
    let hash = pull.targets[i];
    assert(pull.targets.contains(hash));
    assert(pull.targets.to_set().contains(hash));
    assert(after.pulled().contains(hash));
    mapped_pairs_are_listed(after.staged, hash);
}

proof fn mapped_pairs_are_listed(staged: Seq<(SequenceHash, BlockId)>, hash: SequenceHash)
    requires
        firsts(staged).to_set().contains(hash),
    ensures
        staged.contains((hash, pairs_map(staged)[hash])),
    decreases staged.len(),
{
    let hashes = firsts(staged);
    assert(hashes.contains(hash));
    let at = choose|at: int| 0 <= at < hashes.len() && hashes[at] == hash;
    let rest = staged.drop_last();
    if staged.last().0 == hash {
        assert(staged[staged.len() - 1] == (hash, pairs_map(staged)[hash]));
    } else {
        assert(at < rest.len());
        assert(firsts(rest)[at] == hash);
        mapped_pairs_are_listed(rest, hash);
        let i = choose|i: int| 0 <= i < rest.len() && rest[i] == (hash, pairs_map(rest)[hash]);
        assert(staged[i] == rest[i]);
    }
}

/// A pull whose holder has no more to offer ends: it finishes where every target is staged, and
/// says how far it came otherwise.
pub proof fn drained_pulls_end(
    pull: AttachedView,
    after: AttachedView,
    action: AttachedActionView,
)
    requires
        pull.wf(),
        pull.state is Draining,
        pull.targets.no_duplicates(),
        pull.steps(AttachedEvent::Drained, after, action),
    ensures
        after.state is Finished,
        action is Finish <==> forall|i: int|
            0 <= i < pull.targets.len() ==> pull.pulled().contains(#[trigger] pull.targets[i]),
        !(action is Finish) ==> (action matches AttachedActionView::Fail(
            StagingError::Drained { pulled, wanted },
        ) && pulled == pull.pulled().len() as usize && wanted == pull.targets.to_set().len()
            as usize),
{
    let all = pull.targets.to_set();
    if forall|i: int|
        0 <= i < pull.targets.len() ==> pull.pulled().contains(#[trigger] pull.targets[i]) {
        assert forall|hash: SequenceHash| all.contains(hash) implies pull.pulled().contains(
            hash,
        ) by {
            assert(pull.targets.contains(hash));
            let i = choose|i: int| 0 <= i < pull.targets.len() && pull.targets[i] == hash;
            assert(pull.pulled().contains(pull.targets[i]));
        }
        assert(pull.pulled() =~= all);
    }
    if pull.pulled() == all {
        assert forall|i: int| 0 <= i < pull.targets.len() implies pull.pulled().contains(
            #[trigger] pull.targets[i],
        ) by {
            assert(pull.targets.contains(pull.targets[i]));
        }
    }
}

/// A finished pull counts each wanted block once.
pub proof fn finished_pulls_count_their_blocks(
    pull: AttachedView,
    event: AttachedEvent,
    after: AttachedView,
    blocks: Seq<BlockId>,
    host_blocks: usize,
)
    requires
        pull.wf(),
        pull.steps(event, after, AttachedActionView::Finish { blocks, host_blocks }),
    ensures
        host_blocks == pull.targets.len(),
        after.state is Finished,
{
    pull.targets.unique_seq_to_set();
}

/// Every step that fails is reported for what failed, and ends the pull.
pub proof fn failed_steps_end_the_pull(
    pull: AttachedView,
    event: AttachedEvent,
    after: AttachedView,
    action: AttachedActionView,
)
    requires
        pull.wf(),
        pull.steps(event, after, action),
    ensures
        action is Fail ==> after.state is Finished && !(pull.state is Finished),
        match (pull.state, event) {
            (AttachedStateView::Pulling(chunk), AttachedEvent::AllocationFailed) => action matches
                AttachedActionView::Fail(StagingError::AllocationFailed { blocks }) && blocks
                == chunk.hashes().len() as usize,
            (AttachedStateView::Pulling(_), AttachedEvent::PullFailed) => action
                == AttachedActionView::Fail(StagingError::PullFailed),
            (AttachedStateView::Verifying { .. }, AttachedEvent::ChecksumsUnavailable) => action
                == AttachedActionView::Fail(StagingError::ChecksumUnavailable),
            (AttachedStateView::Staging { .. }, AttachedEvent::StageFailed) => action
                == AttachedActionView::Fail(StagingError::StageFailed),
            (AttachedStateView::Pulling(chunk), AttachedEvent::Filled(filled)) => filled@.len()
                != chunk.hashes().len() ==> (action matches AttachedActionView::Fail(
                StagingError::PulledCount { returned, expected },
            ) && returned == filled@.len() as usize && expected == chunk.hashes().len() as usize),
            _ => true,
        },
        pull.state is Finished ==> after == pull && action is Ignore,
{
}

/// A chunk with a record out of its place is refused for the first such record.
pub proof fn misplaced_records_are_refused(
    pull: AttachedView,
    records: Seq<VerifiedCommittedBlock>,
    filled: Vec<BlockId>,
    after: AttachedView,
    action: AttachedActionView,
    at: int,
)
    requires
        pull.wf(),
        pull.require_integrity,
        pull.state == AttachedStateView::Pulling(ChunkView::Verified(records)),
        pull.steps(AttachedEvent::Filled(filled), after, action),
        filled@.len() == records.len(),
        0 <= at < records.len(),
        forall|i: int|
            0 <= i < at ==> pull.ordinals.contains_key((#[trigger] records[i]).block.hash)
                && pull.ordinals[records[i].block.hash] == records[i].ordinal,
    ensures
        !pull.ordinals.contains_key(records[at].block.hash) ==> action == AttachedActionView::Fail(
            StagingError::UnknownHash { hash: records[at].block.hash },
        ),
        pull.ordinals.contains_key(records[at].block.hash)
            && pull.ordinals[records[at].block.hash] != records[at].ordinal ==> action
            == AttachedActionView::Fail(
            StagingError::OrderMismatch {
                hash: records[at].block.hash,
                advertised: records[at].ordinal,
                expected: pull.ordinals[records[at].block.hash],
            },
        ),
{
    let chunk = ChunkView::Verified(records);
    assert(chunk.hashes().len() == records.len());
    if record_fault(pull.ordinals, records[at]) is Some {
        let e = choose|e: StagingError| #[trigger]
            first_record_fault(pull.ordinals, records, e) && (after, action) == pull.failing(e);
        let found = choose|found: int|
            {
                &&& 0 <= found < records.len()
                &&& record_fault(pull.ordinals, #[trigger] records[found]) == Some(e)
                &&& forall|i: int|
                    0 <= i < found ==> record_fault(pull.ordinals, #[trigger] records[i]) is None
            };
        assert(!(found < at));
        assert(!(at < found)) by {
            if at < found {
                assert(record_fault(pull.ordinals, records[at]) is None);
            }
        }
    }
}

} // verus!
