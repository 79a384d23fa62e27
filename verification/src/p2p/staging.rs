//! Staging of one resource's blocks on the pulling side of a transfer session.
//!
//! A staged pull fills destination blocks without publishing their hashes, so that several
//! resources can be pulled and published together.

use crate::ids::{BlockId, LogicalResourceId, SequenceHash};
use crate::message::{part_views, MessagePart, PartView};
use crate::ordered::{firsts, occurs_before, pairs_map, pairs_map_holds_the_pairs, KeyMap, KeySet};
use crate::p2p::integrity::{PayloadBlock, PayloadChecksum};
use vstd::prelude::*;

verus! {

/// A block that the holder has committed to a session.
#[derive(Clone, Copy, Debug, PartialEq, Eq, Structural)]
pub struct CommittedBlock {
    pub hash: SequenceHash,
    pub peer_block_id: BlockId,
}

/// A committed block with its place in the commit order and its payload's checksum.
#[derive(Clone, Copy, Debug, PartialEq, Eq)]
pub struct VerifiedCommittedBlock {
    pub block: CommittedBlock,
    pub ordinal: u32,
    pub checksum: PayloadChecksum,
}

/// Why a pull could not be staged.
#[allow(inconsistent_fields)]
#[derive(Clone, Copy, Debug, PartialEq, Eq, Structural)]
pub enum StagingError {
    /// A committed block's place does not fit its field.
    OrdinalOverflow,
    /// Hashes were selected that the holder has not committed.
    HashesNotCommitted { missing: usize },
    /// Integrity is required, but a wanted block was offered without a checksum.
    Unverified,
    AllocationFailed { blocks: usize },
    PullFailed,
    PulledCount { returned: usize, expected: usize },
    UnknownHash { hash: SequenceHash },
    OrderMismatch { hash: SequenceHash, advertised: u32, expected: u32 },
    ChecksumUnavailable,
    ChecksumMismatch { hash: SequenceHash },
    StageFailed,
    /// The holder ran dry before every wanted block was pulled.
    Drained { pulled: usize, wanted: usize },
    MissingDestination { hash: SequenceHash },
    OutsideSelector { blocks: usize },
}

impl StagingError {
    /// What the error is shown as.
    pub open spec fn parts(self, resource: LogicalResourceId) -> Seq<PartView> {
        match self {
            StagingError::OrdinalOverflow => seq![
                PartView::Text("payload_checksum_order_overflow: committed ordinal exceeds u32"@),
            ],
            StagingError::HashesNotCommitted { missing } => seq![
                PartView::Text("hashes_not_committed: "@),
                PartView::Number(missing as int),
                PartView::Text(" hash(es) in selector are not committed"@),
            ],
            StagingError::Unverified => seq![
                PartView::Text("payload_checksum_unverified: bundle pull received unverified availability"@),
            ],
            StagingError::AllocationFailed { blocks } => seq![
                PartView::Text("pull: failed to allocate "@),
                PartView::Number(blocks as int),
                PartView::Text(" G2 mutable blocks"@),
            ],
            StagingError::PullFailed => seq![
                PartView::Text("session.pull: "@),
                PartView::Cause,
            ],
            StagingError::PulledCount { returned, expected } => seq![
                PartView::Text("pull: session.pull returned "@),
                PartView::Number(returned as int),
                PartView::Text(" blocks, expected "@),
                PartView::Number(expected as int),
            ],
            StagingError::UnknownHash { hash } => seq![
                PartView::Text("payload_checksum_unknown_hash: resource "@),
                PartView::Resource(resource),
                PartView::Text(" hash "@),
                PartView::Hash(hash),
            ],
            StagingError::OrderMismatch { hash, advertised, expected } => seq![
                PartView::Text("payload_checksum_order_mismatch: resource "@),
                PartView::Resource(resource),
                PartView::Text(" hash "@),
                PartView::Hash(hash),
                PartView::Text(" advertised ordinal "@),
                PartView::Number(advertised as int),
                PartView::Text(", expected "@),
                PartView::Number(expected as int),
            ],
            StagingError::ChecksumUnavailable => seq![
                PartView::Text("payload_checksum_unavailable: resource "@),
                PartView::Resource(resource),
                PartView::Text(": "@),
                PartView::Cause,
            ],
            StagingError::ChecksumMismatch { hash } => seq![
                PartView::Text("payload_checksum_mismatch: resource "@),
                PartView::Resource(resource),
                PartView::Text(" hash "@),
                PartView::Hash(hash),
            ],
            StagingError::StageFailed => seq![
                PartView::Text("stage pulled block: "@),
                PartView::Cause,
            ],
            StagingError::Drained { pulled, wanted } => seq![
                PartView::Text("pull: availability drained with "@),
                PartView::Number(pulled as int),
                PartView::Text(" of "@),
                PartView::Number(wanted as int),
                PartView::Text(" target hashes pulled"@),
            ],
            StagingError::MissingDestination { hash } => seq![
                PartView::Text("pull: selected hash "@),
                PartView::Hash(hash),
                PartView::Text(" has no staged destination"@),
            ],
            StagingError::OutsideSelector { blocks } => seq![
                PartView::Text("pull: "@),
                PartView::Number(blocks as int),
                PartView::Text(" staged destination(s) were outside the selector"@),
            ],
        }
    }

    /// The message, part by part.
    pub fn message(self, resource: LogicalResourceId) -> (r: Vec<MessagePart>)
        ensures
            part_views(r@) == self.parts(resource),
    {
        let parts = match self {
            StagingError::OrdinalOverflow => vec![
                MessagePart::Text("payload_checksum_order_overflow: committed ordinal exceeds u32"),
            ],
            StagingError::HashesNotCommitted { missing } => vec![
                MessagePart::Text("hashes_not_committed: "),
                MessagePart::Number(missing),
                MessagePart::Text(" hash(es) in selector are not committed"),
            ],
            StagingError::Unverified => vec![
                MessagePart::Text("payload_checksum_unverified: bundle pull received unverified availability"),
            ],
            StagingError::AllocationFailed { blocks } => vec![
                MessagePart::Text("pull: failed to allocate "),
                MessagePart::Number(blocks),
                MessagePart::Text(" G2 mutable blocks"),
            ],
            StagingError::PullFailed => vec![
                MessagePart::Text("session.pull: "),
                MessagePart::Cause,
            ],
            StagingError::PulledCount { returned, expected } => vec![
                MessagePart::Text("pull: session.pull returned "),
                MessagePart::Number(returned),
                MessagePart::Text(" blocks, expected "),
                MessagePart::Number(expected),
            ],
            StagingError::UnknownHash { hash } => vec![
                MessagePart::Text("payload_checksum_unknown_hash: resource "),
                MessagePart::Resource(resource),
                MessagePart::Text(" hash "),
                MessagePart::Hash(hash),
            ],
            StagingError::OrderMismatch { hash, advertised, expected } => vec![
                MessagePart::Text("payload_checksum_order_mismatch: resource "),
                MessagePart::Resource(resource),
                MessagePart::Text(" hash "),
                MessagePart::Hash(hash),
                MessagePart::Text(" advertised ordinal "),
                MessagePart::Number(advertised as usize),
                MessagePart::Text(", expected "),
                MessagePart::Number(expected as usize),
            ],
            StagingError::ChecksumUnavailable => vec![
                MessagePart::Text("payload_checksum_unavailable: resource "),
                MessagePart::Resource(resource),
                MessagePart::Text(": "),
                MessagePart::Cause,
            ],
            StagingError::ChecksumMismatch { hash } => vec![
                MessagePart::Text("payload_checksum_mismatch: resource "),
                MessagePart::Resource(resource),
                MessagePart::Text(" hash "),
                MessagePart::Hash(hash),
            ],
            StagingError::StageFailed => vec![
                MessagePart::Text("stage pulled block: "),
                MessagePart::Cause,
            ],
            StagingError::Drained { pulled, wanted } => vec![
                MessagePart::Text("pull: availability drained with "),
                MessagePart::Number(pulled),
                MessagePart::Text(" of "),
                MessagePart::Number(wanted),
                MessagePart::Text(" target hashes pulled"),
            ],
            StagingError::MissingDestination { hash } => vec![
                MessagePart::Text("pull: selected hash "),
                MessagePart::Hash(hash),
                MessagePart::Text(" has no staged destination"),
            ],
            StagingError::OutsideSelector { blocks } => vec![
                MessagePart::Text("pull: "),
                MessagePart::Number(blocks),
                MessagePart::Text(" staged destination(s) were outside the selector"),
            ],
        };
        assert(part_views(parts@) =~= self.parts(resource));
        parts
    }
}

/// A list with those of some further hashes that it does not hold yet, in order.
pub open spec fn extended(hashes: Seq<SequenceHash>, more: Seq<SequenceHash>) -> Seq<SequenceHash>
    decreases more.len(),
{
    if more.len() == 0 {
        hashes
    } else {
        let before = extended(hashes, more.drop_last());
        if before.contains(more.last()) {
            before
        } else {
            before.push(more.last())
        }
    }
}

/// The hashes that a holder has committed so far, in commit order and without repeats.
#[derive(Debug)]
pub struct CommittedHashes {
    hashes: Vec<SequenceHash>,
    seen: KeySet<SequenceHash>,
}

impl View for CommittedHashes {
    type V = Seq<SequenceHash>;

    closed spec fn view(&self) -> Seq<SequenceHash> {
        self.hashes@
    }
}

impl CommittedHashes {
    pub closed spec fn wf(&self) -> bool {
        self.seen@ == self.hashes@.to_set() && self.hashes@.no_duplicates()
    }

    pub fn new() -> (r: Self)
        ensures
            r.wf(),
            r@ == Seq::<SequenceHash>::empty(),
    {
        let r = CommittedHashes { hashes: Vec::new(), seen: KeySet::new() };
        assert(r.seen@ =~= r.hashes@.to_set());
        r
    }

    /// Notes the hashes of one commit.
    pub fn add(&mut self, hashes: &[SequenceHash])
        requires
            old(self).wf(),
        ensures
            final(self).wf(),
            final(self)@ == extended(old(self)@, hashes@),
    {
        let mut at: usize = 0;
        assert(hashes@.subrange(0, 0) =~= Seq::<SequenceHash>::empty());
        while at < hashes.len()
            invariant
                at <= hashes@.len(),
                self.wf(),
                self@ == extended(old(self)@, hashes@.subrange(0, at as int)),
            decreases hashes@.len() - at,
        {
            let hash = hashes[at];
            let ghost before = self.hashes@;
            proof {
                let more = hashes@.subrange(0, at + 1);
                assert(more.drop_last() =~= hashes@.subrange(0, at as int));
                assert(more.last() == hash);
                assert(before.contains(hash) <==> before.to_set().contains(hash));
            }
            if self.seen.insert(hash) {
                self.hashes.push(hash);
                proof {
                    assert forall|h: SequenceHash|
                        self.hashes@.to_set().contains(h) <==> self.seen@.contains(h) by {
                        assert(before.contains(h) <==> before.to_set().contains(h));
                        if before.contains(h) {
                            let i = choose|i: int| 0 <= i < before.len() && before[i] == h;
                            assert(self.hashes@[i] == h);
                        }
                        assert(self.hashes@[before.len() as int] == hash);
                    }
                    assert(self.hashes@.no_duplicates());
                }
            }
            assert(self.seen@ =~= self.hashes@.to_set());
            at = at + 1;
        }
        assert(hashes@.subrange(0, at as int) =~= hashes@);
    }

    /// The hashes, once the holder has closed its commits.
    pub fn into_hashes(self) -> (r: Vec<SequenceHash>)
        requires
            self.wf(),
        ensures
            r@ == self@,
            r@.no_duplicates(),
    {
        self.hashes
    }
}

/// Hashes paired with their places.
pub open spec fn numbered(committed: Seq<SequenceHash>) -> Seq<(SequenceHash, u32)> {
    Seq::new(committed.len(), |i: int| (committed[i], i as u32))
}

/// The place of every hash in the commit order.
pub fn source_ordinals(committed: &[SequenceHash]) -> (r: Result<
    KeyMap<SequenceHash, u32>,
    StagingError,
>)
    ensures
        match r {
            Ok(ordinals) => committed@.len() <= 0x1_0000_0000 && ordinals@ == pairs_map(
                numbered(committed@),
            ),
            Err(e) => committed@.len() > 0x1_0000_0000 && e == StagingError::OrdinalOverflow,
        },
{
    let mut pairs: Vec<(SequenceHash, u32)> = Vec::new();
    let mut at: usize = 0;
    while at < committed.len()
        invariant
            at <= committed@.len(),
            at <= 0x1_0000_0000,
            pairs@ == numbered(committed@.subrange(0, at as int)),
        decreases committed@.len() - at,
    {
        if at > u32::MAX as usize {
            return Err(StagingError::OrdinalOverflow);
        }
        pairs.push((committed[at], at as u32));
        at = at + 1;
        assert(pairs@ =~= numbered(committed@.subrange(0, at as int)));
    }
    assert(committed@.subrange(0, at as int) =~= committed@);
    Ok(KeyMap::collect(pairs))
}

/// Every hash of a commit order without repeats has its own place as its ordinal.
pub proof fn ordinals_are_commit_places(committed: Seq<SequenceHash>, at: int)
    requires
        committed.no_duplicates(),
        committed.len() <= 0x1_0000_0000,
        0 <= at < committed.len(),
    ensures
        pairs_map(numbered(committed)).contains_key(committed[at]),
        pairs_map(numbered(committed))[committed[at]] == at,
{
    let pairs = numbered(committed);
    pairs_map_holds_the_pairs(pairs);
    assert(firsts(pairs) =~= committed);
    assert(pairs[at].0 == committed[at]);
    assert(committed.to_set().contains(committed[at]));
}

/// The selected hashes that are not committed.
pub open spec fn not_committed(
    committed: Seq<SequenceHash>,
    selector: Seq<SequenceHash>,
) -> Seq<SequenceHash> {
    selector.filter(|hash: SequenceHash| !committed.contains(hash))
}

/// The hashes to pull: the selected ones in the order of the selector, or all committed ones.
pub fn select_hashes(
    committed: Vec<SequenceHash>,
    selector: Option<Vec<SequenceHash>>,
) -> (r: Result<Vec<SequenceHash>, StagingError>)
    ensures
        match selector {
            None => r is Ok && r->Ok_0@ == committed@,
            Some(selector) => {
                let missing = not_committed(committed@, selector@).len();
                &&& r is Ok <==> missing == 0
                &&& r is Ok ==> r->Ok_0@ == selector@
                &&& r is Err ==> r->Err_0 == (StagingError::HashesNotCommitted {
                    missing: missing as usize,
                })
            },
        },
{
    let selector = match selector {
        Some(selector) => selector,
        None => {
            return Ok(committed);
        },
    };
    let (known, _) = KeySet::from_keys(committed.as_slice());
    let ghost absent = |hash: SequenceHash| !committed@.contains(hash);
    let mut missing: usize = 0;
    let mut at: usize = 0;
    proof {
        reveal(Seq::filter);
        assert(selector@.subrange(0, 0).filter(absent).len() == 0);
    }
    while at < selector.len()
        invariant
            at <= selector@.len(),
            known@ == committed@.to_set(),
            absent == (|hash: SequenceHash| !committed@.contains(hash)),
            missing == selector@.subrange(0, at as int).filter(absent).len(),
            missing <= at,
        decreases selector@.len() - at,
    {
        proof {
            reveal(Seq::filter);
            let more = selector@.subrange(0, at + 1);
            assert(more.drop_last() =~= selector@.subrange(0, at as int));
            assert(more.last() == selector@[at as int]);
            assert(committed@.contains(more.last()) <==> committed@.to_set().contains(more.last()));
        }
        if !known.contains(&selector[at]) {
            missing = missing + 1;
        }
        at = at + 1;
    }
    assert(selector@.subrange(0, at as int) =~= selector@);
    if missing != 0 {
        return Err(StagingError::HashesNotCommitted { missing });
    }
    Ok(selector)
}

/// Whether a target can be served from what is staged: it is there and was not asked for before.
pub open spec fn servable<T>(
    targets: Seq<SequenceHash>,
    staged: Seq<(SequenceHash, T)>,
    at: int,
) -> bool {
    pairs_map(staged).contains_key(targets[at]) && !occurs_before(targets, at, targets[at])
}

/// Whether putting staged values in the order of the targets can give this.
pub open spec fn selection_ordered<T>(
    targets: Seq<SequenceHash>,
    staged: Seq<(SequenceHash, T)>,
    r: Result<Vec<T>, StagingError>,
) -> bool {
    let map = pairs_map(staged);
    let all = forall|i: int| 0 <= i < targets.len() ==> #[trigger] servable(targets, staged, i);
    match r {
        Ok(ordered) => {
            &&& all
            &&& map.dom() == targets.to_set()
            &&& ordered@.len() == targets.len()
            &&& forall|i: int|
                0 <= i < ordered@.len() ==> #[trigger] ordered@[i] == map[targets[i]]
        },
        Err(StagingError::MissingDestination { hash }) => exists|at: int|
            {
                &&& 0 <= at < targets.len()
                &&& !#[trigger] servable(targets, staged, at)
                &&& targets[at] == hash
                &&& forall|i: int| 0 <= i < at ==> #[trigger] servable(targets, staged, i)
            },
        Err(StagingError::OutsideSelector { blocks }) => {
            &&& all
            &&& blocks > 0
            &&& blocks == map.dom().difference(targets.to_set()).len()
        },
        Err(_) => false,
    }
}

/// The staged values in the order of the targets.
pub fn order_selected<T>(
    target_hashes: &[SequenceHash],
    staged: Vec<(SequenceHash, T)>,
) -> (r: Result<Vec<T>, StagingError>)
    ensures
        selection_ordered(target_hashes@, staged@, r),
{
    let ghost map = pairs_map(staged@);
    let mut rest = KeyMap::collect(staged);
    let mut ordered: Vec<T> = Vec::new();
    let mut at: usize = 0;
    while at < target_hashes.len()
        invariant
            at <= target_hashes@.len(),
            map == pairs_map(staged@),
            ordered@.len() == at,
            forall|i: int| 0 <= i < at ==> #[trigger] ordered@[i] == map[target_hashes@[i]],
            forall|i: int| 0 <= i < at ==> #[trigger] servable(target_hashes@, staged@, i),
            forall|hash: SequenceHash| #[trigger]
                rest@.contains_key(hash) <==> map.contains_key(hash) && !occurs_before(
                    target_hashes@,
                    at as int,
                    hash,
                ),
            forall|hash: SequenceHash| #[trigger]
                rest@.contains_key(hash) ==> rest@[hash] == map[hash],
        decreases target_hashes@.len() - at,
    {
        let hash = target_hashes[at];
        let ghost before = rest@;
        match rest.remove(&hash) {
            Some(value) => {
                assert(before.contains_key(hash));
                assert(servable(target_hashes@, staged@, at as int));
                ordered.push(value);
            },
            None => {
                assert(!before.contains_key(hash));
                assert(!servable(target_hashes@, staged@, at as int));
                return Err(StagingError::MissingDestination { hash });
            },
        }
        proof {
            assert forall|h: SequenceHash| #[trigger]
                rest@.contains_key(h) <==> map.contains_key(h) && !occurs_before(
                    target_hashes@,
                    at + 1,
                    h,
                ) by {
                assert(rest@.contains_key(h) <==> before.contains_key(h) && h != hash);
                if occurs_before(target_hashes@, at as int, h) {
                    let i = choose|i: int| 0 <= i < at && #[trigger] target_hashes@[i] == h;
                    assert(target_hashes@[i] == h);
                }
                if occurs_before(target_hashes@, at + 1, h) {
                    let i = choose|i: int| 0 <= i < at + 1 && #[trigger] target_hashes@[i] == h;
                    if i < at {
                        assert(occurs_before(target_hashes@, at as int, h));
                    }
                }
                assert(target_hashes@[at as int] == hash);
            }
        }
        at = at + 1;
    }
    proof {
        assert forall|h: SequenceHash|
            occurs_before(target_hashes@, at as int, h) <==> target_hashes@.to_set().contains(h) by {
            assert(target_hashes@.contains(h) <==> target_hashes@.to_set().contains(h));
        }
        assert(rest@.dom() =~= map.dom().difference(target_hashes@.to_set())) by {
            assert forall|h: SequenceHash|
                rest@.dom().contains(h) <==> map.dom().difference(
                    target_hashes@.to_set(),
                ).contains(h) by {
                assert(rest@.contains_key(h) <==> map.contains_key(h) && !occurs_before(
                    target_hashes@,
                    at as int,
                    h,
                ));
            }
        }
    }
    let left: usize = rest.len();
    if left != 0 {
        return Err(StagingError::OutsideSelector { blocks: left });
    }
    proof {
        assert(rest@.dom() =~= Set::<SequenceHash>::empty());
        assert forall|h: SequenceHash|
            map.dom().contains(h) <==> target_hashes@.to_set().contains(h) by {
            if map.dom().contains(h) && !target_hashes@.to_set().contains(h) {
                assert(rest@.dom().contains(h));
            }
            if target_hashes@.to_set().contains(h) {
                assert(target_hashes@.contains(h));
                let i = choose|i: int| 0 <= i < target_hashes@.len() && target_hashes@[i] == h;
                assert(servable(target_hashes@, staged@, i));
            }
        }
        assert(map.dom() =~= target_hashes@.to_set());
    }
    Ok(ordered)
}

/// What is wrong with one advertised record.
pub open spec fn record_fault(
    ordinals: Map<SequenceHash, u32>,
    record: VerifiedCommittedBlock,
) -> Option<StagingError> {
    let hash = record.block.hash;
    if !ordinals.contains_key(hash) {
        Some(StagingError::UnknownHash { hash })
    } else if record.ordinal != ordinals[hash] {
        Some(
            StagingError::OrderMismatch {
                hash,
                advertised: record.ordinal,
                expected: ordinals[hash],
            },
        )
    } else {
        None
    }
}

/// The records that have a destination.
pub open spec fn filled_records(
    expected: Seq<VerifiedCommittedBlock>,
    actual: Seq<BlockId>,
) -> int {
    if expected.len() <= actual.len() {
        expected.len() as int
    } else {
        actual.len() as int
    }
}

/// The destination of a record as it is to be checksummed.
pub open spec fn payload_block(
    ordinals: Map<SequenceHash, u32>,
    record: VerifiedCommittedBlock,
    block_id: BlockId,
) -> PayloadBlock {
    PayloadBlock { hash: record.block.hash, block_id, ordinal: ordinals[record.block.hash] }
}

/// The destinations of the first records as they are to be checksummed.
pub open spec fn payload_blocks(
    ordinals: Map<SequenceHash, u32>,
    expected: Seq<VerifiedCommittedBlock>,
    actual: Seq<BlockId>,
) -> Seq<PayloadBlock> {
    Seq::new(
        filled_records(expected, actual) as nat,
        |i: int| payload_block(ordinals, expected[i], actual[i]),
    )
}

/// Checks the advertised order of pulled records against the commit order, and lists what is to be
/// checksummed with the checksums to expect.
pub fn prepare_payload_verification(
    target_ordinals: &KeyMap<SequenceHash, u32>,
    expected: &[VerifiedCommittedBlock],
    actual: &[BlockId],
) -> (r: Result<(Vec<PayloadChecksum>, Vec<PayloadBlock>), StagingError>)
    ensures
        ({
            let count = filled_records(expected@, actual@);
            match r {
                Ok((checksums, blocks)) => {
                    &&& forall|i: int|
                        0 <= i < count ==> record_fault(
                            target_ordinals@,
                            #[trigger] expected@[i],
                        ) is None
                    &&& checksums@.len() == count
                    &&& forall|i: int|
                        0 <= i < count ==> #[trigger] checksums@[i] == expected@[i].checksum
                    &&& blocks@ == payload_blocks(target_ordinals@, expected@, actual@)
                },
                Err(e) => exists|at: int|
                    {
                        &&& 0 <= at < count
                        &&& record_fault(target_ordinals@, #[trigger] expected@[at]) == Some(e)
                        &&& forall|i: int|
                            0 <= i < at ==> record_fault(
                                target_ordinals@,
                                #[trigger] expected@[i],
                            ) is None
                    },
            }
        }),
{
    let mut checksums: Vec<PayloadChecksum> = Vec::new();
    let mut blocks: Vec<PayloadBlock> = Vec::new();
    let mut at: usize = 0;
    while at < expected.len() && at < actual.len()
        invariant
            at <= expected@.len(),
            at <= actual@.len(),
            checksums@.len() == at,
            blocks@.len() == at,
            forall|i: int|
                0 <= i < at ==> record_fault(target_ordinals@, #[trigger] expected@[i]) is None,
            forall|i: int| 0 <= i < at ==> #[trigger] checksums@[i] == expected@[i].checksum,
            forall|i: int|
                0 <= i < at ==> #[trigger] blocks@[i] == payload_block(
                    target_ordinals@,
                    expected@[i],
                    actual@[i],
                ),
        decreases expected@.len() - at,
    {
        let record = expected[at];
        let hash = record.block.hash;
        let ghost fault = record_fault(target_ordinals@, expected@[at as int]);
        let ordinal: u32 = match target_ordinals.get(&hash) {
            Some(ordinal) => *ordinal,
            None => {
                assert(fault == Some(StagingError::UnknownHash { hash }));
                return Err(StagingError::UnknownHash { hash });
            },
        };
        if record.ordinal != ordinal {
            let e = StagingError::OrderMismatch {
                hash,
                advertised: record.ordinal,
                expected: ordinal,
            };
            assert(fault == Some(e));
            return Err(e);
        }
        assert(fault is None);
        checksums.push(record.checksum);
        blocks.push(PayloadBlock { hash, block_id: actual[at], ordinal });
        at = at + 1;
    }
    assert(blocks@ =~= payload_blocks(target_ordinals@, expected@, actual@));
    Ok((checksums, blocks))
}

/// Whether comparing checksums can give this.
pub open spec fn payloads_verified(
    expected: Seq<VerifiedCommittedBlock>,
    actual: Seq<PayloadChecksum>,
    r: Result<(), StagingError>,
) -> bool {
    match r {
        Ok(()) => actual.len() == expected.len() && forall|i: int|
            0 <= i < expected.len() ==> (#[trigger] expected[i]).checksum@ == actual[i]@,
        Err(e) => if actual.len() != expected.len() {
            e == StagingError::ChecksumUnavailable
        } else {
            exists|at: int|
                {
                    &&& 0 <= at < expected.len()
                    &&& (#[trigger] expected[at]).checksum@ != actual[at]@
                    &&& e == (StagingError::ChecksumMismatch { hash: expected[at].block.hash })
                    &&& forall|i: int|
                        0 <= i < at ==> (#[trigger] expected[i]).checksum@ == actual[i]@
                }
        },
    }
}

/// Compares the checksums of the pulled bytes with the advertised ones, one for one.
pub fn verify_payloads(
    expected: &[VerifiedCommittedBlock],
    actual: &[PayloadChecksum],
) -> (r: Result<(), StagingError>)
    ensures
        payloads_verified(expected@, actual@, r),
{
    if actual.len() != expected.len() {
        return Err(StagingError::ChecksumUnavailable);
    }
    let mut at: usize = 0;
    while at < expected.len()
        invariant
            at <= expected@.len(),
            actual@.len() == expected@.len(),
            forall|i: int| 0 <= i < at ==> (#[trigger] expected@[i]).checksum@ == actual@[i]@,
        decreases expected@.len() - at,
    {
        if !expected[at].checksum.same_as(&actual[at]) {
            assert(expected@[at as int].checksum@ != actual@[at as int]@);
            return Err(StagingError::ChecksumMismatch { hash: expected[at].block.hash });
        }
        at = at + 1;
    }
    Ok(())
}

/// Further commits keep what was committed in its place and add exactly the hashes that were not,
/// without repeats.
pub proof fn commits_extend_the_order(hashes: Seq<SequenceHash>, more: Seq<SequenceHash>)
    requires
        hashes.no_duplicates(),
    ensures
        hashes.is_prefix_of(extended(hashes, more)),
        extended(hashes, more).no_duplicates(),
        forall|hash: SequenceHash| #[trigger]
            extended(hashes, more).contains(hash) <==> hashes.contains(hash) || more.contains(hash),
    decreases more.len(),
{
    if more.len() > 0 {
        let rest = more.drop_last();
        let before = extended(hashes, rest);
        let after = extended(hashes, more);
        commits_extend_the_order(hashes, rest);
        assert forall|hash: SequenceHash| #[trigger]
            after.contains(hash) <==> hashes.contains(hash) || more.contains(hash) by {
            assert(more.contains(hash) <==> rest.contains(hash) || hash == more.last()) by {
                if rest.contains(hash) {
                    let i = choose|i: int| 0 <= i < rest.len() && rest[i] == hash;
                    assert(more[i] == hash);
                }
                if more.contains(hash) {
                    let i = choose|i: int| 0 <= i < more.len() && more[i] == hash;
                    if i < rest.len() {
                        assert(rest[i] == hash);
                    }
                }
                assert(more[more.len() - 1] == more.last());
            }
            assert(before.contains(hash) <==> hashes.contains(hash) || rest.contains(hash));
            if !before.contains(more.last()) {
                assert(after[before.len() as int] == more.last());
                if before.contains(hash) {
                    let i = choose|i: int| 0 <= i < before.len() && before[i] == hash;
                    assert(after[i] == hash);
                }
                if after.contains(hash) {
                    let i = choose|i: int| 0 <= i < after.len() && after[i] == hash;
                    if i < before.len() {
                        assert(before[i] == hash);
                    }
                }
            }
        }
    }
}

/// A selection is served exactly if every selected hash is committed.
pub proof fn selections_need_every_hash_committed(
    committed: Seq<SequenceHash>,
    selector: Seq<SequenceHash>,
)
    ensures
        not_committed(committed, selector).len() == 0 <==> forall|i: int|
            0 <= i < selector.len() ==> committed.contains(#[trigger] selector[i]),
        not_committed(committed, selector).len() <= selector.len(),
    decreases selector.len(),
{
    reveal(Seq::filter);
    if selector.len() > 0 {
        let rest = selector.drop_last();
        selections_need_every_hash_committed(committed, rest);
        if forall|i: int| 0 <= i < selector.len() ==> committed.contains(#[trigger] selector[i]) {
            assert forall|i: int| 0 <= i < rest.len() implies committed.contains(
                #[trigger] rest[i],
            ) by {
                assert(rest[i] == selector[i]);
            }
            assert(committed.contains(selector[selector.len() - 1]));
        }
        if not_committed(committed, selector).len() == 0 {
            assert forall|i: int| 0 <= i < selector.len() implies committed.contains(
                #[trigger] selector[i],
            ) by {
                if i < rest.len() {
                    assert(rest[i] == selector[i]);
                }
            }
        }
    }
}

/// A record is accepted exactly if its hash was committed and it is advertised in its place; its
/// destination is then checksummed as that block in that place.
pub proof fn records_are_checked_in_commit_order(
    committed: Seq<SequenceHash>,
    expected: Seq<VerifiedCommittedBlock>,
    actual: Seq<BlockId>,
    i: int,
    at: int,
)
    requires
        committed.no_duplicates(),
        committed.len() <= 0x1_0000_0000,
        0 <= at < committed.len(),
        0 <= i < expected.len(),
        i < actual.len(),
        expected[i].block.hash == committed[at],
    ensures
        ({
            let ordinals = pairs_map(numbered(committed));
            let blocks = payload_blocks(ordinals, expected, actual);
            &&& record_fault(ordinals, expected[i]) is None <==> expected[i].ordinal == at
            &&& i < blocks.len()
            &&& blocks.len() <= expected.len()
            &&& blocks.len() <= actual.len()
            &&& blocks[i].hash == committed[at]
            &&& blocks[i].ordinal == at
            &&& blocks[i].block_id == actual[i]
        }),
{
    ordinals_are_commit_places(committed, at);
}

/// Staged values come back in the order of the targets exactly if every target is staged once and
/// wanted once and nothing else is staged; each is then the value that was staged under its target.
pub proof fn staged_values_come_back_in_the_wanted_order<T>(
    targets: Seq<SequenceHash>,
    staged: Seq<(SequenceHash, T)>,
    r: Result<Vec<T>, StagingError>,
)
    requires
        selection_ordered(targets, staged, r),
        firsts(staged).no_duplicates(),
    ensures
        r is Ok <==> targets.no_duplicates() && targets.to_set() == firsts(staged).to_set(),
        r is Ok ==> r->Ok_0@.len() == targets.len() && forall|i: int|
            0 <= i < targets.len() ==> staged.contains((#[trigger] targets[i], r->Ok_0@[i])),
{
    let map = pairs_map(staged);
    let hashes = firsts(staged);
    pairs_map_holds_the_pairs(staged);
    assert(crate::ordered::distinct_up_to(hashes, staged.len() as int));
    assert(map.dom() == hashes.to_set());
    if r is Ok {
        assert forall|i: int, j: int| 0 <= i < targets.len() && 0 <= j < targets.len() && i != j implies targets[i]
            != targets[j] by {
            if i < j {
                assert(servable(targets, staged, j));
                assert(targets[i] != targets[j]);
            } else {
                assert(servable(targets, staged, i));
                assert(targets[j] != targets[i]);
            }
        }
        assert forall|i: int| 0 <= i < targets.len() implies staged.contains(
            (#[trigger] targets[i], r->Ok_0@[i]),
        ) by {
            assert(targets.to_set().contains(targets[i]));
            assert(hashes.contains(targets[i]));
            let k = choose|k: int| 0 <= k < hashes.len() && hashes[k] == targets[i];
            assert(map[staged[k].0] == staged[k].1);
            assert(staged[k] == (targets[i], r->Ok_0@[i]));
        }
    } else if targets.no_duplicates() && targets.to_set() == hashes.to_set() {
        assert forall|i: int| 0 <= i < targets.len() implies #[trigger] servable(
            targets,
            staged,
            i,
        ) by {
            assert(targets.to_set().contains(targets[i]));
            assert(map.dom().contains(targets[i]));
            if occurs_before(targets, i, targets[i]) {
                let j = choose|j: int| 0 <= j < i && #[trigger] targets[j] == targets[i];
                assert(targets[j] != targets[i]);
            }
        }
        assert(map.dom().difference(targets.to_set()) =~= Set::<SequenceHash>::empty());
        assert(false);
    }
}

/// Pulled bytes are accepted exactly if there is one checksum for each record and each is the
/// advertised one; what is refused names the first record that differs.
pub proof fn pulled_bytes_are_accepted_as_advertised(
    expected: Seq<VerifiedCommittedBlock>,
    actual: Seq<PayloadChecksum>,
    r: Result<(), StagingError>,
    at: int,
)
    requires
        payloads_verified(expected, actual, r),
        0 <= at < expected.len(),
    ensures
        r is Ok ==> actual.len() == expected.len() && actual[at]@ == expected[at].checksum@,
        actual.len() != expected.len() ==> r == Err::<(), StagingError>(
            StagingError::ChecksumUnavailable,
        ),
        actual.len() == expected.len() && actual[at]@ != expected[at].checksum@ && (forall|i: int|
            0 <= i < at ==> (#[trigger] expected[i]).checksum@ == actual[i]@) ==> r == Err::<
            (),
            StagingError,
        >(StagingError::ChecksumMismatch { hash: expected[at].block.hash }),
        actual.len() == expected.len() && (forall|i: int|
            0 <= i < expected.len() ==> (#[trigger] expected[i]).checksum@ == actual[i]@)
            ==> r is Ok,
{
    if r is Err && actual.len() == expected.len() {
        let e = r->Err_0;
        let found = choose|found: int|
            {
                &&& 0 <= found < expected.len()
                &&& (#[trigger] expected[found]).checksum@ != actual[found]@
                &&& e == (StagingError::ChecksumMismatch { hash: expected[found].block.hash })
                &&& forall|i: int|
                    0 <= i < found ==> (#[trigger] expected[i]).checksum@ == actual[i]@
            };
        assert(expected[found].checksum@ != actual[found]@);
        if actual[at]@ != expected[at].checksum@ && (forall|i: int|
            0 <= i < at ==> (#[trigger] expected[i]).checksum@ == actual[i]@) {
            assert(!(found < at));
            assert(expected[at].checksum@ != actual[at]@);
            assert(!(at < found));
        }
    }
}

/// A refused record is refused for a hash that was never committed, or with the place it was
/// advertised in and the place it was committed in.
pub proof fn records_are_refused_for_their_place(
    ordinals: Map<SequenceHash, u32>,
    record: VerifiedCommittedBlock,
)
    ensures
        ({
            let hash = record.block.hash;
            let fault = record_fault(ordinals, record);
            &&& !ordinals.contains_key(hash) <==> fault == Some(StagingError::UnknownHash { hash })
            &&& fault matches Some(StagingError::OrderMismatch { advertised, expected, .. })
                ==> advertised == record.ordinal && expected == ordinals[hash] && advertised
                != expected
            &&& ordinals.contains_key(hash) && ordinals[hash] != record.ordinal ==> (fault matches
                Some(StagingError::OrderMismatch { hash: named, .. }) && named == hash)
        }),
{
}

} // verus!
