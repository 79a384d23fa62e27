//! End-to-end content integrity for peer pulls.

use crate::bytes::{
    ascii_bytes, bytes_range, le_bytes, le_bytes_are_injective, le_bytes_length, push_ascii,
    push_bytes, push_le,
};
use crate::ids::{BlockId, LogicalResourceId, SequenceHash};
use vstd::prelude::*;

verus! {

/// The 32-byte BLAKE3 digest of some bytes.
pub uninterp spec fn blake3_digest(input: Seq<u8>) -> Seq<u8>;

/// Calls `blake3::hash`, the one-shot form of BLAKE3 with its default key and output length, which
/// is a function of the input bytes alone. What the digest of given bytes is is not stated.
#[verifier::external_body]
fn blake3_hash(input: &[u8]) -> (r: [u8; 32])
    ensures
        r@ == blake3_digest(input@),
{
    *blake3::hash(input).as_bytes()
}

/// The digest that a worker computed over its part of a block.
#[derive(Clone, Copy, Debug, PartialEq, Eq, Hash)]
pub struct PayloadDigest {
    bytes: [u8; 32],
}

impl View for PayloadDigest {
    type V = Seq<u8>;

    closed spec fn view(&self) -> Seq<u8> {
        self.bytes@
    }
}

impl PayloadDigest {
    pub fn from_bytes(bytes: [u8; 32]) -> (r: Self)
        ensures
            r@ == bytes@,
    {
        PayloadDigest { bytes }
    }

    pub fn as_bytes(&self) -> (r: &[u8])
        ensures
            r@ == self@,
            r@.len() == 32,
    {
        self.bytes.as_slice()
    }
}

/// A checksum that binds a payload to its resource, identity, order and placement.
#[derive(Clone, Copy, Debug, PartialEq, Eq, Hash)]
pub struct PayloadChecksum([u8; 32]);

impl View for PayloadChecksum {
    type V = Seq<u8>;

    closed spec fn view(&self) -> Seq<u8> {
        self.0@
    }
}

/// One block whose payload is checksummed.
#[derive(Clone, Copy, Debug, PartialEq, Eq, Structural)]
pub struct PayloadBlock {
    pub hash: SequenceHash,
    pub block_id: BlockId,
    pub ordinal: u32,
}

/// How the payload of a block is spread over workers.
#[derive(Clone, Copy, Debug, PartialEq, Eq, Structural)]
pub enum ChecksumPlacement {
    /// One worker holds all of it.
    ReplicatedOwner,
    /// Every worker holds a part of it.
    TensorSharded { world_size: usize },
}

/// How a resource is spread over workers.
#[derive(Clone, Copy, Debug, PartialEq, Eq, Structural)]
pub enum ParallelismMode {
    TensorParallel,
    ReplicatedData,
}

/// Why there is no checksum.
#[derive(Clone, Copy, Debug, PartialEq, Eq, Structural)]
pub enum IntegrityError {
    NoWorkers,
    NoDigests,
    /// A replicated block has one owner.
    OwnerDigestCount { digests: usize },
    RankDigestCount { world_size: usize, digests: usize },
    /// A worker could not compute its digests.
    WorkerFailed { rank: usize },
    WorkerDigestCount { rank: usize, returned: usize, requested: usize },
}

/// The digests of a tensor-sharded block, each behind its rank.
pub open spec fn ranked_bytes(digests: Seq<(usize, PayloadDigest)>) -> Seq<u8>
    decreases digests.len(),
{
    if digests.len() == 0 {
        Seq::empty()
    } else {
        ranked_bytes(digests.drop_last()) + le_bytes(digests.last().0 as nat, 8)
            + digests.last().1@
    }
}

/// What every checksum starts with: the format, the resource, the block and its order.
pub open spec fn message_head(
    resource: LogicalResourceId,
    encoded: u128,
    ordinal: u32,
) -> Seq<u8> {
    ascii_bytes("kvbm-transfer-payload-v1\0"@) + le_bytes(resource.0 as nat, 2) + le_bytes(
        encoded as nat,
        16,
    ) + le_bytes(ordinal as nat, 4)
}

/// What a checksum ends with: the placement and the digests it needs.
pub open spec fn message_tail(
    placement: ChecksumPlacement,
    digests: Seq<(usize, PayloadDigest)>,
) -> Seq<u8> {
    match placement {
        ChecksumPlacement::ReplicatedOwner => ascii_bytes("replicated-owner\0"@) + digests[0].1@,
        ChecksumPlacement::TensorSharded { world_size } => ascii_bytes("tensor-sharded\0"@)
            + le_bytes(world_size as nat, 8) + ranked_bytes(digests),
    }
}

/// The bytes that a checksum digests.
pub open spec fn checksum_message(
    resource: LogicalResourceId,
    block: PayloadBlock,
    placement: ChecksumPlacement,
    digests: Seq<(usize, PayloadDigest)>,
) -> Seq<u8> {
    message_head(resource, block.hash.encoded, block.ordinal) + message_tail(placement, digests)
}

/// What keeps some digests from making up a checksum.
pub open spec fn digest_fault(placement: ChecksumPlacement, digests: int) -> Option<
    IntegrityError,
> {
    if digests == 0 {
        Some(IntegrityError::NoDigests)
    } else {
        match placement {
            ChecksumPlacement::ReplicatedOwner => if digests == 1 {
                None
            } else {
                Some(IntegrityError::OwnerDigestCount { digests: digests as usize })
            },
            ChecksumPlacement::TensorSharded { world_size } => if digests == world_size {
                None
            } else {
                Some(IntegrityError::RankDigestCount { world_size, digests: digests as usize })
            },
        }
    }
}

/// Writes down [`checksum_message`], or says why there is none.
pub fn bound_message(
    resource: LogicalResourceId,
    block: PayloadBlock,
    placement: ChecksumPlacement,
    rank_digests: &[(usize, PayloadDigest)],
) -> (r: Result<Vec<u8>, IntegrityError>)
    ensures
        match r {
            Ok(message) => digest_fault(placement, rank_digests@.len() as int) is None && message@
                == checksum_message(resource, block, placement, rank_digests@),
            Err(e) => digest_fault(placement, rank_digests@.len() as int) == Some(e),
        },
{
    let count: usize = rank_digests.len();
    if count == 0 {
        return Err(IntegrityError::NoDigests);
    }
    let mut message: Vec<u8> = Vec::new();
    proof {
        reveal_strlit("kvbm-transfer-payload-v1\0");
        reveal_strlit("replicated-owner\0");
        reveal_strlit("tensor-sharded\0");
    }
    push_ascii(&mut message, "kvbm-transfer-payload-v1\0");
    push_le(&mut message, resource.0 as u128, 2);
    push_le(&mut message, block.hash.as_u128(), 16);
    push_le(&mut message, block.ordinal as u128, 4);
    let ghost head = message@;
    assert(head =~= message_head(resource, block.hash.encoded, block.ordinal));
    match placement {
        ChecksumPlacement::ReplicatedOwner => {
            if count != 1 {
                return Err(IntegrityError::OwnerDigestCount { digests: count });
            }
            push_ascii(&mut message, "replicated-owner\0");
            push_bytes(&mut message, rank_digests[0].1.as_bytes());
            assert(message@ =~= head + message_tail(placement, rank_digests@));
        },
        ChecksumPlacement::TensorSharded { world_size } => {
            if count != world_size {
                return Err(IntegrityError::RankDigestCount { world_size, digests: count });
            }
            push_ascii(&mut message, "tensor-sharded\0");
            push_le(&mut message, world_size as u128, 8);
            let ghost start = message@;
            let mut at: usize = 0;
            assert(start + ranked_bytes(rank_digests@.subrange(0, 0)) =~= message@);
            while at < count
                invariant
                    at <= count,
                    count == rank_digests@.len(),
                    message@ == start + ranked_bytes(rank_digests@.subrange(0, at as int)),
                decreases count - at,
            {
                let ghost before = message@;
                push_le(&mut message, rank_digests[at].0 as u128, 8);
                push_bytes(&mut message, rank_digests[at].1.as_bytes());
                proof {
                    let more = rank_digests@.subrange(0, at + 1);
                    assert(more.drop_last() =~= rank_digests@.subrange(0, at as int));
                    assert(more.last() == rank_digests@[at as int]);
                    assert(message@ =~= start + ranked_bytes(more));
                }
                at = at + 1;
            }
            assert(rank_digests@.subrange(0, at as int) =~= rank_digests@);
            assert(message@ =~= head + message_tail(placement, rank_digests@));
        },
    }
    Ok(message)
}

impl PayloadChecksum {
    pub fn from_test_bytes(bytes: [u8; 32]) -> (r: Self)
        ensures
            r@ == bytes@,
    {
        PayloadChecksum(bytes)
    }

    pub fn as_bytes(&self) -> (r: &[u8])
        ensures
            r@ == self@,
            r@.len() == 32,
    {
        self.0.as_slice()
    }

    /// Binds the digests of one block to what they are digests of.
    pub fn bind(
        resource: LogicalResourceId,
        block: PayloadBlock,
        placement: ChecksumPlacement,
        rank_digests: &[(usize, PayloadDigest)],
    ) -> (r: Result<Self, IntegrityError>)
        ensures
            match r {
                Ok(checksum) => digest_fault(placement, rank_digests@.len() as int) is None
                    && checksum@ == blake3_digest(
                    checksum_message(resource, block, placement, rank_digests@),
                ),
                Err(e) => digest_fault(placement, rank_digests@.len() as int) == Some(e),
            },
    {
        match bound_message(resource, block, placement, rank_digests) {
            Ok(message) => Ok(PayloadChecksum(blake3_hash(message.as_slice()))),
            Err(e) => Err(e),
        }
    }

    /// Whether two checksums are equal.
    pub fn same_as(&self, other: &PayloadChecksum) -> (r: bool)
        ensures
            r == (self@ == other@),
    {
        let mut at: usize = 0;
        while at < 32
            invariant
                at <= 32,
                forall|i: int| 0 <= i < at ==> self.0@[i] == other.0@[i],
            decreases 32 - at,
        {
            if self.0[at] != other.0[at] {
                return false;
            }
            at = at + 1;
        }
        assert(self.0@ =~= other.0@);
        true
    }
}

proof fn head_length(resource: LogicalResourceId, encoded: u128, ordinal: u32)
    ensures
        message_head(resource, encoded, ordinal).len() == 47,
{
    reveal_strlit("kvbm-transfer-payload-v1\0");
    le_bytes_length(resource.0 as nat, 2);
    le_bytes_length(encoded as nat, 16);
    le_bytes_length(ordinal as nat, 4);
}

/// A message tells which resource, block and order it was made for: messages of blocks that differ
/// in any of these differ, whatever their placements and digests.
pub proof fn messages_bind_resource_identity_and_order(
    resource_a: LogicalResourceId,
    block_a: PayloadBlock,
    placement_a: ChecksumPlacement,
    digests_a: Seq<(usize, PayloadDigest)>,
    resource_b: LogicalResourceId,
    block_b: PayloadBlock,
    placement_b: ChecksumPlacement,
    digests_b: Seq<(usize, PayloadDigest)>,
)
    requires
        checksum_message(resource_a, block_a, placement_a, digests_a) == checksum_message(
            resource_b,
            block_b,
            placement_b,
            digests_b,
        ),
    ensures
        resource_a == resource_b,
        block_a.hash.encoded == block_b.hash.encoded,
        block_a.ordinal == block_b.ordinal,
        message_tail(placement_a, digests_a) == message_tail(placement_b, digests_b),
{
    let (ea, oa) = (block_a.hash.encoded, block_a.ordinal);
    let (eb, ob) = (block_b.hash.encoded, block_b.ordinal);
    let a = checksum_message(resource_a, block_a, placement_a, digests_a);
    let b = checksum_message(resource_b, block_b, placement_b, digests_b);
    head_length(resource_a, ea, oa);
    head_length(resource_b, eb, ob);
    reveal_strlit("kvbm-transfer-payload-v1\0");
    le_bytes_length(resource_a.0 as nat, 2);
    le_bytes_length(resource_b.0 as nat, 2);
    le_bytes_length(ea as nat, 16);
    le_bytes_length(eb as nat, 16);
    le_bytes_length(oa as nat, 4);
    le_bytes_length(ob as nat, 4);
    assert(le_bytes(resource_a.0 as nat, 2) =~= a.subrange(25, 27));
    assert(le_bytes(resource_b.0 as nat, 2) =~= b.subrange(25, 27));
    assert(le_bytes(ea as nat, 16) =~= a.subrange(27, 43));
    assert(le_bytes(eb as nat, 16) =~= b.subrange(27, 43));
    assert(le_bytes(oa as nat, 4) =~= a.subrange(43, 47));
    assert(le_bytes(ob as nat, 4) =~= b.subrange(43, 47));
    assert(message_tail(placement_a, digests_a) =~= a.subrange(47, a.len() as int));
    assert(message_tail(placement_b, digests_b) =~= b.subrange(47, b.len() as int));
    reveal_with_fuel(bytes_range, 17);
    le_bytes_are_injective(resource_a.0 as nat, resource_b.0 as nat, 2);
    le_bytes_are_injective(ea as nat, eb as nat, 16);
    le_bytes_are_injective(oa as nat, ob as nat, 4);
}

/// A message tells how the payload is placed and what its digests are: a replicated block and a
/// sharded one never share a message, neither do blocks sharded over different numbers of workers,
/// and neither do blocks whose digests differ on any rank.
pub proof fn messages_bind_placement_and_digests(
    placement_a: ChecksumPlacement,
    digests_a: Seq<(usize, PayloadDigest)>,
    placement_b: ChecksumPlacement,
    digests_b: Seq<(usize, PayloadDigest)>,
)
    requires
        digest_fault(placement_a, digests_a.len() as int) is None,
        digest_fault(placement_b, digests_b.len() as int) is None,
        message_tail(placement_a, digests_a) == message_tail(placement_b, digests_b),
    ensures
        placement_a == placement_b,
        digests_a.len() == digests_b.len(),
        forall|i: int|
            0 <= i < digests_a.len() ==> (#[trigger] digests_a[i]).1@ == digests_b[i].1@,
        placement_a is TensorSharded ==> forall|i: int|
            0 <= i < digests_a.len() ==> (#[trigger] digests_a[i]).0 == digests_b[i].0,
{
    reveal_strlit("replicated-owner\0");
    reveal_strlit("tensor-sharded\0");
    let a = message_tail(placement_a, digests_a);
    let b = message_tail(placement_b, digests_b);
    let owner = ascii_bytes("replicated-owner\0"@);
    let sharded = ascii_bytes("tensor-sharded\0"@);
    assert(owner[0] == 114u8);
    assert(sharded[0] == 116u8);
    assert(placement_a is ReplicatedOwner ==> a[0] == owner[0]);
    assert(placement_b is ReplicatedOwner ==> b[0] == owner[0]);
    assert(placement_a is TensorSharded ==> a[0] == sharded[0]);
    assert(placement_b is TensorSharded ==> b[0] == sharded[0]);
    match (placement_a, placement_b) {
        (ChecksumPlacement::ReplicatedOwner, ChecksumPlacement::ReplicatedOwner) => {
            assert(digests_a[0].1@ =~= a.subrange(17, 49));
            assert(digests_b[0].1@ =~= b.subrange(17, 49));
        },
        (
            ChecksumPlacement::TensorSharded { world_size: wa },
            ChecksumPlacement::TensorSharded { world_size: wb },
        ) => {
            le_bytes_length(wa as nat, 8);
            le_bytes_length(wb as nat, 8);
            assert(le_bytes(wa as nat, 8) =~= a.subrange(15, 23));
            assert(le_bytes(wb as nat, 8) =~= b.subrange(15, 23));
            reveal_with_fuel(bytes_range, 9);
            le_bytes_are_injective(wa as nat, wb as nat, 8);
            assert(ranked_bytes(digests_a) =~= a.subrange(23, a.len() as int));
            assert(ranked_bytes(digests_b) =~= b.subrange(23, b.len() as int));
            ranked_bytes_are_injective(digests_a, digests_b);
        },
        _ => {},
    }
}

proof fn ranked_bytes_are_injective(
    a: Seq<(usize, PayloadDigest)>,
    b: Seq<(usize, PayloadDigest)>,
)
    requires
        a.len() == b.len(),
        ranked_bytes(a) == ranked_bytes(b),
    ensures
        forall|i: int| 0 <= i < a.len() ==> (#[trigger] a[i]).0 == b[i].0 && a[i].1@ == b[i].1@,
    decreases a.len(),
{
    if a.len() > 0 {
        let x = ranked_bytes(a);
        let y = ranked_bytes(b);
        let n = x.len() as int;
        let pa = ranked_bytes(a.drop_last());
        let pb = ranked_bytes(b.drop_last());
        le_bytes_length(a.last().0 as nat, 8);
        le_bytes_length(b.last().0 as nat, 8);
        assert(a.last() == a[a.len() - 1] && b.last() == b[b.len() - 1]);
        assert(pa.len() == n - 40 && pb.len() == n - 40);
        assert(pa =~= x.subrange(0, n - 40));
        assert(pb =~= y.subrange(0, n - 40));
        assert(le_bytes(a.last().0 as nat, 8) =~= x.subrange(n - 40, n - 32));
        assert(le_bytes(b.last().0 as nat, 8) =~= y.subrange(n - 40, n - 32));
        assert(a.last().1@ =~= x.subrange(n - 32, n));
        assert(b.last().1@ =~= y.subrange(n - 32, n));
        reveal_with_fuel(bytes_range, 9);
        le_bytes_are_injective(a.last().0 as nat, b.last().0 as nat, 8);
        ranked_bytes_are_injective(a.drop_last(), b.drop_last());
        assert forall|i: int| 0 <= i < a.len() implies (#[trigger] a[i]).0 == b[i].0 && a[i].1@
            == b[i].1@ by {
            if i < a.len() - 1 {
                assert(a.drop_last()[i] == a[i]);
                assert(b.drop_last()[i] == b[i]);
            }
        }
    }
}

/// The checksum of a replicated block does not depend on which rank owns it.
pub proof fn replicated_messages_ignore_the_owner_rank(
    resource: LogicalResourceId,
    block: PayloadBlock,
    digest: PayloadDigest,
    left: usize,
    right: usize,
)
    ensures
        checksum_message(
            resource,
            block,
            ChecksumPlacement::ReplicatedOwner,
            seq![(left, digest)],
        ) == checksum_message(
            resource,
            block,
            ChecksumPlacement::ReplicatedOwner,
            seq![(right, digest)],
        ),
{
}

/// A list by rank with one more digest, behind all of no higher rank.
pub open spec fn insert_ranked(
    sorted: Seq<(usize, PayloadDigest)>,
    digest: (usize, PayloadDigest),
) -> Seq<(usize, PayloadDigest)>
    decreases sorted.len(),
{
    if sorted.len() == 0 || sorted.last().0 <= digest.0 {
        sorted.push(digest)
    } else {
        insert_ranked(sorted.drop_last(), digest).push(sorted.last())
    }
}

/// Digests by rank; those of one rank keep their order.
pub open spec fn sorted_by_rank(digests: Seq<(usize, PayloadDigest)>) -> Seq<(usize, PayloadDigest)>
    decreases digests.len(),
{
    if digests.len() == 0 {
        Seq::empty()
    } else {
        insert_ranked(sorted_by_rank(digests.drop_last()), digests.last())
    }
}

/// Whether no digest stands before one of a lower rank.
pub open spec fn ranks_ascend(digests: Seq<(usize, PayloadDigest)>) -> bool {
    forall|i: int, j: int|
        #![trigger digests[i], digests[j]]
        0 <= i <= j < digests.len() ==> digests[i].0 <= digests[j].0
}

proof fn insertion_point(
    sorted: Seq<(usize, PayloadDigest)>,
    digest: (usize, PayloadDigest),
    at: int,
)
    requires
        ranks_ascend(sorted),
        0 <= at <= sorted.len(),
        at > 0 ==> sorted[at - 1].0 <= digest.0,
        at < sorted.len() ==> sorted[at].0 > digest.0,
    ensures
        insert_ranked(sorted, digest) == sorted.insert(at, digest),
        ranks_ascend(sorted.insert(at, digest)),
    decreases sorted.len(),
{
    let result = sorted.insert(at, digest);
    assert forall|i: int, j: int|
        #![trigger result[i], result[j]]
        0 <= i <= j < result.len() implies result[i].0 <= result[j].0 by {
        let a = if i < at { i } else { i - 1 };
        let b = if j < at { j } else { j - 1 };
        if i != at && j != at {
            assert(sorted[a].0 <= sorted[b].0);
        } else if i == at && j > at {
            assert(sorted[at].0 <= sorted[b].0);
        } else if j == at && i < at {
            assert(sorted[a].0 <= sorted[at - 1].0);
        }
    }
    if at == sorted.len() {
        assert(sorted.insert(at, digest) =~= sorted.push(digest));
    } else {
        assert(sorted[at].0 <= sorted[sorted.len() - 1].0);
        let rest = sorted.drop_last();
        assert(ranks_ascend(rest)) by {
            assert forall|i: int, j: int|
                #![trigger rest[i], rest[j]]
                0 <= i <= j < rest.len() implies rest[i].0 <= rest[j].0 by {
                assert(sorted[i].0 <= sorted[j].0);
            }
        }
        insertion_point(rest, digest, at);
        assert(sorted.insert(at, digest) =~= rest.insert(at, digest).push(sorted.last()));
    }
}

/// Digests that are by rank already stay as they are.
pub proof fn sorting_keeps_sorted_digests(digests: Seq<(usize, PayloadDigest)>)
    requires
        ranks_ascend(digests),
    ensures
        sorted_by_rank(digests) == digests,
    decreases digests.len(),
{
    if digests.len() > 0 {
        let rest = digests.drop_last();
        assert(ranks_ascend(rest)) by {
            assert forall|i: int, j: int|
                #![trigger rest[i], rest[j]]
                0 <= i <= j < rest.len() implies rest[i].0 <= rest[j].0 by {
                assert(digests[i].0 <= digests[j].0);
            }
        }
        sorting_keeps_sorted_digests(rest);
        if rest.len() > 0 {
            assert(digests[rest.len() - 1].0 <= digests[rest.len() as int].0);
        }
        assert(rest.push(digests.last()) =~= digests);
    } else {
        assert(sorted_by_rank(digests) =~= digests);
    }
}

/// Binds the digests of one block, whatever order the workers answered in.
pub fn bind_payload_checksum(
    resource: LogicalResourceId,
    block: PayloadBlock,
    placement: ChecksumPlacement,
    digests: Vec<(usize, PayloadDigest)>,
) -> (r: Result<PayloadChecksum, IntegrityError>)
    ensures
        match r {
            Ok(checksum) => digest_fault(placement, digests@.len() as int) is None && checksum@
                == blake3_digest(
                checksum_message(resource, block, placement, sorted_by_rank(digests@)),
            ),
            Err(e) => digest_fault(placement, digests@.len() as int) == Some(e),
        },
{
    let mut sorted: Vec<(usize, PayloadDigest)> = Vec::new();
    let mut at: usize = 0;
    assert(sorted@ =~= sorted_by_rank(digests@.subrange(0, 0)));
    while at < digests.len()
        invariant
            at <= digests@.len(),
            sorted@.len() == at,
            sorted@ == sorted_by_rank(digests@.subrange(0, at as int)),
            ranks_ascend(sorted@),
        decreases digests@.len() - at,
    {
        let digest = digests[at];
        let mut place: usize = sorted.len();
        while place > 0 && sorted[place - 1].0 > digest.0
            invariant
                place <= sorted@.len(),
                place < sorted@.len() ==> sorted@[place as int].0 > digest.0,
            decreases place,
        {
            place = place - 1;
        }
        proof {
            insertion_point(sorted@, digest, place as int);
            let more = digests@.subrange(0, at + 1);
            assert(more.drop_last() =~= digests@.subrange(0, at as int));
            assert(more.last() == digest);
        }
        sorted.insert(place, digest);
        at = at + 1;
    }
    assert(digests@.subrange(0, at as int) =~= digests@);
    PayloadChecksum::bind(resource, block, placement, sorted.as_slice())
}

/// The blocks among the first `end` that a rank owns, each with its place on that rank.
pub open spec fn owned_up_to(placed: Seq<(usize, BlockId)>, rank: usize, end: int) -> Seq<
    (usize, BlockId),
>
    decreases end,
{
    if end <= 0 {
        Seq::empty()
    } else if placed[end - 1].0 == rank {
        owned_up_to(placed, rank, end - 1).push(((end - 1) as usize, placed[end - 1].1))
    } else {
        owned_up_to(placed, rank, end - 1)
    }
}

/// The number of blocks that have a place.
pub open spec fn placed_blocks(blocks: Seq<PayloadBlock>, placed: Seq<(usize, BlockId)>) -> int {
    if blocks.len() <= placed.len() {
        blocks.len() as int
    } else {
        placed.len() as int
    }
}

/// The digests that a rank is asked for: the index of each block, and its place on that rank.
pub open spec fn rank_request(
    mode: ParallelismMode,
    blocks: Seq<PayloadBlock>,
    placed: Seq<(usize, BlockId)>,
    rank: usize,
) -> Seq<(usize, BlockId)> {
    match mode {
        ParallelismMode::TensorParallel => Seq::new(
            blocks.len(),
            |i: int| (i as usize, blocks[i].block_id),
        ),
        ParallelismMode::ReplicatedData => owned_up_to(
            placed,
            rank,
            placed_blocks(blocks, placed),
        ),
    }
}

/// What one rank is asked to digest. A replicated block goes to the rank that `placed` names for
/// it; a sharded block goes to every rank.
pub fn digest_request(
    mode: ParallelismMode,
    blocks: &[PayloadBlock],
    placed: &[(usize, BlockId)],
    rank: usize,
) -> (r: Vec<(usize, BlockId)>)
    ensures
        r@ == rank_request(mode, blocks@, placed@, rank),
{
    let mut request: Vec<(usize, BlockId)> = Vec::new();
    let mut at: usize = 0;
    match mode {
        ParallelismMode::TensorParallel => {
            while at < blocks.len()
                invariant
                    at <= blocks@.len(),
                    request@.len() == at,
                    forall|i: int|
                        0 <= i < at ==> #[trigger] request@[i] == (i as usize, blocks@[i].block_id),
                decreases blocks@.len() - at,
            {
                request.push((at, blocks[at].block_id));
                at = at + 1;
            }
            assert(request@ =~= rank_request(mode, blocks@, placed@, rank));
        },
        ParallelismMode::ReplicatedData => {
            while at < blocks.len() && at < placed.len()
                invariant
                    at <= blocks@.len(),
                    at <= placed@.len(),
                    request@ == owned_up_to(placed@, rank, at as int),
                decreases blocks@.len() - at,
            {
                if placed[at].0 == rank {
                    request.push((at, placed[at].1));
                }
                at = at + 1;
            }
        },
    }
    request
}

/// What is wrong with a rank's answer.
pub open spec fn rank_fault(
    requested: int,
    rank: usize,
    answer: Option<Option<Vec<PayloadDigest>>>,
) -> Option<IntegrityError> {
    match answer {
        Some(Some(digests)) => if digests@.len() == requested {
            None
        } else {
            Some(
                IntegrityError::WorkerDigestCount {
                    rank,
                    returned: digests@.len() as usize,
                    requested: requested as usize,
                },
            )
        },
        _ => Some(IntegrityError::WorkerFailed { rank }),
    }
}

/// The answer of a rank, where there is one.
pub open spec fn answer_at(answers: Seq<Option<Vec<PayloadDigest>>>, rank: int) -> Option<
    Option<Vec<PayloadDigest>>,
> {
    if 0 <= rank < answers.len() {
        Some(answers[rank])
    } else {
        None
    }
}

/// What is wrong with the answer of a rank to its request.
pub open spec fn answer_fault(
    mode: ParallelismMode,
    blocks: Seq<PayloadBlock>,
    placed: Seq<(usize, BlockId)>,
    answers: Seq<Option<Vec<PayloadDigest>>>,
    rank: int,
) -> Option<IntegrityError> {
    rank_fault(
        rank_request(mode, blocks, placed, rank as usize).len() as int,
        rank as usize,
        answer_at(answers, rank),
    )
}

/// The digests of one block, by rank.
pub open spec fn block_digests(
    mode: ParallelismMode,
    placed: Seq<(usize, BlockId)>,
    answers: Seq<Option<Vec<PayloadDigest>>>,
    workers: usize,
    block: int,
) -> Seq<(usize, PayloadDigest)> {
    match mode {
        ParallelismMode::TensorParallel => Seq::new(
            workers as nat,
            |rank: int| (rank as usize, answers[rank]->Some_0@[block]),
        ),
        ParallelismMode::ReplicatedData => if block < placed.len() && placed[block].0 < workers {
            let rank = placed[block].0;
            seq![
                (
                    rank,
                    answers[rank as int]->Some_0@[owned_up_to(placed, rank, block).len() as int],
                ),
            ]
        } else {
            Seq::empty()
        },
    }
}

/// How blocks of a mode are placed over some workers.
pub open spec fn mode_placement(mode: ParallelismMode, workers: usize) -> ChecksumPlacement {
    match mode {
        ParallelismMode::TensorParallel => ChecksumPlacement::TensorSharded {
            world_size: workers,
        },
        ParallelismMode::ReplicatedData => ChecksumPlacement::ReplicatedOwner,
    }
}

/// Whether a checksum is that of a block with these digests.
pub open spec fn bound_checksum(
    resource: LogicalResourceId,
    block: PayloadBlock,
    placement: ChecksumPlacement,
    digests: Seq<(usize, PayloadDigest)>,
    checksum: PayloadChecksum,
) -> bool {
    &&& digest_fault(placement, digests.len() as int) is None
    &&& checksum@ == blake3_digest(checksum_message(resource, block, placement, digests))
}

/// Whether some answers make up the checksums of all blocks, or why they do not.
pub open spec fn checksummed(
    resource: LogicalResourceId,
    blocks: Seq<PayloadBlock>,
    mode: ParallelismMode,
    workers: usize,
    placed: Seq<(usize, BlockId)>,
    answers: Seq<Option<Vec<PayloadDigest>>>,
    r: Result<Vec<PayloadChecksum>, IntegrityError>,
) -> bool {
    let placement = mode_placement(mode, workers);
    match r {
        Ok(checksums) => {
            &&& checksums@.len() == blocks.len()
            &&& blocks.len() > 0 ==> workers > 0 && forall|rank: int|
                0 <= rank < workers ==> #[trigger] answer_fault(
                    mode,
                    blocks,
                    placed,
                    answers,
                    rank,
                ) is None
            &&& forall|i: int|
                0 <= i < blocks.len() ==> bound_checksum(
                    resource,
                    blocks[i],
                    placement,
                    block_digests(mode, placed, answers, workers, i),
                    #[trigger] checksums@[i],
                )
        },
        Err(e) => {
            &&& blocks.len() > 0
            &&& {
                ||| workers == 0 && e == IntegrityError::NoWorkers
                ||| workers > 0 && exists|rank: int|
                    {
                        &&& 0 <= rank < workers
                        &&& #[trigger] answer_fault(mode, blocks, placed, answers, rank) == Some(e)
                        &&& forall|i: int|
                            0 <= i < rank ==> #[trigger] answer_fault(
                                mode,
                                blocks,
                                placed,
                                answers,
                                i,
                            ) is None
                    }
                ||| workers > 0 && (forall|rank: int|
                    0 <= rank < workers ==> #[trigger] answer_fault(
                        mode,
                        blocks,
                        placed,
                        answers,
                        rank,
                    ) is None) && exists|i: int|
                    0 <= i < blocks.len() && digest_fault(
                        placement,
                        (#[trigger] block_digests(mode, placed, answers, workers, i)).len() as int,
                    ) == Some(e)
            }
        },
    }
}

proof fn owned_grows(placed: Seq<(usize, BlockId)>, rank: usize, end: int, later: int)
    requires
        0 <= end <= later <= placed.len(),
    ensures
        owned_up_to(placed, rank, end).len() <= owned_up_to(placed, rank, later).len(),
        end < later && placed[end].0 == rank ==> owned_up_to(placed, rank, end).len()
            < owned_up_to(placed, rank, later).len(),
    decreases later - end,
{
    if end < later {
        owned_grows(placed, rank, end, later - 1);
    }
}

/// The checksums of some blocks from what every rank answered to its request, in block order.
pub fn payload_checksums(
    resource: LogicalResourceId,
    blocks: &[PayloadBlock],
    mode: ParallelismMode,
    workers: usize,
    placed: &[(usize, BlockId)],
    answers: &[Option<Vec<PayloadDigest>>],
) -> (r: Result<Vec<PayloadChecksum>, IntegrityError>)
    ensures
        checksummed(resource, blocks@, mode, workers, placed@, answers@, r),
{
    let mut checksums: Vec<PayloadChecksum> = Vec::new();
    if blocks.len() == 0 {
        return Ok(checksums);
    }
    if workers == 0 {
        return Err(IntegrityError::NoWorkers);
    }
    let mut rank: usize = 0;
    while rank < workers
        invariant
            rank <= workers,
            workers > 0,
            blocks@.len() > 0,
            forall|i: int|
                0 <= i < rank ==> #[trigger] answer_fault(mode, blocks@, placed@, answers@, i)
                    is None,
        decreases workers - rank,
    {
        let request = digest_request(mode, blocks, placed, rank);
        let ghost fault = answer_fault(mode, blocks@, placed@, answers@, rank as int);
        let requested: usize = request.len();
        let returned: Option<usize> = if rank < answers.len() {
            match &answers[rank] {
                Some(digests) => Some(digests.len()),
                None => None,
            }
        } else {
            None
        };
        match returned {
            Some(returned) => {
                if returned != requested {
                    let e = IntegrityError::WorkerDigestCount { rank, returned, requested };
                    assert(fault == Some(e));
                    return Err(e);
                }
            },
            None => {
                let e = IntegrityError::WorkerFailed { rank };
                assert(fault == Some(e));
                return Err(e);
            },
        }
        assert(fault is None);
        rank = rank + 1;
    }
    let placement = match mode {
        ParallelismMode::TensorParallel => ChecksumPlacement::TensorSharded { world_size: workers },
        ParallelismMode::ReplicatedData => ChecksumPlacement::ReplicatedOwner,
    };
    let mut at: usize = 0;
    while at < blocks.len()
        invariant
            at <= blocks@.len(),
            workers > 0,
            blocks@.len() > 0,
            placement == mode_placement(mode, workers),
            checksums@.len() == at,
            forall|rank: int|
                0 <= rank < workers ==> #[trigger] answer_fault(
                    mode,
                    blocks@,
                    placed@,
                    answers@,
                    rank,
                ) is None,
            forall|i: int|
                0 <= i < at ==> bound_checksum(
                    resource,
                    blocks@[i],
                    placement,
                    block_digests(mode, placed@, answers@, workers, i),
                    #[trigger] checksums@[i],
                ),
        decreases blocks@.len() - at,
    {
        let digests = gather_digests(mode, blocks, placed, answers, workers, at);
        proof {
            sorting_keeps_sorted_digests(digests@);
        }
        match bind_payload_checksum(resource, blocks[at], placement, digests) {
            Ok(checksum) => {
                assert(bound_checksum(
                    resource,
                    blocks@[at as int],
                    placement,
                    block_digests(mode, placed@, answers@, workers, at as int),
                    checksum,
                ));
                checksums.push(checksum);
            },
            Err(e) => {
                assert(digest_fault(
                    placement,
                    block_digests(mode, placed@, answers@, workers, at as int).len() as int,
                ) == Some(e));
                return Err(e);
            },
        }
        at = at + 1;
    }
    Ok(checksums)
}

/// The digests of one block, by rank.
fn gather_digests(
    mode: ParallelismMode,
    blocks: &[PayloadBlock],
    placed: &[(usize, BlockId)],
    answers: &[Option<Vec<PayloadDigest>>],
    workers: usize,
    block: usize,
) -> (r: Vec<(usize, PayloadDigest)>)
    requires
        block < blocks@.len(),
        forall|rank: int|
            0 <= rank < workers ==> #[trigger] answer_fault(
                mode,
                blocks@,
                placed@,
                answers@,
                rank,
            ) is None,
    ensures
        r@ == block_digests(mode, placed@, answers@, workers, block as int),
        ranks_ascend(r@),
{
    let mut digests: Vec<(usize, PayloadDigest)> = Vec::new();
    match mode {
        ParallelismMode::TensorParallel => {
            let mut rank: usize = 0;
            while rank < workers
                invariant
                    rank <= workers,
                    block < blocks@.len(),
                    mode == ParallelismMode::TensorParallel,
                    digests@.len() == rank,
                    forall|rank: int|
                        0 <= rank < workers ==> #[trigger] answer_fault(
                            mode,
                            blocks@,
                            placed@,
                            answers@,
                            rank,
                        ) is None,
                    forall|i: int|
                        0 <= i < rank ==> #[trigger] digests@[i] == (
                            i as usize,
                            answers@[i]->Some_0@[block as int],
                        ),
                decreases workers - rank,
            {
                assert(answer_fault(mode, blocks@, placed@, answers@, rank as int) is None);
                if let Some(answer) = &answers[rank] {
                    digests.push((rank, answer[block]));
                }
                rank = rank + 1;
            }
        },
        ParallelismMode::ReplicatedData => {
            if block < placed.len() && placed[block].0 < workers {
                let rank: usize = placed[block].0;
                let mut position: usize = 0;
                let mut at: usize = 0;
                while at < block
                    invariant
                        at <= block,
                        block < placed@.len(),
                        position == owned_up_to(placed@, rank, at as int).len(),
                        position <= at,
                    decreases block - at,
                {
                    if placed[at].0 == rank {
                        position = position + 1;
                    }
                    at = at + 1;
                }
                proof {
                    assert(answer_fault(mode, blocks@, placed@, answers@, rank as int) is None);
                    owned_grows(
                        placed@,
                        rank,
                        block as int,
                        placed_blocks(blocks@, placed@),
                    );
                }
                if let Some(answer) = &answers[rank] {
                    digests.push((rank, answer[position]));
                }
            }
        },
    }
    assert(digests@ =~= block_digests(mode, placed@, answers@, workers, block as int));
    digests
}

/// Sorting digests by rank puts them in rank order and loses, adds and changes none.
pub proof fn sorting_only_reorders_digests(digests: Seq<(usize, PayloadDigest)>)
    ensures
        ranks_ascend(sorted_by_rank(digests)),
        sorted_by_rank(digests).to_multiset() == digests.to_multiset(),
        sorted_by_rank(digests).len() == digests.len(),
    decreases digests.len(),
{
    broadcast use vstd::seq_lib::group_to_multiset_ensures;

    if digests.len() > 0 {
        let rest = digests.drop_last();
        sorting_only_reorders_digests(rest);
        inserting_adds_one_digest(sorted_by_rank(rest), digests.last());
        assert(digests =~= rest.push(digests.last()));
    } else {
        assert(sorted_by_rank(digests) =~= digests);
    }
}

proof fn inserting_adds_one_digest(
    sorted: Seq<(usize, PayloadDigest)>,
    digest: (usize, PayloadDigest),
)
    requires
        ranks_ascend(sorted),
    ensures
        ({
            let after = insert_ranked(sorted, digest);
            &&& ranks_ascend(after)
            &&& after.len() == sorted.len() + 1
            &&& after.to_multiset() == sorted.to_multiset().insert(digest)
            &&& after.last().0 == (if sorted.len() == 0 || sorted.last().0 <= digest.0 {
                digest.0
            } else {
                sorted.last().0
            })
        }),
    decreases sorted.len(),
{
    broadcast use vstd::seq_lib::group_to_multiset_ensures;

    let after = insert_ranked(sorted, digest);
    if sorted.len() == 0 || sorted.last().0 <= digest.0 {
        assert forall|i: int, j: int|
            #![trigger after[i], after[j]]
            0 <= i <= j < after.len() implies after[i].0 <= after[j].0 by {
            if j == sorted.len() && i < j {
                assert(sorted[i].0 <= sorted[sorted.len() - 1].0);
            } else if i < j {
                assert(sorted[i].0 <= sorted[j].0);
            }
        }
    } else {
        let rest = sorted.drop_last();
        assert(ranks_ascend(rest)) by {
            assert forall|i: int, j: int|
                #![trigger rest[i], rest[j]]
                0 <= i <= j < rest.len() implies rest[i].0 <= rest[j].0 by {
                assert(sorted[i].0 <= sorted[j].0);
            }
        }
        inserting_adds_one_digest(rest, digest);
        let inner = insert_ranked(rest, digest);
        assert(inner.last().0 <= sorted.last().0) by {
            if rest.len() > 0 && rest.last().0 > digest.0 {
                assert(sorted[sorted.len() - 2].0 <= sorted[sorted.len() - 1].0);
            }
        }
        assert forall|i: int, j: int|
            #![trigger after[i], after[j]]
            0 <= i <= j < after.len() implies after[i].0 <= after[j].0 by {
            if j == inner.len() && i < j {
                assert(inner[i].0 <= inner[inner.len() - 1].0);
            } else if i < j {
                assert(inner[i].0 <= inner[j].0);
            }
        }
        assert(sorted =~= rest.push(sorted.last()));
        assert(after.to_multiset() =~= sorted.to_multiset().insert(digest));
    }
}

/// A rank is asked for every sharded block in its own place, and for exactly the replicated blocks
/// that are placed on it, by their place there and in block order.
pub proof fn ranks_are_asked_for_what_they_hold(
    mode: ParallelismMode,
    blocks: Seq<PayloadBlock>,
    placed: Seq<(usize, BlockId)>,
    rank: usize,
    k: int,
)
    requires
        blocks.len() <= usize::MAX,
        0 <= k < rank_request(mode, blocks, placed, rank).len(),
    ensures
        ({
            let request = rank_request(mode, blocks, placed, rank);
            let (block, block_id) = request[k];
            &&& block < blocks.len()
            &&& k > 0 ==> request[k - 1].0 < block
            &&& match mode {
                ParallelismMode::TensorParallel => {
                    &&& request.len() == blocks.len()
                    &&& block == k
                    &&& block_id == blocks[k].block_id
                },
                ParallelismMode::ReplicatedData => {
                    &&& block < placed.len()
                    &&& placed[block as int] == (rank, block_id)
                },
            }
        }),
{
    if mode is ReplicatedData {
        owned_blocks_ascend(placed, rank, placed_blocks(blocks, placed), k);
    }
}

proof fn owned_blocks_ascend(placed: Seq<(usize, BlockId)>, rank: usize, end: int, k: int)
    requires
        0 <= end <= placed.len(),
        end <= usize::MAX,
        0 <= k < owned_up_to(placed, rank, end).len(),
    ensures
        ({
            let owned = owned_up_to(placed, rank, end);
            &&& owned[k].0 < end
            &&& placed[owned[k].0 as int] == (rank, owned[k].1)
            &&& k > 0 ==> owned[k - 1].0 < owned[k].0
        }),
    decreases end,
{
    if end > 0 {
        let before = owned_up_to(placed, rank, end - 1);
        if k < before.len() {
            owned_blocks_ascend(placed, rank, end - 1, k);
        } else if k > 0 {
            owned_blocks_ascend(placed, rank, end - 1, k - 1);
        }
    }
}

/// The digest of a block is the one that its rank gave for it: the entry of that rank's answer at
/// which the block stands in that rank's request. A sharded block has one from every rank, in rank
/// order; a replicated block has one, from the rank it is placed on.
pub proof fn digests_are_those_given_for_the_block(
    mode: ParallelismMode,
    blocks: Seq<PayloadBlock>,
    placed: Seq<(usize, BlockId)>,
    answers: Seq<Option<Vec<PayloadDigest>>>,
    workers: usize,
    block: int,
    rank: usize,
)
    requires
        0 <= block < blocks.len(),
        blocks.len() <= usize::MAX,
        rank < workers,
        mode is ReplicatedData ==> block < placed.len() && placed[block].0 == rank,
    ensures
        ({
            let request = rank_request(mode, blocks, placed, rank);
            let digests = block_digests(mode, placed, answers, workers, block);
            let at = if mode is TensorParallel {
                rank as int
            } else {
                0
            };
            &&& digests.len() == (if mode is TensorParallel {
                workers as int
            } else {
                1
            })
            &&& digests[at].0 == rank
            &&& exists|k: int|
                0 <= k < request.len() && (#[trigger] request[k]).0 == block && digests[at].1
                    == answers[rank as int]->Some_0@[k]
        }),
{
    let request = rank_request(mode, blocks, placed, rank);
    if mode is TensorParallel {
        assert(request[block].0 == block);
    } else {
        let k = owned_up_to(placed, rank, block).len() as int;
        owned_keeps_its_place(placed, rank, block, placed_blocks(blocks, placed));
        assert(request[k].0 == block);
    }
}

proof fn owned_keeps_its_place(placed: Seq<(usize, BlockId)>, rank: usize, block: int, end: int)
    requires
        0 <= block < end <= placed.len(),
        end <= usize::MAX,
        placed[block].0 == rank,
    ensures
        ({
            let k = owned_up_to(placed, rank, block).len();
            &&& k < owned_up_to(placed, rank, end).len()
            &&& owned_up_to(placed, rank, end)[k as int].0 == block
        }),
    decreases end,
{
    if end > block + 1 {
        owned_keeps_its_place(placed, rank, block, end - 1);
    }
}

/// Every block gets the checksum of itself under the placement of its mode: as many digests as
/// there are workers where it is sharded, one where it is replicated.
pub proof fn checksums_are_made_of_whole_digests(placement: ChecksumPlacement, digests: int)
    requires
        0 <= digests <= usize::MAX,
    ensures
        digest_fault(placement, digests) is None <==> digests > 0 && match placement {
            ChecksumPlacement::ReplicatedOwner => digests == 1,
            ChecksumPlacement::TensorSharded { world_size } => digests == world_size,
        },
        digests == 0 ==> digest_fault(placement, digests) == Some(IntegrityError::NoDigests),
        mode_placement(ParallelismMode::TensorParallel, digests as usize) == (
        ChecksumPlacement::TensorSharded { world_size: digests as usize }),
        mode_placement(ParallelismMode::ReplicatedData, digests as usize)
            == ChecksumPlacement::ReplicatedOwner,
{
}

/// A message is laid out in fixed fields: the format's name, the resource, the block's hash and its
/// order, and then the placement's name with the owner's digest, or with the number of workers and
/// every worker's digest behind its rank.
pub proof fn messages_have_fixed_fields(
    resource: LogicalResourceId,
    block: PayloadBlock,
    placement: ChecksumPlacement,
    digests: Seq<(usize, PayloadDigest)>,
    i: int,
)
    requires
        0 <= i < digests.len(),
        placement is ReplicatedOwner ==> digests.len() == 1,
    ensures
        ({
            let message = checksum_message(resource, block, placement, digests);
            &&& message.subrange(0, 25) == ascii_bytes("kvbm-transfer-payload-v1\0"@)
            &&& message.subrange(25, 27) == le_bytes(resource.0 as nat, 2)
            &&& message.subrange(27, 43) == le_bytes(block.hash.encoded as nat, 16)
            &&& message.subrange(43, 47) == le_bytes(block.ordinal as nat, 4)
            &&& match placement {
                ChecksumPlacement::ReplicatedOwner => {
                    &&& message.len() == 96
                    &&& message.subrange(47, 64) == ascii_bytes("replicated-owner\0"@)
                    &&& message.subrange(64, 96) == digests[0].1@
                },
                ChecksumPlacement::TensorSharded { world_size } => {
                    &&& message.len() == 70 + 40 * digests.len()
                    &&& message.subrange(47, 62) == ascii_bytes("tensor-sharded\0"@)
                    &&& message.subrange(62, 70) == le_bytes(world_size as nat, 8)
                    &&& message.subrange(70 + 40 * i, 78 + 40 * i) == le_bytes(
                        digests[i].0 as nat,
                        8,
                    )
                    &&& message.subrange(78 + 40 * i, 110 + 40 * i) == digests[i].1@
                },
            }
        }),
{
    let message = checksum_message(resource, block, placement, digests);
    let head = message_head(resource, block.hash.encoded, block.ordinal);
    let tail = message_tail(placement, digests);
    reveal_strlit("kvbm-transfer-payload-v1\0");
    reveal_strlit("replicated-owner\0");
    reveal_strlit("tensor-sharded\0");
    head_length(resource, block.hash.encoded, block.ordinal);
    le_bytes_length(resource.0 as nat, 2);
    le_bytes_length(block.hash.encoded as nat, 16);
    le_bytes_length(block.ordinal as nat, 4);
    assert(message.subrange(0, 25) =~= ascii_bytes("kvbm-transfer-payload-v1\0"@));
    assert(message.subrange(25, 27) =~= le_bytes(resource.0 as nat, 2));
    assert(message.subrange(27, 43) =~= le_bytes(block.hash.encoded as nat, 16));
    assert(message.subrange(43, 47) =~= le_bytes(block.ordinal as nat, 4));
    match placement {
        ChecksumPlacement::ReplicatedOwner => {
            assert(message.subrange(47, 64) =~= ascii_bytes("replicated-owner\0"@));
            assert(message.subrange(64, 96) =~= digests[0].1@);
        },
        ChecksumPlacement::TensorSharded { world_size } => {
            let ranked = ranked_bytes(digests);
            le_bytes_length(world_size as nat, 8);
            ranked_fields(digests, i);
            le_bytes_length(digests[i].0 as nat, 8);
            assert(message.subrange(47, 62) =~= ascii_bytes("tensor-sharded\0"@));
            assert(message.subrange(62, 70) =~= le_bytes(world_size as nat, 8));
            assert(message.subrange(70 + 40 * i, 78 + 40 * i) =~= ranked.subrange(
                40 * i,
                40 * i + 8,
            ));
            assert(message.subrange(78 + 40 * i, 110 + 40 * i) =~= ranked.subrange(
                40 * i + 8,
                40 * i + 40,
            ));
        },
    }
}

proof fn ranked_fields(digests: Seq<(usize, PayloadDigest)>, i: int)
    requires
        0 <= i < digests.len(),
    ensures
        ranked_bytes(digests).len() == 40 * digests.len(),
        ranked_bytes(digests).subrange(40 * i, 40 * i + 8) == le_bytes(digests[i].0 as nat, 8),
        ranked_bytes(digests).subrange(40 * i + 8, 40 * i + 40) == digests[i].1@,
    decreases digests.len(),
{
    let n = digests.len() as int;
    let rest = digests.drop_last();
    let all = ranked_bytes(digests);
    let before = ranked_bytes(rest);
    le_bytes_length(digests.last().0 as nat, 8);
    if rest.len() > 0 {
        ranked_fields(
            rest,
            if i < n - 1 {
                i
            } else {
                0
            },
        );
    }
    assert(before.len() == 40 * (n - 1));
    if i < n - 1 {
        assert(all.subrange(40 * i, 40 * i + 8) =~= before.subrange(40 * i, 40 * i + 8));
        assert(all.subrange(40 * i + 8, 40 * i + 40) =~= before.subrange(40 * i + 8, 40 * i + 40));
    } else {
        assert(all.subrange(40 * i, 40 * i + 8) =~= le_bytes(digests[i].0 as nat, 8));
        assert(all.subrange(40 * i + 8, 40 * i + 40) =~= digests[i].1@);
    }
}

/// Checksums are had only if there is a worker, every rank gave as many digests as it was asked for,
/// and every replicated block is placed on one of the workers. Each is then the checksum of its own
/// block.
pub proof fn checksums_come_from_whole_answers(
    resource: LogicalResourceId,
    blocks: Seq<PayloadBlock>,
    mode: ParallelismMode,
    workers: usize,
    placed: Seq<(usize, BlockId)>,
    answers: Seq<Option<Vec<PayloadDigest>>>,
    checksums: Vec<PayloadChecksum>,
    rank: int,
    i: int,
)
    requires
        checksummed(resource, blocks, mode, workers, placed, answers, Ok(checksums)),
        0 <= rank < workers,
        0 <= i < blocks.len(),
    ensures
        checksums@.len() == blocks.len(),
        rank < answers.len(),
        answers[rank] is Some,
        answers[rank]->Some_0@.len() == rank_request(mode, blocks, placed, rank as usize).len(),
        mode is ReplicatedData ==> i < placed.len() && placed[i].0 < workers,
        checksums@[i]@ == blake3_digest(
            checksum_message(
                resource,
                blocks[i],
                if mode is TensorParallel {
                    ChecksumPlacement::TensorSharded { world_size: workers }
                } else {
                    ChecksumPlacement::ReplicatedOwner
                },
                block_digests(mode, placed, answers, workers, i),
            ),
        ),
{
    let placement = mode_placement(mode, workers);
    let checksum = checksums@[i];
    assert(answer_fault(mode, blocks, placed, answers, rank) is None);
    assert(bound_checksum(
        resource,
        blocks[i],
        placement,
        block_digests(mode, placed, answers, workers, i),
        checksum,
    ));
}

/// Where there is a worker, every rank gave as many digests as it was asked for, and every
/// replicated block is placed on one of the workers, the checksums are had.
pub proof fn whole_answers_are_checksummed(
    resource: LogicalResourceId,
    blocks: Seq<PayloadBlock>,
    mode: ParallelismMode,
    workers: usize,
    placed: Seq<(usize, BlockId)>,
    answers: Seq<Option<Vec<PayloadDigest>>>,
    r: Result<Vec<PayloadChecksum>, IntegrityError>,
)
    requires
        checksummed(resource, blocks, mode, workers, placed, answers, r),
        workers > 0,
        workers <= answers.len(),
        forall|rank: int|
            0 <= rank < workers ==> (#[trigger] answers[rank]) is Some
                && answers[rank]->Some_0@.len() == rank_request(
                mode,
                blocks,
                placed,
                rank as usize,
            ).len(),
        mode is ReplicatedData ==> blocks.len() <= placed.len() && forall|i: int|
            0 <= i < placed.len() ==> (#[trigger] placed[i]).0 < workers,
    ensures
        r is Ok,
{
    let placement = mode_placement(mode, workers);
    assert forall|rank: int| 0 <= rank < workers implies #[trigger] answer_fault(
        mode,
        blocks,
        placed,
        answers,
        rank,
    ) is None by {
        assert(answers[rank] is Some);
    }
    assert forall|i: int| 0 <= i < blocks.len() implies digest_fault(
        placement,
        (#[trigger] block_digests(mode, placed, answers, workers, i)).len() as int,
    ) is None by {
        if mode is ReplicatedData {
            assert(placed[i].0 < workers);
        }
    }
}

/// A rank is blamed by its own number: for not answering, or for the number of digests it returned
/// where another was asked for.
pub proof fn ranks_are_blamed_for_their_answers(
    mode: ParallelismMode,
    blocks: Seq<PayloadBlock>,
    placed: Seq<(usize, BlockId)>,
    answers: Seq<Option<Vec<PayloadDigest>>>,
    rank: int,
)
    requires
        0 <= rank <= usize::MAX,
    ensures
        ({
            let fault = answer_fault(mode, blocks, placed, answers, rank);
            let requested = rank_request(mode, blocks, placed, rank as usize).len();
            &&& rank >= answers.len() || answers[rank] is None ==> fault == Some(
                IntegrityError::WorkerFailed { rank: rank as usize },
            )
            &&& rank < answers.len() && answers[rank] is Some ==> {
                let returned = answers[rank]->Some_0@.len();
                &&& returned == requested ==> fault is None
                &&& returned != requested ==> fault == Some(
                    IntegrityError::WorkerDigestCount {
                        rank: rank as usize,
                        returned: returned as usize,
                        requested: requested as usize,
                    },
                )
            }
        }),
{
}

} // verus!
