//! Copies and comparisons of plain lists.

use crate::ids::{BlockId, BundleKey, SequenceHash};
use crate::manifest::{lineage_views, BundleResourceLineage};
use vstd::prelude::*;

verus! {

/// Copies a list of hashes.
pub fn copy_hashes(hashes: &[SequenceHash]) -> (r: Vec<SequenceHash>)
    ensures
        r@ == hashes@,
{
    let mut copy: Vec<SequenceHash> = Vec::new();
    let mut at: usize = 0;
    while at < hashes.len()
        invariant
            at <= hashes@.len(),
            copy@ == hashes@.subrange(0, at as int),
        decreases hashes@.len() - at,
    {
        copy.push(hashes[at]);
        at = at + 1;
        assert(copy@ =~= hashes@.subrange(0, at as int));
    }
    assert(copy@ =~= hashes@);
    copy
}

/// Whether two lists of hashes are equal.
pub fn same_hashes(a: &[SequenceHash], b: &[SequenceHash]) -> (r: bool)
    ensures
        r == (a@ == b@),
{
    if a.len() != b.len() {
        return false;
    }
    let mut at: usize = 0;
    while at < a.len()
        invariant
            at <= a@.len(),
            a@.len() == b@.len(),
            forall|i: int| 0 <= i < at ==> a@[i] == b@[i],
        decreases a@.len() - at,
    {
        if a[at] != b[at] {
            return false;
        }
        at = at + 1;
    }
    assert(a@ =~= b@);
    true
}

/// Whether a list of keys holds a key.
pub fn contains_key(keys: &[BundleKey], key: &BundleKey) -> (r: bool)
    ensures
        r == keys@.contains(*key),
{
    let mut at: usize = 0;
    while at < keys.len()
        invariant
            at <= keys@.len(),
            forall|i: int| 0 <= i < at ==> keys@[i] != *key,
        decreases keys@.len() - at,
    {
        if keys[at] == *key {
            assert(keys@[at as int] == *key);
            return true;
        }
        at = at + 1;
    }
    false
}

/// Copies a list of blocks.
pub fn copy_block_ids(blocks: &[BlockId]) -> (r: Vec<BlockId>)
    ensures
        r@ == blocks@,
{
    let mut copy: Vec<BlockId> = Vec::new();
    let mut at: usize = 0;
    while at < blocks.len()
        invariant
            at <= blocks@.len(),
            copy@ == blocks@.subrange(0, at as int),
        decreases blocks@.len() - at,
    {
        copy.push(blocks[at]);
        at = at + 1;
        assert(copy@ =~= blocks@.subrange(0, at as int));
    }
    assert(copy@ =~= blocks@);
    copy
}

/// Copies a list of lineages.
pub fn copy_lineages(lineages: &[BundleResourceLineage]) -> (r: Vec<BundleResourceLineage>)
    ensures
        lineage_views(r@) == lineage_views(lineages@),
{
    let mut copy: Vec<BundleResourceLineage> = Vec::new();
    let mut at: usize = 0;
    while at < lineages.len()
        invariant
            at <= lineages@.len(),
            copy@.len() == at,
            forall|i: int| 0 <= i < at ==> (#[trigger] copy@[i])@ == lineages@[i]@,
        decreases lineages@.len() - at,
    {
        copy.push(
            BundleResourceLineage {
                resource: lineages[at].resource,
                hashes: copy_hashes(lineages[at].hashes.as_slice()),
            },
        );
        at = at + 1;
    }
    assert(lineage_views(copy@) =~= lineage_views(lineages@));
    copy
}

} // verus!
