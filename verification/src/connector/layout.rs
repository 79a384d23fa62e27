//! The physical layouts that workers register.

use crate::ids::{CacheManifestId, LogicalResourceId};
use crate::ordered::{ascending_sequences_with_equal_keys_are_equal, KeyMap};
use vstd::prelude::*;

verus! {

/// The shape of one resource's blocks on a device.
#[derive(Clone, Copy, Debug, PartialEq, Eq, Structural)]
pub struct LayoutConfig {
    pub num_blocks: usize,
    pub num_layers: usize,
    /// Tokens in one block.
    pub page_size: usize,
    /// The heads that the blocks are split by, where they are.
    pub num_heads: Option<usize>,
    pub bytes_per_block: usize,
    /// The bytes of all blocks.
    pub required_bytes: usize,
}

/// Everything that one worker registers.
#[derive(Debug, PartialEq)]
pub struct WorkerCacheConfig {
    pub manifest: Option<CacheManifestId>,
    pub primary: LogicalResourceId,
    pub resources: KeyMap<LogicalResourceId, LayoutConfig>,
}

/// The mathematical content of a [`WorkerCacheConfig`].
pub struct WorkerView {
    pub manifest: Option<CacheManifestId>,
    pub primary: LogicalResourceId,
    pub resources: Map<LogicalResourceId, LayoutConfig>,
}

impl View for WorkerCacheConfig {
    type V = WorkerView;

    open spec fn view(&self) -> WorkerView {
        WorkerView {
            manifest: self.manifest,
            primary: self.primary,
            resources: self.resources@,
        }
    }
}

impl WorkerView {
    /// The primary resource is registered.
    pub open spec fn valid(self) -> bool {
        self.resources.contains_key(self.primary)
    }
}

/// The primary resource of a worker is not registered.
#[derive(Clone, Copy, Debug, PartialEq, Eq, Structural)]
pub struct UnregisteredPrimary {
    pub primary: LogicalResourceId,
}

impl WorkerCacheConfig {
    pub fn validate(&self) -> (r: Result<(), UnregisteredPrimary>)
        ensures
            r is Ok <==> self@.valid(),
            r is Err ==> r->Err_0 == (UnregisteredPrimary { primary: self@.primary }),
    {
        if self.resources.contains_key(&self.primary) {
            Ok(())
        } else {
            Err(UnregisteredPrimary { primary: self.primary })
        }
    }

    /// Whether two workers registered the same.
    pub fn same_as(&self, other: &WorkerCacheConfig) -> (r: bool)
        ensures
            r == (self@ == other@),
    {
        if self.manifest != other.manifest || self.primary != other.primary {
            return false;
        }
        let mine = self.resources.keys();
        let theirs = other.resources.keys();
        if mine.len() != theirs.len() {
            proof {
                if self@ == other@ {
                    ascending_sequences_with_equal_keys_are_equal(mine@, theirs@);
                }
            }
            return false;
        }
        let mut at: usize = 0;
        while at < mine.len()
            invariant
                at <= mine@.len(),
                mine@.len() == theirs@.len(),
                crate::ordered::ascending(mine@),
                crate::ordered::ascending(theirs@),
                mine@.to_set() == self.resources@.dom(),
                theirs@.to_set() == other.resources@.dom(),
                forall|i: int|
                    0 <= i < at ==> #[trigger] mine@[i] == theirs@[i] && self.resources@[mine@[i]]
                        == other.resources@[mine@[i]],
            decreases mine@.len() - at,
        {
            assert(mine@.to_set().contains(mine@[at as int]));
            assert(theirs@.to_set().contains(theirs@[at as int]));
            if mine[at] != theirs[at] {
                proof {
                    if self@ == other@ {
                        ascending_sequences_with_equal_keys_are_equal(mine@, theirs@);
                    }
                }
                return false;
            }
            let a = *self.resources.get(&mine[at]).unwrap();
            let b = *other.resources.get(&theirs[at]).unwrap();
            if a != b {
                return false;
            }
            at = at + 1;
        }
        proof {
            assert(mine@ =~= theirs@);
            assert forall|k: LogicalResourceId| #[trigger]
                self.resources@.contains_key(k) implies self.resources@[k]
                == other.resources@[k] by {
                assert(mine@.to_set().contains(k));
                let i = choose|i: int| 0 <= i < mine@.len() && mine@[i] == k;
                assert(mine@[i] == theirs@[i]);
            }
            assert(self.resources@ =~= other.resources@);
        }
        true
    }
}

/// How many blocks of one resource the lower tiers hold.
#[derive(Clone, Copy, Debug, PartialEq, Eq, Structural)]
pub struct ResourceTierConfig {
    pub host_block_count: usize,
    pub disk_block_count: Option<usize>,
}

} // verus!
