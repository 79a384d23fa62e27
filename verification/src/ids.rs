//! The identifiers that caches, bundles and sessions are named by.

use crate::ordered::MapKey;
use vstd::laws_cmp::obeys_cmp;
use vstd::prelude::*;
use vstd::std_specs::cmp::OrdSpec;

verus! {

/// A block's place in one tier of one resource.
pub type BlockId = usize;

/// One kind of cached state that a model keeps, such as a class of attention history.
#[derive(Clone, Copy, Debug, PartialEq, Eq, Hash, Structural)]
pub struct LogicalResourceId(pub u16);

/// The hash of a token prefix: its full encoding, and the index of its last block in the prefix.
#[derive(Clone, Copy, Debug, PartialEq, Eq, Hash, Structural)]
pub struct SequenceHash {
    pub encoded: u128,
    pub position: u64,
}

/// A 32-byte manifest digest, read as two big-endian words.
#[derive(Clone, Copy, Debug, PartialEq, Eq, Hash, Structural)]
pub struct CacheManifestId {
    pub high: u128,
    pub low: u128,
}

/// One bundle: a manifest, and the token boundary that all of its resources end at.
#[derive(Clone, Copy, Debug, PartialEq, Eq, Hash, Structural)]
pub struct BundleKey {
    pub manifest: CacheManifestId,
    pub boundary_hash: SequenceHash,
    pub boundary_tokens: u64,
}

/// A process that holds or pulls bundles.
#[derive(Clone, Copy, Debug, PartialEq, Eq, Hash, Structural)]
pub struct InstanceId(pub u128);

/// One registration of an instance with the directory.
#[derive(Clone, Copy, Debug, PartialEq, Eq, Hash, Structural)]
pub struct RegistrationEpoch(pub u128);

/// A transfer session between two instances.
#[derive(Clone, Copy, Debug, PartialEq, Eq, Hash, Structural)]
pub struct SessionId(pub u128);

/// One find that a scheduler polls.
#[derive(Clone, Copy, Debug, PartialEq, Eq, Hash, Structural)]
pub struct SearchId(pub u128);

impl SequenceHash {
    pub fn new(encoded: u128, position: u64) -> (r: Self)
        ensures
            r.encoded == encoded,
            r.position == position,
    {
        SequenceHash { encoded, position }
    }

    pub fn as_u128(&self) -> (r: u128)
        ensures
            r == self.encoded,
    {
        self.encoded
    }
}

impl MapKey for LogicalResourceId {
    type Raw = u16;

    open spec fn raw_spec(self) -> u16 {
        self.0
    }

    open spec fn from_raw_spec(raw: u16) -> Self {
        LogicalResourceId(raw)
    }

    open spec fn before(self, other: Self) -> bool {
        self.0 < other.0
    }

    proof fn raw_is_an_ordered_copy(a: Self, b: Self, c: Self) {
    }

    proof fn every_raw_is_a_copy(raw: u16) {
    }

    fn raw(&self) -> (r: u16) {
        self.0
    }

    fn from_raw(raw: &u16) -> (r: Self) {
        LogicalResourceId(*raw)
    }
}

impl MapKey for SearchId {
    type Raw = u128;

    open spec fn raw_spec(self) -> u128 {
        self.0
    }

    open spec fn from_raw_spec(raw: u128) -> Self {
        SearchId(raw)
    }

    open spec fn before(self, other: Self) -> bool {
        self.0 < other.0
    }

    proof fn raw_is_an_ordered_copy(a: Self, b: Self, c: Self) {
    }

    proof fn every_raw_is_a_copy(raw: u128) {
    }

    fn raw(&self) -> (r: u128) {
        self.0
    }

    fn from_raw(raw: &u128) -> (r: Self) {
        SearchId(*raw)
    }
}

impl MapKey for SequenceHash {
    type Raw = (u128, u64);

    open spec fn raw_spec(self) -> (u128, u64) {
        (self.encoded, self.position)
    }

    open spec fn from_raw_spec(raw: (u128, u64)) -> Self {
        SequenceHash { encoded: raw.0, position: raw.1 }
    }

    open spec fn before(self, other: Self) -> bool {
        self.encoded < other.encoded || self.encoded == other.encoded && self.position
            < other.position
    }

    proof fn raw_is_an_ordered_copy(a: Self, b: Self, c: Self) {
    }

    proof fn every_raw_is_a_copy(raw: (u128, u64)) {
    }

    fn raw(&self) -> (r: (u128, u64)) {
        (self.encoded, self.position)
    }

    fn from_raw(raw: &(u128, u64)) -> (r: Self) {
        SequenceHash { encoded: raw.0, position: raw.1 }
    }
}

/// One block of one resource.
#[derive(Clone, Copy, Debug, PartialEq, Eq, Hash, Structural)]
pub struct ResourceBlock {
    pub resource: LogicalResourceId,
    pub hash: SequenceHash,
}

impl MapKey for ResourceBlock {
    type Raw = (u16, (u128, u64));

    open spec fn raw_spec(self) -> (u16, (u128, u64)) {
        (self.resource.0, self.hash.raw_spec())
    }

    open spec fn from_raw_spec(raw: (u16, (u128, u64))) -> Self {
        ResourceBlock {
            resource: LogicalResourceId(raw.0),
            hash: SequenceHash::from_raw_spec(raw.1),
        }
    }

    open spec fn before(self, other: Self) -> bool {
        self.resource.0 < other.resource.0 || self.resource == other.resource && self.hash.before(
            other.hash,
        )
    }

    proof fn raw_is_an_ordered_copy(a: Self, b: Self, c: Self) {
        SequenceHash::raw_is_an_ordered_copy(a.hash, b.hash, c.hash);
    }

    proof fn every_raw_is_a_copy(raw: (u16, (u128, u64))) {
    }

    fn raw(&self) -> (r: (u16, (u128, u64))) {
        (self.resource.0, self.hash.raw())
    }

    fn from_raw(raw: &(u16, (u128, u64))) -> (r: Self) {
        ResourceBlock { resource: LogicalResourceId(raw.0), hash: SequenceHash::from_raw(&raw.1) }
    }
}

impl MapKey for BundleKey {
    type Raw = ((u128, u128), (u64, (u128, u64)));

    open spec fn raw_spec(self) -> ((u128, u128), (u64, (u128, u64))) {
        (
            (self.manifest.high, self.manifest.low),
            (self.boundary_tokens, self.boundary_hash.raw_spec()),
        )
    }

    open spec fn from_raw_spec(raw: ((u128, u128), (u64, (u128, u64)))) -> Self {
        BundleKey {
            manifest: CacheManifestId { high: raw.0.0, low: raw.0.1 },
            boundary_hash: SequenceHash::from_raw_spec(raw.1.1),
            boundary_tokens: raw.1.0,
        }
    }

    /// By manifest, then by boundary, then by boundary hash.
    open spec fn before(self, other: Self) -> bool {
        let (a, b) = (self.manifest, other.manifest);
        ||| a.high < b.high
        ||| a.high == b.high && a.low < b.low
        ||| a == b && self.boundary_tokens < other.boundary_tokens
        ||| a == b && self.boundary_tokens == other.boundary_tokens && self.boundary_hash.before(
            other.boundary_hash,
        )
    }

    proof fn raw_is_an_ordered_copy(a: Self, b: Self, c: Self) {
        SequenceHash::raw_is_an_ordered_copy(a.boundary_hash, b.boundary_hash, c.boundary_hash);
        assert(obeys_cmp::<(u128, u128)>());
        assert(obeys_cmp::<(u64, (u128, u64))>());
    }

    proof fn every_raw_is_a_copy(raw: ((u128, u128), (u64, (u128, u64)))) {
    }

    fn raw(&self) -> (r: ((u128, u128), (u64, (u128, u64)))) {
        (
            (self.manifest.high, self.manifest.low),
            (self.boundary_tokens, self.boundary_hash.raw()),
        )
    }

    fn from_raw(raw: &((u128, u128), (u64, (u128, u64)))) -> (r: Self) {
        BundleKey {
            manifest: CacheManifestId { high: raw.0.0, low: raw.0.1 },
            boundary_hash: SequenceHash::from_raw(&raw.1.1),
            boundary_tokens: raw.1.0,
        }
    }
}

/// Within one manifest bundles are ordered by their boundary, and no two bundles are before each
/// other.
pub proof fn bundles_are_ordered_by_boundary(a: BundleKey, b: BundleKey)
    ensures
        a.manifest == b.manifest && a.boundary_tokens < b.boundary_tokens ==> a.before(b),
        a.manifest == b.manifest && a.before(b) ==> a.boundary_tokens <= b.boundary_tokens,
        a.before(b) ==> !b.before(a),
{
}

} // verus!
