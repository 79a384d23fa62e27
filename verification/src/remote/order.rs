//! Which directory changes wait for one another.

use crate::bytes::{bytes_range, le_bytes, le_bytes_are_injective, le_bytes_length, push_le};
use crate::ids::BundleKey;
use std::hash::{DefaultHasher, Hasher};
use vstd::prelude::*;
use vstd::std_specs::hash::DefaultHasherAdditionalSpecFns;

verus! {

/// The number of locks that directory changes are spread over.
pub const ORDER_STRIPES: usize = 64;

/// The bytes by which a key is spread.
pub open spec fn key_bytes(key: BundleKey) -> Seq<u8> {
    le_bytes(key.manifest.high as nat, 16) + le_bytes(key.manifest.low as nat, 16) + le_bytes(
        key.boundary_hash.encoded as nat,
        16,
    ) + le_bytes(key.boundary_hash.position as nat, 8) + le_bytes(key.boundary_tokens as nat, 8)
}

/// The lock that a key's changes go through.
pub open spec fn stripe_of(key: BundleKey) -> int {
    DefaultHasher::spec_finish(seq![key_bytes(key)]) as int % 64
}

/// The lock that a key's changes go through: always the same one for the same key.
pub fn stripe(key: &BundleKey) -> (r: usize)
    ensures
        r == stripe_of(*key),
        r < ORDER_STRIPES,
{
    let mut bytes: Vec<u8> = Vec::new();
    push_le(&mut bytes, key.manifest.high, 16);
    push_le(&mut bytes, key.manifest.low, 16);
    push_le(&mut bytes, key.boundary_hash.encoded, 16);
    push_le(&mut bytes, key.boundary_hash.position as u128, 8);
    push_le(&mut bytes, key.boundary_tokens as u128, 8);
    assert(bytes@ =~= key_bytes(*key));
    let mut hasher = DefaultHasher::new();
    hasher.write(bytes.as_slice());
    assert(hasher@ =~= seq![key_bytes(*key)]);
    let stripe: u64 = hasher.finish() % 64;
    stripe as usize
}

/// Every part of a key counts towards its lock: keys that are spread by the same bytes are equal.
pub proof fn every_part_of_a_key_counts(a: BundleKey, b: BundleKey)
    requires
        key_bytes(a) == key_bytes(b),
    ensures
        a == b,
{
    let (x, y) = (key_bytes(a), key_bytes(b));
    le_bytes_length(a.manifest.high as nat, 16);
    le_bytes_length(a.manifest.low as nat, 16);
    le_bytes_length(a.boundary_hash.encoded as nat, 16);
    le_bytes_length(a.boundary_hash.position as nat, 8);
    le_bytes_length(a.boundary_tokens as nat, 8);
    le_bytes_length(b.manifest.high as nat, 16);
    le_bytes_length(b.manifest.low as nat, 16);
    le_bytes_length(b.boundary_hash.encoded as nat, 16);
    le_bytes_length(b.boundary_hash.position as nat, 8);
    le_bytes_length(b.boundary_tokens as nat, 8);
    reveal_with_fuel(bytes_range, 17);
    assert(le_bytes(a.manifest.high as nat, 16) =~= x.subrange(0, 16));
    assert(le_bytes(b.manifest.high as nat, 16) =~= y.subrange(0, 16));
    le_bytes_are_injective(a.manifest.high as nat, b.manifest.high as nat, 16);
    assert(le_bytes(a.manifest.low as nat, 16) =~= x.subrange(16, 32));
    assert(le_bytes(b.manifest.low as nat, 16) =~= y.subrange(16, 32));
    le_bytes_are_injective(a.manifest.low as nat, b.manifest.low as nat, 16);
    assert(le_bytes(a.boundary_hash.encoded as nat, 16) =~= x.subrange(32, 48));
    assert(le_bytes(b.boundary_hash.encoded as nat, 16) =~= y.subrange(32, 48));
    le_bytes_are_injective(a.boundary_hash.encoded as nat, b.boundary_hash.encoded as nat, 16);
    assert(le_bytes(a.boundary_hash.position as nat, 8) =~= x.subrange(48, 56));
    assert(le_bytes(b.boundary_hash.position as nat, 8) =~= y.subrange(48, 56));
    le_bytes_are_injective(a.boundary_hash.position as nat, b.boundary_hash.position as nat, 8);
    assert(le_bytes(a.boundary_tokens as nat, 8) =~= x.subrange(56, 64));
    assert(le_bytes(b.boundary_tokens as nat, 8) =~= y.subrange(56, 64));
    le_bytes_are_injective(a.boundary_tokens as nat, b.boundary_tokens as nat, 8);
}

} // verus!
