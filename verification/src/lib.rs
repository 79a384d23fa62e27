//! Atomic multi-resource cache bundles: the decisions behind admission, publication, lookup,
//! transfer and eviction of cached model state that only has meaning as a complete set.

pub mod bundle;
pub mod bytes;
pub mod connector;
pub mod faults;
pub mod ids;
pub mod leader;
pub mod lists;
pub mod manifest;
pub mod message;
pub mod offload;
pub mod onboard;
pub mod ordered;
pub mod p2p;
pub mod policy;
pub mod positive;
pub mod remote;
pub mod time;
