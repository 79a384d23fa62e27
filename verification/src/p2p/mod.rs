//! Peer-to-peer transfer of blocks between instances.

pub mod attached;
pub mod integrity;
pub mod session;
pub mod staging;
