//! Atomic ownership of cache bundles.

pub mod admission;
pub mod barrier;
pub mod capsule;
pub mod catalog;
pub mod find;
pub mod index;
pub mod offload;
pub mod onboard;
pub mod searches;
