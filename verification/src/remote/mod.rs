//! Finding, pulling and publishing bundles across instances.

pub mod cost;
pub mod deadline;
pub mod find;
pub mod metrics;
pub mod order;
pub mod placement;
pub mod prefill;
pub mod publication;
pub mod pull;
pub mod search;
