//! Saving blocks to a lower tier: validation, routing, and the fold of what came of it.

pub mod completion;
pub mod drain;
pub mod plan;
pub mod route;
pub mod status;
