//! Loading bundles back into the upper tier: planning, and the fold of what came of it.

pub mod fold;
pub mod plan;
