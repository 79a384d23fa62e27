//! What the connector between a scheduler and the engine decides.

pub mod directory;
pub mod layout;
pub mod policy;
pub mod resources;
pub mod slot;
pub mod topology;
pub mod worker;
