//! Retention policy, and what evicting one block costs.

pub mod components;
pub mod dependency;
pub mod resource;
pub mod score;
