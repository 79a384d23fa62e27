//! What a leader decides on behalf of its workers.

pub mod aggregation;
pub mod dispatch;
pub mod publication;
