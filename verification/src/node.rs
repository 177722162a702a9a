//! Orchestration-level wire formats and node decisions.
pub mod handler;
pub mod packet;
pub mod padding;
pub mod rate;
pub mod lease;
pub mod lookup;
pub mod error;
