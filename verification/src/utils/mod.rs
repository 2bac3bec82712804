//! Scheduling, causal-discovery and ethics utilities.
pub mod ethics;
pub mod ga;
pub mod pc_algorithm;
pub mod scheduler;
pub(crate) mod text;
