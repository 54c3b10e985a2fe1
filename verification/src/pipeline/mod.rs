//! The update pipeline: a producer of rate updates, a writer that applies
//! them in batches, and a searcher that looks for a profitable cycle.
//!
//! This module holds what the three stages decide and compute. Channels,
//! timers and the lock around the shared graph belong to whoever runs them.

pub mod config;
pub mod prepare;
pub mod producer;
pub mod searcher;
pub mod stats;
pub mod types;
pub mod writer;

pub use config::PipelineConfig;
pub use stats::PipelineStats;
