//! Detection of profitable conversion cycles in a live rate graph.
//!
//! The library does all of its arithmetic on integers. A conversion rate is
//! carried as the bit pattern of an IEEE-754 binary64 number together with
//! its negated natural logarithm in fixed point; path costs are exact sums
//! of those logarithms, so the search for a profitable cycle is decided
//! without rounding.

pub mod binary64;
pub mod rate;
pub mod csr_graph;
pub mod walks;
pub mod relaxation;
pub mod cycle_finder;
pub mod dataset;
pub mod edge_layouts;
pub mod error;
pub mod log_kernel;
pub mod pipeline;
