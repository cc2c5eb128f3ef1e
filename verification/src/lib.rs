//! Benchmark harness core: metrics parsing, peak-memory sampling,
//! per-target run lifecycle, and report aggregation.

pub mod members;
pub mod metrics;
pub mod orchestrator;
pub mod report;
pub mod runner;
pub mod sampler;
