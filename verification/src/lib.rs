//! A declarative HTTP load generator: endpoint specifications with
//! template/resource expressions are resolved into concrete requests, which a
//! worker pool then issues against a shared request budget while latency
//! statistics are aggregated.
//!
//! This crate holds the verified core: the configuration model and its merge
//! rules, the template and resource evaluator with its caches, the canonical
//! request value, the work-budget and worker decisions, and the statistics.
//! The asynchronous shell (argument parsing, file and network I/O) lives
//! outside and calls into this crate with plain values.

pub mod config;
pub mod cookie;
pub mod error;
pub mod eval;
pub mod json;
pub mod format;
pub mod engine;
pub mod progress;
pub mod request;
pub mod stats;
pub mod text;

use vstd::prelude::*;

verus! {

/// Command-line surface: the global worker ceiling and the configuration file
/// path.
pub struct Args {
    /// How many concurrent tasks may hammer one endpoint.
    pub tasks: u64,
    /// Path of the configuration file.
    pub config: String,
}

} // verus!

