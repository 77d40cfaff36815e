//! Aggregation of ranked search results from several backends: relevance
//! scoring, deterministic ordering, near-duplicate removal, per-engine
//! admission control and the decisions of the cache-first search cycle.

pub mod text;
pub mod bindings;
pub mod result;
pub mod scoring;
pub mod ranking;
pub mod rate_limiter;
pub mod cache_key;
pub mod error;
pub mod orchestrator;
pub mod metrics;
pub mod engines;
pub mod autocomplete;
