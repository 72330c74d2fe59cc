//! Verified core of a price-monitoring service.
//!
//! The library models the orchestrator of a recurring price check: a durable
//! product store with an append-only price history, a sweep that reconciles
//! fetch results into the store under exact contracts, a scheduler state
//! machine that keeps at most one sweep in flight, and a gate that bounds how
//! many fetches run at once. Network, persistence and timer plumbing live
//! outside the library and hand it plain values.

pub mod cli;
pub mod fetch;
pub mod store;
pub mod sweep;
pub mod scheduler;
