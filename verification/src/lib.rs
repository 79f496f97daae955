//! Client-side coordination logic for durable, time-varying collections ("shards").
//!
//! A shard is a log of `(key, value, timestamp, diff)` updates whose authoritative
//! state is a small record evolved by compare-and-swap. This crate holds the pure
//! part of that protocol: identifiers, frontiers, the shard state and its
//! transitions, the handles that cache frontiers and leases, and the status
//! machine of a sink's health reporter. Every function carries a contract.

pub mod batch;
pub mod cfg;
pub mod client;
pub mod compact;
pub mod critical;
pub mod error;
pub mod fetch;
pub mod frontier;
pub mod gc;
pub mod healthcheck;
pub mod ids;
pub mod invariants;
pub mod machine;
pub mod model;
pub mod paths;
pub mod read;
pub mod registry;
pub mod state;
pub mod state_versions;
pub mod status;
pub mod write;
