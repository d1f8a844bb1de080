//! Verified core of a command-driven HTTP load generator.
//!
//! The library holds the request-dispatch and pacing engine: body
//! classification and template rendering, target selection over a pool of
//! request descriptors, user-id scheduling for the run modes, URL
//! validation, and aggregation of per-request outcomes into summary
//! statistics. Network I/O and the command-line surface live outside the
//! library and hand it plain values.

pub mod body;
pub mod config;
pub mod request;
pub mod plan;
pub mod select;
pub mod validate;
pub mod stats;
pub mod text;
