//! Configuration and policy plane of a programmable API gateway.
//!
//! The control plane validates policy and route specifications, merges
//! per-route parameters into policy defaults, and assembles numbered,
//! self-contained configuration snapshots. The data plane side turns wire
//! snapshots into a runtime view, matches requests to routes, composes
//! policy decisions, and plans the outgoing upstream request.

pub mod addheader;
pub mod artifact;
pub mod config_cp;
pub mod config_dp;
pub mod engine;
pub mod errors;
pub mod json;
pub mod json_text;
pub mod merge;
pub mod model;
pub mod policy;
pub mod proxy;
pub mod router;
pub mod runtime;
pub mod snapshot;
pub mod strutil;
pub mod validation;
pub mod wire;

pub use json::Json;
