//! The configuration stream's wire model: what the control plane
//! publishes and a data plane instance consumes.

use vstd::prelude::*;

verus! {

/// One immutable, numbered configuration snapshot.
#[derive(Debug)]
pub struct Snapshot {
    pub version: u64,
    pub routes: Vec<Route>,
    pub policy_artifacts: Vec<PolicyArtifact>,
}

/// A route as published: matcher fields, upstreams, and bindings with
/// their pre-merged configuration.
#[derive(Debug)]
pub struct Route {
    pub id: String,
    pub route_match: Option<Match>,
    pub upstreams: Vec<Upstream>,
    pub lb: String,
    pub policies: Vec<PolicyBinding>,
}

/// Matcher fields; empty strings and lists mean no constraint.
#[derive(Debug)]
pub struct Match {
    pub path_prefix: String,
    pub methods: Vec<String>,
    pub host: String,
}

/// An upstream as published; zero stands for an absent weight or
/// priority.
#[derive(Debug)]
pub struct Upstream {
    pub url: String,
    pub weight: u32,
    pub priority: u32,
}

/// A binding as published, with the effective configuration serialized.
#[derive(Debug)]
pub struct PolicyBinding {
    pub stage: String,
    pub id: String,
    pub version: String,
    pub effective_config_json: String,
}

/// A policy artifact as published: identity, fetch location, digest.
#[derive(Debug)]
pub struct PolicyArtifact {
    pub id: String,
    pub version: String,
    pub wasm_uri: String,
    pub sha256: String,
}

} // verus!
