//! The control plane's declared state: policy and route specifications as
//! operators submit them.

use vstd::prelude::*;

use crate::json::Json;

verus! {

/// A policy declaration, unique by `(id, version)`.
#[derive(Debug)]
pub struct PolicySpec {
    pub id: String,
    pub version: String,
    pub wasm_uri: String,
    pub sha256: String,
    pub supported_stages: Vec<String>,
    pub config_schema: Json,
    pub default_config: Json,
}

/// A route declaration, unique by `id`.
#[derive(Debug)]
pub struct RouteSpec {
    pub id: String,
    pub match_rules: Json,
    pub upstreams: Vec<Upstream>,
    pub lb: Option<String>,
    pub failover: Option<Failover>,
    pub policies: Vec<RoutePolicy>,
}

/// A declared upstream of a route.
#[derive(Debug)]
pub struct Upstream {
    pub url: String,
    pub weight: Option<u32>,
    pub priority: Option<u32>,
    pub tls: Option<TlsOverride>,
    pub health_check: Option<HealthCheck>,
    pub outlier_detection: Option<OutlierDetection>,
}

/// TLS settings overriding the defaults for one upstream.
#[derive(Debug)]
pub struct TlsOverride {
    pub server_name: Option<String>,
    pub ca_cert_path: Option<String>,
    pub insecure_skip_verify: Option<bool>,
}

/// Active health checking settings for one upstream.
#[derive(Debug)]
pub struct HealthCheck {
    pub path: String,
    pub interval_ms: u64,
    pub timeout_ms: u64,
    pub unhealthy_threshold: u32,
    pub healthy_threshold: u32,
}

/// Passive outlier detection settings for one upstream.
#[derive(Debug)]
pub struct OutlierDetection {
    pub consecutive_5xx: u32,
    pub eject_ms: u64,
}

/// Failover behaviour of a route.
#[derive(Debug)]
pub struct Failover {
    pub enabled: bool,
    pub max_failovers: Option<u32>,
    pub retry_on: Option<Vec<String>>,
    pub per_try_timeout_ms: Option<u64>,
}

/// A route's binding of a policy version to a stage, with optional
/// route-level parameters.
#[derive(Debug)]
pub struct RoutePolicy {
    pub stage: String,
    pub id: String,
    pub version: String,
    pub params: Option<Json>,
}

/// The schema a policy carries when its declaration names none: any
/// object is accepted.
pub fn default_config_schema() -> (r: Json)
    ensures
        r@ == crate::json::JsonV::Obj(seq![("type"@, crate::json::JsonV::Str(
            "object"@))]),
{
    let mut entries: Vec<(String, Json)> = Vec::new();
    entries.push(("type".to_owned(), Json::Str("object".to_owned())));
    let r = Json::Obj(entries);
    proof {
        crate::json::lemma_jview_entries(r->Obj_0@);
        assert(r@ == crate::json::JsonV::Obj(crate::json::jview_entries(r->Obj_0@)));
        assert(crate::json::jview_entries(r->Obj_0@) =~= seq![("type"@,
            crate::json::JsonV::Str("object"@))]);
    }
    r
}

/// The configuration a policy carries when its declaration names none:
/// the empty object.
pub fn default_policy_config() -> (r: Json)
    ensures
        r@ == crate::json::JsonV::Obj(Seq::empty()),
{
    let entries: Vec<(String, Json)> = Vec::new();
    let r = Json::Obj(entries);
    proof {
        assert(crate::json::jview_entries(r->Obj_0@)
            =~= Seq::<(Seq<char>, crate::json::JsonV)>::empty());
    }
    r
}

/// The stages a policy supports when its declaration names none.
pub fn default_supported_stages() -> (r: Vec<String>)
    ensures
        r.deep_view() == seq!["pre_route"@, "pre_upstream"@, "post_response"@],
{
    let mut out: Vec<String> = Vec::new();
    out.push("pre_route".to_owned());
    out.push("pre_upstream".to_owned());
    out.push("post_response".to_owned());
    proof {
        assert(out.deep_view() =~= seq!["pre_route"@, "pre_upstream"@,
            "post_response"@]);
    }
    out
}

} // verus!
