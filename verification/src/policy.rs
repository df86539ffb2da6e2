//! Policy runtime types: stages, keys, bindings, request views, decisions,
//! and the policy host's error taxonomy.

use vstd::prelude::*;
use vstd::string::StringExecFns;

use crate::json::Json;
use crate::strutil::str_eq;

verus! {

/// A point in the request lifecycle at which a policy can run.
#[derive(Clone, Copy, Debug, PartialEq, Eq, Structural)]
pub enum PolicyStage {
    PreRoute,
    PreUpstream,
    PostResponse,
}

/// The wire name of a stage.
pub open spec fn stage_name(s: PolicyStage) -> Seq<char> {
    match s {
        PolicyStage::PreRoute => "pre_route"@,
        PolicyStage::PreUpstream => "pre_upstream"@,
        PolicyStage::PostResponse => "post_response"@,
    }
}

impl PolicyStage {
    /// The wire name of this stage.
    pub fn as_str(&self) -> (r: &'static str)
        ensures
            r@ == stage_name(*self),
    {
        match self {
            PolicyStage::PreRoute => "pre_route",
            PolicyStage::PreUpstream => "pre_upstream",
            PolicyStage::PostResponse => "post_response",
        }
    }

    /// The stage named by `value`; exactly the three wire names are
    /// accepted, and anything else is reported back.
    pub fn parse(value: &str) -> (r: Result<PolicyStage, String>)
        ensures
            r is Ok <==> (value@ == "pre_route"@ || value@ == "pre_upstream"@
                || value@ == "post_response"@),
            r matches Ok(s) ==> stage_name(s) == value@,
            r matches Err(e) ==> e@ == "unsupported stage "@ + value@,
    {
        if str_eq(value, "pre_route") {
            Ok(PolicyStage::PreRoute)
        } else if str_eq(value, "pre_upstream") {
            Ok(PolicyStage::PreUpstream)
        } else if str_eq(value, "post_response") {
            Ok(PolicyStage::PostResponse)
        } else {
            let mut msg = "unsupported stage ".to_owned();
            msg.append(value);
            Err(msg)
        }
    }
}

/// A policy identity: name and version.
#[derive(Clone, Debug, Hash)]
pub struct PolicyKey {
    pub id: String,
    pub version: String,
}

impl PartialEq for PolicyKey {
    fn eq(&self, other: &Self) -> (r: bool) {
        self.id == other.id && self.version == other.version
    }
}

impl vstd::std_specs::cmp::PartialEqSpecImpl for PolicyKey {
    open spec fn obeys_eq_spec() -> bool {
        true
    }

    open spec fn eq_spec(&self, other: &PolicyKey) -> bool {
        self.id@ == other.id@ && self.version@ == other.version@
    }
}

impl PolicyKey {
    /// A key from its parts.
    pub fn new(id: String, version: String) -> (r: Self)
        ensures
            r.id == id,
            r.version == version,
    {
        PolicyKey { id, version }
    }
}

/// A policy artifact as announced in a snapshot: where to fetch the module
/// and the digest its bytes must hash to.
#[derive(Debug)]
pub struct PolicyArtifact {
    pub key: PolicyKey,
    pub wasm_uri: String,
    pub sha256: String,
}

/// A route's reference to a policy at a stage, with the pre-merged
/// effective configuration as JSON text, exactly as it is handed to the
/// sandboxed module.
#[derive(Debug)]
pub struct PolicyBinding {
    pub stage: PolicyStage,
    pub key: PolicyKey,
    pub effective_config_json: String,
}

/// What a policy sees of the request.
#[derive(Debug)]
pub struct RequestView {
    pub method: String,
    pub path: String,
    pub host: Option<String>,
    pub headers: Vec<(String, String)>,
}

/// One header change: replace the value outright, or append a line.
#[derive(Clone, Debug)]
pub struct HeaderMutation {
    pub name: String,
    pub value: String,
    pub overwrite: bool,
}

/// A request-line rewrite requested by a policy.
#[derive(Clone, Debug)]
pub struct RequestRewrite {
    pub method: Option<String>,
    pub path: Option<String>,
}

/// A response produced directly by a policy, short-circuiting the
/// upstream.
#[derive(Debug)]
pub struct DirectResponse {
    pub status: u16,
    pub headers: Vec<HeaderMutation>,
    pub body: Option<String>,
}

/// What a policy decided for a request.
#[derive(Debug)]
pub struct PolicyDecision {
    pub request_headers: Vec<HeaderMutation>,
    pub request_rewrite: Option<RequestRewrite>,
    pub upstream_hint: Option<String>,
    pub direct_response: Option<DirectResponse>,
    pub request_body_patch: Option<Json>,
    pub response_headers: Vec<HeaderMutation>,
}

impl Default for PolicyDecision {
    /// The empty decision: nothing changed.
    fn default() -> (r: Self)
        ensures
            r.request_headers@ == Seq::<HeaderMutation>::empty(),
            r.request_rewrite is None,
            r.upstream_hint is None,
            r.direct_response is None,
            r.request_body_patch is None,
            r.response_headers@ == Seq::<HeaderMutation>::empty(),
    {
        PolicyDecision {
            request_headers: Vec::new(),
            request_rewrite: None,
            upstream_hint: None,
            direct_response: None,
            request_body_patch: None,
            response_headers: Vec::new(),
        }
    }
}

impl PolicyDecision {
    /// Folds a later decision into this one: header lists append, and the
    /// scalar actions are last-write-wins — a later binding's choice
    /// overrides an earlier one, and an absent choice leaves it alone.
    pub fn merge_from(&mut self, other: PolicyDecision)
        ensures
            final(self).request_headers@ == old(self).request_headers@
                + other.request_headers@,
            final(self).response_headers@ == old(self).response_headers@
                + other.response_headers@,
            final(self).request_rewrite == (if other.request_rewrite is Some {
                other.request_rewrite
            } else {
                old(self).request_rewrite
            }),
            final(self).upstream_hint == (if other.upstream_hint is Some {
                other.upstream_hint
            } else {
                old(self).upstream_hint
            }),
            final(self).direct_response == (if other.direct_response is Some {
                other.direct_response
            } else {
                old(self).direct_response
            }),
            final(self).request_body_patch == (if other.request_body_patch is Some {
                other.request_body_patch
            } else {
                old(self).request_body_patch
            }),
    {
        let PolicyDecision {
            request_headers: mut oreq,
            request_rewrite: orw,
            upstream_hint: ouh,
            direct_response: odr,
            request_body_patch: obp,
            response_headers: mut oresp,
        } = other;
        self.request_headers.append(&mut oreq);
        self.response_headers.append(&mut oresp);
        if orw.is_some() {
            self.request_rewrite = orw;
        }
        if ouh.is_some() {
            self.upstream_hint = ouh;
        }
        if odr.is_some() {
            self.direct_response = odr;
        }
        if obp.is_some() {
            self.request_body_patch = obp;
        }
    }
}

/// The policy host's failures. Fields carry the offending policy's
/// identity and the underlying reason as text.
#[derive(Debug)]
pub enum PolicyRuntimeError {
    UnsupportedUri(String),
    ModuleRead { uri: String, source: String },
    ShaMismatch { id: String, version: String },
    InvalidWasm { id: String, version: String, reason: String },
    ComponentCompile { id: String, version: String, reason: String },
    ComponentInstantiate { id: String, version: String, reason: String },
    GuestExecution { id: String, version: String, reason: String },
    GuestRejected { id: String, version: String, reason: String },
    UnknownPolicy { id: String, version: String },
    UnsupportedStage { stage: String, id: String, version: String },
    InvalidConfig { id: String, version: String, reason: String },
    UnsupportedDecisionAction { reason: String },
}

} // verus!
