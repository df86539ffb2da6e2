//! Turning a received wire snapshot into the data plane's runtime view.
//!
//! Each wire route becomes a runtime route — empty matcher fields become
//! absent constraints — and each binding's stage name and effective
//! configuration are checked; a snapshot with an unknown stage or invalid
//! configuration text is rejected whole, leaving the current runtime
//! snapshot in place.

use vstd::prelude::*;
use vstd::string::StringExecFns;

use crate::engine::PolicyRegistry;
use crate::policy::{stage_name, PolicyBinding, PolicyKey, PolicyStage};
use crate::router::{Route, RouteSnapshot, Upstream};
use crate::wire;

verus! {

/// Whether a text parses as JSON; a function of the text alone.
pub uninterp spec fn json_text_valid(s: Seq<char>) -> bool;

/// Relies on serde_json::from_str reading into a generic value: whether
/// the text is well-formed JSON, a function of the text alone.
#[verifier::external_body]
fn json_is_valid(s: &str) -> (r: bool)
    ensures
        r == json_text_valid(s@),
{
    serde_json::from_str::<serde_json::Value>(s).is_ok()
}

/// The data plane's runtime view of one snapshot: the route table and the
/// loaded policies. Built once per received snapshot and swapped in
/// whole; never changed afterwards.
#[derive(Debug)]
pub struct RuntimeSnapshot {
    pub routes: RouteSnapshot,
    pub policies: PolicyRegistry,
}

/// Whether a wire binding can be taken into the runtime: its stage is a
/// recognized name and its effective configuration is JSON.
pub open spec fn wire_binding_usable(b: wire::PolicyBinding) -> bool {
    &&& (b.stage@ == "pre_route"@ || b.stage@ == "pre_upstream"@
        || b.stage@ == "post_response"@)
    &&& json_text_valid(b.effective_config_json@)
}

/// How a runtime route corresponds to its wire form: empty matcher fields
/// become absent constraints, upstreams keep their URLs, and bindings
/// keep identity, stage and configuration text.
pub open spec fn runtime_route_corresponds(r: Route, w: wire::Route) -> bool {
    &&& r.id@ == w.id@
    &&& match w.route_match {
        Some(m) => {
            &&& (match r.path_prefix {
                Some(p) => m.path_prefix@.len() > 0 && p@ == m.path_prefix@,
                None => m.path_prefix@.len() == 0,
            })
            &&& r.methods.deep_view() == m.methods.deep_view()
            &&& (match r.host {
                Some(h) => m.host@.len() > 0 && h@ == m.host@,
                None => m.host@.len() == 0,
            })
        },
        None => r.path_prefix is None && r.methods@.len() == 0 && r.host is None,
    }
    &&& r.upstreams@.len() == w.upstreams@.len()
    &&& forall|k: int| 0 <= k < w.upstreams@.len()
        ==> (#[trigger] r.upstreams@[k]).url@ == w.upstreams@[k].url@
    &&& r.policies@.len() == w.policies@.len()
    &&& forall|j: int| 0 <= j < w.policies@.len()
        ==> stage_name((#[trigger] r.policies@[j]).stage) == w.policies@[j].stage@
        && r.policies@[j].key.id@ == w.policies@[j].id@
        && r.policies@[j].key.version@ == w.policies@[j].version@
        && r.policies@[j].effective_config_json@
            == w.policies@[j].effective_config_json@
}

/// One wire route taken into the runtime.
fn route_to_runtime(w: &wire::Route) -> (r: Result<Route, String>)
    ensures
        r is Ok <==> (forall|j: int| 0 <= j < w.policies@.len()
            ==> wire_binding_usable(#[trigger] w.policies@[j])),
        r matches Ok(route) ==> runtime_route_corresponds(route, *w),
{
    let (path_prefix, methods, host) = match &w.route_match {
        Some(m) => {
            let path_prefix = if m.path_prefix.as_str().is_empty() {
                None
            } else {
                Some(m.path_prefix.clone())
            };
            let host = if m.host.as_str().is_empty() {
                None
            } else {
                Some(m.host.clone())
            };
            let mut methods: Vec<String> = Vec::new();
            let mut t: usize = 0;
            while t < m.methods.len()
                invariant
                    t <= m.methods@.len(),
                    methods@.len() == t,
                    forall|x: int| 0 <= x < t ==> (#[trigger] methods@[x])@
                        == m.methods@[x]@,
                decreases m.methods@.len() - t,
            {
                methods.push(m.methods[t].clone());
                t = t + 1;
            }
            proof {
                assert(methods.deep_view() =~= m.methods.deep_view());
            }
            (path_prefix, methods, host)
        },
        None => {
            let methods: Vec<String> = Vec::new();
            (None, methods, None)
        },
    };

    let mut upstreams: Vec<Upstream> = Vec::new();
    let mut k: usize = 0;
    while k < w.upstreams.len()
        invariant
            k <= w.upstreams@.len(),
            upstreams@.len() == k,
            forall|x: int| 0 <= x < k ==> (#[trigger] upstreams@[x]).url@
                == w.upstreams@[x].url@,
        decreases w.upstreams@.len() - k,
    {
        upstreams.push(Upstream { url: w.upstreams[k].url.clone() });
        k = k + 1;
    }

    let mut bindings: Vec<PolicyBinding> = Vec::new();
    let mut j: usize = 0;
    while j < w.policies.len()
        invariant
            j <= w.policies@.len(),
            bindings@.len() == j,
            forall|x: int| 0 <= x < j
                ==> wire_binding_usable(#[trigger] w.policies@[x]),
            forall|x: int| 0 <= x < j
                ==> stage_name((#[trigger] bindings@[x]).stage) == w.policies@[x].stage@
                && bindings@[x].key.id@ == w.policies@[x].id@
                && bindings@[x].key.version@ == w.policies@[x].version@
                && bindings@[x].effective_config_json@
                    == w.policies@[x].effective_config_json@,
        decreases w.policies@.len() - j,
    {
        let b = &w.policies[j];
        let stage = match PolicyStage::parse(b.stage.as_str()) {
            Ok(s) => s,
            Err(e) => {
                let mut msg = "invalid stage ".to_owned();
                msg.append(b.stage.as_str());
                msg.append(": ");
                msg.append(e.as_str());
                return Err(msg);
            },
        };
        if !json_is_valid(b.effective_config_json.as_str()) {
            let mut msg = "invalid effective_config_json for ".to_owned();
            msg.append(b.id.as_str());
            msg.append("@");
            msg.append(b.version.as_str());
            return Err(msg);
        }
        bindings.push(PolicyBinding {
            stage,
            key: PolicyKey::new(b.id.clone(), b.version.clone()),
            effective_config_json: b.effective_config_json.clone(),
        });
        j = j + 1;
    }

    Ok(Route::new(w.id.clone(), path_prefix, methods, host, upstreams, bindings))
}

/// The runtime view of a received snapshot, over the policies the host
/// loaded for it. Fails — and changes nothing — exactly when some
/// binding's stage is unknown or its configuration text is not JSON.
pub fn snapshot_to_runtime(snapshot: &wire::Snapshot, policies: PolicyRegistry) -> (r:
    Result<RuntimeSnapshot, String>)
    ensures
        r is Ok <==> (forall|i: int, j: int| 0 <= i < snapshot.routes@.len()
            && 0 <= j < snapshot.routes@[i].policies@.len()
            ==> wire_binding_usable(#[trigger] snapshot.routes@[i].policies@[j])),
        r matches Ok(rt) ==> {
            &&& rt.policies == policies
            &&& rt.routes.routes@.len() == snapshot.routes@.len()
            &&& forall|i: int| 0 <= i < snapshot.routes@.len()
                ==> runtime_route_corresponds(#[trigger] rt.routes.routes@[i],
                    snapshot.routes@[i])
        },
{
    let mut routes: Vec<Route> = Vec::new();
    let mut i: usize = 0;
    while i < snapshot.routes.len()
        invariant
            i <= snapshot.routes@.len(),
            routes@.len() == i,
            forall|t: int| 0 <= t < i
                ==> runtime_route_corresponds(#[trigger] routes@[t],
                    snapshot.routes@[t]),
            forall|t: int, j: int| 0 <= t < i
                && 0 <= j < snapshot.routes@[t].policies@.len()
                ==> wire_binding_usable(#[trigger] snapshot.routes@[t].policies@[j]),
        decreases snapshot.routes@.len() - i,
    {
        match route_to_runtime(&snapshot.routes[i]) {
            Ok(route) => {
                routes.push(route);
            },
            Err(e) => {
                proof {
                    let bj = choose|bj: int| 0 <= bj
                        < snapshot.routes@[i as int].policies@.len()
                        && !wire_binding_usable(
                        snapshot.routes@[i as int].policies@[bj]);
                }
                return Err(e);
            },
        }
        i = i + 1;
    }
    Ok(RuntimeSnapshot { routes: RouteSnapshot { routes }, policies })
}

} // verus!
