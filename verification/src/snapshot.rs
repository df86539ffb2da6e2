//! The snapshot builder: assembles a numbered, self-contained snapshot
//! from the declared routes and policies.
//!
//! Every build consumes the next version number, so versions strictly
//! increase over the builder's lifetime; a built snapshot carries exactly
//! one policy artifact per referenced `(id, version)` and every binding's
//! effective configuration pre-merged and serialized.

use vstd::prelude::*;
use vstd::string::StringExecFns;

use crate::json::{
    jview, jview_entries, lemma_index_of_key, lemma_jview_entries, lemma_jview_seq,
    lookup, Json, JsonV,
};
use crate::json_text::{json_text, to_json_text};
use crate::merge::deep_merge_default_with_params;
use crate::model::{PolicySpec, RoutePolicy, RouteSpec};
use crate::validation::{effective_of, find_policy, lemma_find_policy};
use crate::wire;

verus! {

/// The declared path prefix of a match object, or empty.
pub open spec fn match_path_prefix(m: JsonV) -> Seq<char> {
    match m {
        JsonV::Obj(entries) => match lookup(entries, "path_prefix"@) {
            Some(JsonV::Str(s)) => s,
            _ => Seq::empty(),
        },
        _ => Seq::empty(),
    }
}

/// The declared host of a match object, or empty.
pub open spec fn match_host(m: JsonV) -> Seq<char> {
    match m {
        JsonV::Obj(entries) => match lookup(entries, "host"@) {
            Some(JsonV::Str(s)) => s,
            _ => Seq::empty(),
        },
        _ => Seq::empty(),
    }
}

/// The string elements of an array, in order, anything else skipped.
pub open spec fn string_items(items: Seq<JsonV>) -> Seq<Seq<char>>
    decreases items.len(),
{
    if items.len() == 0 {
        Seq::empty()
    } else {
        let rest = string_items(items.drop_first());
        match items[0] {
            JsonV::Str(s) => seq![s] + rest,
            _ => rest,
        }
    }
}

/// The declared methods of a match object, or none.
pub open spec fn match_methods(m: JsonV) -> Seq<Seq<char>> {
    match m {
        JsonV::Obj(entries) => match lookup(entries, "method"@) {
            Some(JsonV::Arr(items)) => string_items(items),
            _ => Seq::empty(),
        },
        _ => Seq::empty(),
    }
}

/// One more element extends the collected strings by itself, or not at
/// all.
proof fn lemma_string_items_snoc(items: Seq<JsonV>, x: JsonV)
    ensures
        string_items(items.push(x)) == string_items(items) + (match x {
            JsonV::Str(s) => seq![s],
            _ => Seq::<Seq<char>>::empty(),
        }),
    decreases items.len(),
{
    let p = items.push(x);
    if items.len() == 0 {
        assert(p[0] == x);
        assert(p.drop_first() =~= Seq::<JsonV>::empty());
        assert(string_items(Seq::<JsonV>::empty()) =~= Seq::<Seq<char>>::empty());
        match x {
            JsonV::Str(s) => {
                assert(string_items(p) =~= string_items(items) + seq![s]);
            },
            _ => {
                assert(string_items(p) =~= string_items(items));
            },
        }
    } else {
        lemma_string_items_snoc(items.drop_first(), x);
        assert(p[0] == items[0]);
        assert(p.drop_first() =~= items.drop_first().push(x));
        match items[0] {
            JsonV::Str(s0) => {
                match x {
                    JsonV::Str(s) => {
                        assert(seq![s0] + (string_items(items.drop_first()) + seq![s])
                            =~= (seq![s0] + string_items(items.drop_first()))
                            + seq![s]);
                    },
                    _ => {
                        assert(string_items(p) =~= string_items(items));
                    },
                }
            },
            _ => {},
        }
    }
}

/// The string bound to `key` in the object's entries, or empty.
fn lookup_string(entries: &Vec<(String, Json)>, key: &String) -> (r: String)
    ensures
        r@ == (match lookup(jview_entries(entries@), key@) {
            Some(JsonV::Str(s)) => s,
            _ => Seq::<char>::empty(),
        }),
{
    proof {
        lemma_jview_entries(entries@);
        lemma_index_of_key(jview_entries(entries@), key@);
    }
    match crate::json::find_key(entries, key) {
        Some(i) => {
            proof {
                lemma_index_of_key(jview_entries(entries@), key@);
                assert(lookup(jview_entries(entries@), key@)
                    == Some(jview_entries(entries@)[i as int].1));
                assert(jview_entries(entries@)[i as int].1
                    == jview(entries@[i as int].1));
            }
            match &entries[i].1 {
                Json::Str(s) => s.clone(),
                _ => String::new(),
            }
        },
        None => String::new(),
    }
}

/// The matcher fields of a route's match rules: path prefix, methods,
/// host; empty where not declared.
pub fn parse_match(match_rules: &Json) -> (r: (String, Vec<String>, String))
    ensures
        r.0@ == match_path_prefix(match_rules@),
        r.1.deep_view() == match_methods(match_rules@),
        r.2@ == match_host(match_rules@),
{
    match match_rules {
        Json::Obj(entries) => {
            let path_prefix = lookup_string(entries, &"path_prefix".to_owned());
            let host = lookup_string(entries, &"host".to_owned());
            let mut methods: Vec<String> = Vec::new();
            proof {
                lemma_jview_entries(entries@);
                lemma_index_of_key(jview_entries(entries@), "method"@);
            }
            match crate::json::find_key(entries, &"method".to_owned()) {
                Some(i) => {
                    proof {
                        lemma_index_of_key(jview_entries(entries@), "method"@);
                        assert(lookup(jview_entries(entries@), "method"@)
                            == Some(jview_entries(entries@)[i as int].1));
                        assert(jview_entries(entries@)[i as int].1
                            == jview(entries@[i as int].1));
                    }
                    match &entries[i].1 {
                        Json::Arr(items) => {
                            proof {
                                lemma_jview_seq(items@);
                                assert(crate::json::jview_seq(items@).take(0)
                                    =~= Seq::<JsonV>::empty());
                                assert(string_items(Seq::<JsonV>::empty())
                                    =~= Seq::<Seq<char>>::empty());
                            }
                            let mut j: usize = 0;
                            while j < items.len()
                                invariant
                                    j <= items@.len(),
                                    crate::json::jview_seq(items@).len()
                                        == items@.len(),
                                    forall|t: int| 0 <= t < items@.len()
                                        ==> #[trigger] crate::json::jview_seq(
                                        items@)[t] == jview(items@[t]),
                                    methods.deep_view() == string_items(
                                        crate::json::jview_seq(items@).take(j as int)),
                                decreases items@.len() - j,
                            {
                                match &items[j] {
                                    Json::Str(s) => {
                                        methods.push(s.clone());
                                    },
                                    _ => {},
                                }
                                proof {
                                    let view = crate::json::jview_seq(items@);
                                    lemma_string_items_snoc(view.take(j as int),
                                        view[j as int]);
                                    assert(view.take(j as int + 1) =~= view.take(
                                        j as int).push(view[j as int]));
                                    assert(methods.deep_view() =~= string_items(
                                        view.take(j as int + 1)));
                                }
                                j = j + 1;
                            }
                            proof {
                                let view = crate::json::jview_seq(items@);
                                assert(view.take(view.len() as int) =~= view);
                            }
                        },
                        _ => {
                            proof {
                                assert(methods.deep_view() =~= Seq::<Seq<char>>::empty());
                            }
                        },
                    }
                },
                None => {
                    proof {
                        assert(methods.deep_view() =~= Seq::<Seq<char>>::empty());
                    }
                },
            }
            (path_prefix, methods, host)
        },
        _ => {
            let empty_methods: Vec<String> = Vec::new();
            proof {
                assert(empty_methods.deep_view() =~= Seq::<Seq<char>>::empty());
            }
            (String::new(), empty_methods, String::new())
        },
    }
}

/// Whether an artifact with the identity is present.
pub open spec fn has_artifact(
    arts: Seq<wire::PolicyArtifact>,
    id: Seq<char>,
    version: Seq<char>,
) -> bool {
    exists|k: int| 0 <= k < arts.len() && arts[k].id@ == id && arts[k].version@ == version
}

/// Whether some route binds the identity.
pub open spec fn routes_reference(
    routes: Seq<RouteSpec>,
    id: Seq<char>,
    version: Seq<char>,
) -> bool {
    exists|i: int, j: int| 0 <= i < routes.len()
        && 0 <= j < routes[i].policies@.len()
        && routes[i].policies@[j].id@ == id
        && routes[i].policies@[j].version@ == version
}

/// Whether an artifact with the identity is present, executable.
fn artifact_present(arts: &Vec<wire::PolicyArtifact>, id: &String, version: &String) -> (r:
    bool)
    ensures
        r == has_artifact(arts@, id@, version@),
{
    let mut k: usize = 0;
    while k < arts.len()
        invariant
            k <= arts@.len(),
            forall|t: int| #![trigger arts@[t]] 0 <= t < k
                ==> !(arts@[t].id@ == id@ && arts@[t].version@ == version@),
        decreases arts@.len() - k,
    {
        if arts[k].id == *id && arts[k].version == *version {
            return true;
        }
        k = k + 1;
    }
    proof {
        if has_artifact(arts@, id@, version@) {
            let w = choose|w: int| 0 <= w < arts@.len() && arts@[w].id@ == id@
                && arts@[w].version@ == version@;
        }
    }
    false
}

/// Whether every policy referenced by any route's bindings is declared.
pub open spec fn all_refs_resolve(
    routes: Seq<RouteSpec>,
    policies: Seq<PolicySpec>,
) -> bool {
    forall|i: int, j: int| 0 <= i < routes.len()
        && 0 <= j < routes[i].policies@.len()
        ==> find_policy(policies, (#[trigger] routes[i].policies@[j]).id@,
            routes[i].policies@[j].version@) is Some
}

/// The build error for a reference to an undeclared policy.
pub open spec fn missing_policy_msg(
    id: Seq<char>,
    version: Seq<char>,
    route_id: Seq<char>,
) -> Seq<char> {
    "missing policy "@ + id + "@"@ + version + " referenced by route "@ + route_id
}

/// One artifact per referenced `(id, version)`, in first-reference order.
/// Fails on the first reference to an undeclared policy, naming it and
/// its route.
fn collect_artifacts(routes: &Vec<RouteSpec>, policies: &Vec<PolicySpec>) -> (r: Result<
    Vec<wire::PolicyArtifact>, String>)
    ensures
        r is Ok <==> all_refs_resolve(routes@, policies@),
        r matches Err(e) ==> exists|i: int, j: int| 0 <= i < routes@.len()
            && 0 <= j < routes@[i].policies@.len()
            && find_policy(policies@, (#[trigger] routes@[i].policies@[j]).id@,
                routes@[i].policies@[j].version@) is None
            && e@ == missing_policy_msg(routes@[i].policies@[j].id@,
                routes@[i].policies@[j].version@, routes@[i].id@),
        r matches Ok(arts) ==> {
            &&& forall|k1: int, k2: int| 0 <= k1 < k2 < arts@.len()
                ==> !((#[trigger] arts@[k1]).id@ == (#[trigger] arts@[k2]).id@
                && arts@[k1].version@ == arts@[k2].version@)
            &&& forall|i: int, j: int| 0 <= i < routes@.len()
                && 0 <= j < routes@[i].policies@.len()
                ==> has_artifact(arts@, (#[trigger] routes@[i].policies@[j]).id@,
                    routes@[i].policies@[j].version@)
            &&& forall|k: int| #![trigger arts@[k]] 0 <= k < arts@.len()
                ==> routes_reference(routes@, arts@[k].id@, arts@[k].version@)
                && (find_policy(policies@, arts@[k].id@, arts@[k].version@)
                    matches Some(ps) && arts@[k].wasm_uri@ == ps.wasm_uri@
                    && arts@[k].sha256@ == ps.sha256@)
        },
{
    let mut arts: Vec<wire::PolicyArtifact> = Vec::new();
    let mut i: usize = 0;
    while i < routes.len()
        invariant
            i <= routes@.len(),
            forall|a: int, b: int| 0 <= a < i && 0 <= b < routes@[a].policies@.len()
                ==> find_policy(policies@, (#[trigger] routes@[a].policies@[b]).id@,
                    routes@[a].policies@[b].version@) is Some,
            forall|a: int, b: int| 0 <= a < i && 0 <= b < routes@[a].policies@.len()
                ==> has_artifact(arts@, (#[trigger] routes@[a].policies@[b]).id@,
                    routes@[a].policies@[b].version@),
            forall|k1: int, k2: int| 0 <= k1 < k2 < arts@.len()
                ==> !((#[trigger] arts@[k1]).id@ == (#[trigger] arts@[k2]).id@
                && arts@[k1].version@ == arts@[k2].version@),
            forall|k: int| #![trigger arts@[k]] 0 <= k < arts@.len()
                ==> routes_reference(routes@, arts@[k].id@, arts@[k].version@)
                && (find_policy(policies@, arts@[k].id@, arts@[k].version@)
                    matches Some(ps) && arts@[k].wasm_uri@ == ps.wasm_uri@
                    && arts@[k].sha256@ == ps.sha256@),
        decreases routes@.len() - i,
    {
        let route = &routes[i];
        let mut j: usize = 0;
        while j < route.policies.len()
            invariant
                0 <= i < routes@.len(),
                j <= route.policies@.len(),
                *route == routes@[i as int],
                forall|a: int, b: int| 0 <= a < i && 0 <= b < routes@[a].policies@.len()
                    ==> find_policy(policies@,
                        (#[trigger] routes@[a].policies@[b]).id@,
                        routes@[a].policies@[b].version@) is Some,
                forall|b: int| 0 <= b < j
                    ==> find_policy(policies@,
                        (#[trigger] route.policies@[b]).id@,
                        route.policies@[b].version@) is Some,
                forall|a: int, b: int| 0 <= a < i && 0 <= b < routes@[a].policies@.len()
                    ==> has_artifact(arts@, (#[trigger] routes@[a].policies@[b]).id@,
                        routes@[a].policies@[b].version@),
                forall|b: int| 0 <= b < j
                    ==> has_artifact(arts@, (#[trigger] route.policies@[b]).id@,
                        route.policies@[b].version@),
                forall|k1: int, k2: int| 0 <= k1 < k2 < arts@.len()
                    ==> !((#[trigger] arts@[k1]).id@ == (#[trigger] arts@[k2]).id@
                    && arts@[k1].version@ == arts@[k2].version@),
                forall|k: int| #![trigger arts@[k]] 0 <= k < arts@.len()
                    ==> routes_reference(routes@, arts@[k].id@, arts@[k].version@)
                    && (find_policy(policies@, arts@[k].id@, arts@[k].version@)
                        matches Some(ps) && arts@[k].wasm_uri@ == ps.wasm_uri@
                        && arts@[k].sha256@ == ps.sha256@),
            decreases route.policies@.len() - j,
        {
            let binding = &route.policies[j];
            if !artifact_present(&arts, &binding.id, &binding.version) {
                match crate::validation::find_policy_exec(policies, &binding.id,
                    &binding.version) {
                    Some(ps) => {
                        let ghost arts_before = arts@;
                        arts.push(wire::PolicyArtifact {
                            id: binding.id.clone(),
                            version: binding.version.clone(),
                            wasm_uri: ps.wasm_uri.clone(),
                            sha256: ps.sha256.clone(),
                        });
                        proof {
                            assert(routes_reference(routes@,
                                arts@[arts@.len() - 1].id@,
                                arts@[arts@.len() - 1].version@));
                            assert forall|a: int, b: int| 0 <= a < i
                                && 0 <= b < routes@[a].policies@.len()
                                implies has_artifact(arts@,
                                (#[trigger] routes@[a].policies@[b]).id@,
                                routes@[a].policies@[b].version@) by {
                                let w = choose|w: int| 0 <= w < arts_before.len()
                                    && arts_before[w].id@
                                        == routes@[a].policies@[b].id@
                                    && arts_before[w].version@
                                        == routes@[a].policies@[b].version@;
                                assert(arts@[w] == arts_before[w]);
                            }
                            assert forall|b: int| 0 <= b < j implies has_artifact(
                                arts@, (#[trigger] route.policies@[b]).id@,
                                route.policies@[b].version@) by {
                                let w = choose|w: int| 0 <= w < arts_before.len()
                                    && arts_before[w].id@ == route.policies@[b].id@
                                    && arts_before[w].version@
                                        == route.policies@[b].version@;
                                assert(arts@[w] == arts_before[w]);
                            }
                        }
                    },
                    None => {
                        let mut msg = "missing policy ".to_owned();
                        msg.append(binding.id.as_str());
                        msg.append("@");
                        msg.append(binding.version.as_str());
                        msg.append(" referenced by route ");
                        msg.append(route.id.as_str());
                        proof {
                            assert(msg@ =~= missing_policy_msg(
                                routes@[i as int].policies@[j as int].id@,
                                routes@[i as int].policies@[j as int].version@,
                                routes@[i as int].id@));
                            assert(find_policy(policies@,
                                routes@[i as int].policies@[j as int].id@,
                                routes@[i as int].policies@[j as int].version@)
                                is None);
                        }
                        return Err(msg);
                    },
                }
            }
            j = j + 1;
        }
        i = i + 1;
    }
    Ok(arts)
}

/// What a built snapshot guarantees of itself: every binding's identity
/// has exactly one artifact — at least one, and no two artifacts share an
/// identity.
pub open spec fn snapshot_self_contained(s: wire::Snapshot) -> bool {
    &&& forall|i: int, j: int| 0 <= i < s.routes@.len()
        && 0 <= j < s.routes@[i].policies@.len()
        ==> has_artifact(s.policy_artifacts@,
            (#[trigger] s.routes@[i].policies@[j]).id@,
            s.routes@[i].policies@[j].version@)
    &&& forall|k1: int, k2: int| 0 <= k1 < k2 < s.policy_artifacts@.len()
        ==> !((#[trigger] s.policy_artifacts@[k1]).id@
        == (#[trigger] s.policy_artifacts@[k2]).id@
        && s.policy_artifacts@[k1].version@ == s.policy_artifacts@[k2].version@)
}

/// Whether a binding can be built: its policy is declared, the policy's
/// default configuration is an object, and the binding's parameters, if
/// any, are an object.
pub open spec fn binding_buildable(b: RoutePolicy, policies: Seq<PolicySpec>) -> bool {
    &&& (b.params matches Some(p) ==> p@ is Obj)
    &&& match find_policy(policies, b.id@, b.version@) {
        Some(ps) => ps.default_config@ is Obj,
        None => false,
    }
}

/// How a published route corresponds to its declaration.
pub open spec fn wire_route_corresponds(
    w: wire::Route,
    r: RouteSpec,
    policies: Seq<PolicySpec>,
) -> bool {
    &&& w.id@ == r.id@
    &&& w.route_match matches Some(m) && m.path_prefix@ == match_path_prefix(
        r.match_rules@) && m.methods.deep_view() == match_methods(r.match_rules@)
        && m.host@ == match_host(r.match_rules@)
    &&& w.lb@ == (match r.lb {
        Some(l) => l@,
        None => Seq::<char>::empty(),
    })
    &&& w.upstreams@.len() == r.upstreams@.len()
    &&& forall|k: int| 0 <= k < r.upstreams@.len()
        ==> (#[trigger] w.upstreams@[k]).url@ == r.upstreams@[k].url@
        && w.upstreams@[k].weight == (match r.upstreams@[k].weight {
            Some(x) => x,
            None => 0u32,
        })
        && w.upstreams@[k].priority == (match r.upstreams@[k].priority {
            Some(x) => x,
            None => 0u32,
        })
    &&& w.policies@.len() == r.policies@.len()
    &&& forall|j: int| 0 <= j < r.policies@.len()
        ==> (#[trigger] w.policies@[j]).stage@ == r.policies@[j].stage@
        && w.policies@[j].id@ == r.policies@[j].id@
        && w.policies@[j].version@ == r.policies@[j].version@
        && (find_policy(policies, r.policies@[j].id@, r.policies@[j].version@)
            matches Some(ps) && w.policies@[j].effective_config_json@
            == json_text(effective_of(ps, r.policies@[j])))
}

/// One route translated to the wire form, its bindings' effective
/// configurations merged and serialized.
fn route_to_wire(route: &RouteSpec, policies: &Vec<PolicySpec>) -> (r: Result<
    wire::Route, String>)
    ensures
        r is Ok <==> (forall|j: int| 0 <= j < route.policies@.len()
            ==> binding_buildable(#[trigger] route.policies@[j], policies@)),
        r matches Ok(w) ==> wire_route_corresponds(w, *route, policies@),
{
    let parsed = parse_match(&route.match_rules);
    let (path_prefix, methods, host) = parsed;

    let mut upstreams: Vec<wire::Upstream> = Vec::new();
    let mut k: usize = 0;
    while k < route.upstreams.len()
        invariant
            k <= route.upstreams@.len(),
            upstreams@.len() == k,
            forall|t: int| 0 <= t < k
                ==> (#[trigger] upstreams@[t]).url@ == route.upstreams@[t].url@
                && upstreams@[t].weight == (match route.upstreams@[t].weight {
                    Some(x) => x,
                    None => 0u32,
                })
                && upstreams@[t].priority == (match route.upstreams@[t].priority {
                    Some(x) => x,
                    None => 0u32,
                }),
        decreases route.upstreams@.len() - k,
    {
        let u = &route.upstreams[k];
        let weight = match u.weight {
            Some(x) => x,
            None => 0,
        };
        let priority = match u.priority {
            Some(x) => x,
            None => 0,
        };
        upstreams.push(wire::Upstream { url: u.url.clone(), weight, priority });
        k = k + 1;
    }

    let mut bindings: Vec<wire::PolicyBinding> = Vec::new();
    let mut j: usize = 0;
    while j < route.policies.len()
        invariant
            j <= route.policies@.len(),
            bindings@.len() == j,
            forall|t: int| 0 <= t < j
                ==> binding_buildable(#[trigger] route.policies@[t], policies@),
            forall|t: int| 0 <= t < j
                ==> (#[trigger] bindings@[t]).stage@ == route.policies@[t].stage@
                && bindings@[t].id@ == route.policies@[t].id@
                && bindings@[t].version@ == route.policies@[t].version@
                && (find_policy(policies@, route.policies@[t].id@,
                    route.policies@[t].version@) matches Some(ps)
                    && bindings@[t].effective_config_json@
                    == json_text(effective_of(ps, route.policies@[t]))),
        decreases route.policies@.len() - j,
    {
        let binding = &route.policies[j];
        let ps = match crate::validation::find_policy_exec(policies, &binding.id,
            &binding.version) {
            Some(ps) => ps,
            None => {
                let mut msg = "missing policy ".to_owned();
                msg.append(binding.id.as_str());
                msg.append("@");
                msg.append(binding.version.as_str());
                msg.append(" referenced by route ");
                msg.append(route.id.as_str());
                return Err(msg);
            },
        };

        let mut context = "route ".to_owned();
        context.append(route.id.as_str());
        context.append(" policy ");
        context.append(binding.id.as_str());
        context.append("@");
        context.append(binding.version.as_str());

        let merged = match deep_merge_default_with_params(&ps.default_config,
            binding.params.as_ref(), context.as_str()) {
            Ok(m) => m,
            Err(e) => {
                let mut msg = String::new();
                let mut t: usize = 0;
                while t < e.details.len()
                    invariant
                        t <= e.details@.len(),
                    decreases e.details@.len() - t,
                {
                    if t > 0 {
                        msg.append("; ");
                    }
                    msg.append(e.details[t].as_str());
                    t = t + 1;
                }
                return Err(msg);
            },
        };

        let config_json = to_json_text(&merged);
        bindings.push(wire::PolicyBinding {
            stage: binding.stage.clone(),
            id: binding.id.clone(),
            version: binding.version.clone(),
            effective_config_json: config_json,
        });
        j = j + 1;
    }

    Ok(wire::Route {
        id: route.id.clone(),
        route_match: Some(wire::Match { path_prefix, methods, host }),
        upstreams,
        lb: match &route.lb {
            Some(l) => l.clone(),
            None => String::new(),
        },
        policies: bindings,
    })
}

/// The control plane's snapshot builder; the sole allocator of snapshot
/// versions.
#[derive(Debug)]
pub struct SnapshotBuilder {
    pub version: u64,
}

impl SnapshotBuilder {
    /// A builder that has published nothing yet.
    pub fn new() -> (r: Self)
        ensures
            r.version == 0,
    {
        SnapshotBuilder { version: 0 }
    }

    /// The next snapshot. References are resolved before a version is
    /// allocated: a reference to an undeclared policy fails the build with
    /// the counter untouched, naming the policy and its route; once every
    /// reference resolves the counter rises by one, whether or not the
    /// rest of the build succeeds, so the versions of built snapshots
    /// strictly increase. Succeeds exactly when, additionally, every
    /// referenced policy's default configuration is an object and every
    /// binding's parameters, if any, are one too.
    pub fn build_snapshot(
        &mut self,
        routes: &Vec<RouteSpec>,
        policies: &Vec<PolicySpec>,
    ) -> (r: Result<wire::Snapshot, String>)
        requires
            old(self).version < u64::MAX,
        ensures
            !all_refs_resolve(routes@, policies@) ==> {
                &&& final(self).version == old(self).version
                &&& r matches Err(e) && exists|i: int, j: int| 0 <= i < routes@.len()
                    && 0 <= j < routes@[i].policies@.len()
                    && find_policy(policies@,
                        (#[trigger] routes@[i].policies@[j]).id@,
                        routes@[i].policies@[j].version@) is None
                    && e@ == missing_policy_msg(routes@[i].policies@[j].id@,
                        routes@[i].policies@[j].version@, routes@[i].id@)
            },
            all_refs_resolve(routes@, policies@) ==> final(self).version
                == old(self).version + 1,
            r is Ok <==> (forall|i: int, j: int| 0 <= i < routes@.len()
                && 0 <= j < routes@[i].policies@.len()
                ==> binding_buildable(#[trigger] routes@[i].policies@[j], policies@)),
            r matches Ok(s) ==> {
                &&& s.version == old(self).version + 1
                &&& s.routes@.len() == routes@.len()
                &&& forall|i: int| 0 <= i < routes@.len()
                    ==> wire_route_corresponds(#[trigger] s.routes@[i], routes@[i],
                        policies@)
                &&& snapshot_self_contained(s)
                &&& forall|k: int| #![trigger s.policy_artifacts@[k]]
                    0 <= k < s.policy_artifacts@.len()
                    ==> routes_reference(routes@, s.policy_artifacts@[k].id@,
                        s.policy_artifacts@[k].version@)
                    && (find_policy(policies@, s.policy_artifacts@[k].id@,
                        s.policy_artifacts@[k].version@) matches Some(ps)
                        && s.policy_artifacts@[k].wasm_uri@ == ps.wasm_uri@
                        && s.policy_artifacts@[k].sha256@ == ps.sha256@)
            },
    {
        let arts = match collect_artifacts(routes, policies) {
            Ok(a) => a,
            Err(e) => {
                proof {
                    let (bi, bj) = choose|bi: int, bj: int| 0 <= bi < routes@.len()
                        && 0 <= bj < routes@[bi].policies@.len()
                        && !(find_policy(policies@,
                            (routes@[bi].policies@[bj]).id@,
                            routes@[bi].policies@[bj].version@) is Some);
                    assert(!binding_buildable(routes@[bi].policies@[bj], policies@));
                }
                return Err(e);
            },
        };
        self.version = self.version + 1;

        let mut wroutes: Vec<wire::Route> = Vec::new();
        let mut i: usize = 0;
        while i < routes.len()
            invariant
                i <= routes@.len(),
                self.version == old(self).version + 1,
                all_refs_resolve(routes@, policies@),
                wroutes@.len() == i,
                forall|t: int| 0 <= t < i
                    ==> wire_route_corresponds(#[trigger] wroutes@[t], routes@[t],
                        policies@),
                forall|t: int, j: int| 0 <= t < i
                    && 0 <= j < routes@[t].policies@.len()
                    ==> binding_buildable(#[trigger] routes@[t].policies@[j],
                        policies@),
                forall|a: int, b: int| 0 <= a < routes@.len()
                    && 0 <= b < routes@[a].policies@.len()
                    ==> has_artifact(arts@, (#[trigger] routes@[a].policies@[b]).id@,
                        routes@[a].policies@[b].version@),
                forall|k1: int, k2: int| 0 <= k1 < k2 < arts@.len()
                    ==> !((#[trigger] arts@[k1]).id@ == (#[trigger] arts@[k2]).id@
                    && arts@[k1].version@ == arts@[k2].version@),
                forall|k: int| #![trigger arts@[k]] 0 <= k < arts@.len()
                    ==> routes_reference(routes@, arts@[k].id@, arts@[k].version@)
                    && (find_policy(policies@, arts@[k].id@, arts@[k].version@)
                        matches Some(ps) && arts@[k].wasm_uri@ == ps.wasm_uri@
                        && arts@[k].sha256@ == ps.sha256@),
            decreases routes@.len() - i,
        {
            match route_to_wire(&routes[i], policies) {
                Ok(w) => {
                    wroutes.push(w);
                },
                Err(e) => {
                    proof {
                        let bj = choose|bj: int| 0 <= bj
                            < routes@[i as int].policies@.len()
                            && !binding_buildable(routes@[i as int].policies@[bj],
                                policies@);
                    }
                    return Err(e);
                },
            }
            i = i + 1;
        }

        let snapshot = wire::Snapshot {
            version: self.version,
            routes: wroutes,
            policy_artifacts: arts,
        };
        proof {
            assert forall|i2: int, j2: int| 0 <= i2 < snapshot.routes@.len()
                && 0 <= j2 < snapshot.routes@[i2].policies@.len()
                implies has_artifact(snapshot.policy_artifacts@,
                (#[trigger] snapshot.routes@[i2].policies@[j2]).id@,
                snapshot.routes@[i2].policies@[j2].version@) by {
                assert(wire_route_corresponds(snapshot.routes@[i2], routes@[i2],
                    policies@));
                assert(snapshot.routes@[i2].policies@[j2].id@
                    == routes@[i2].policies@[j2].id@);
                assert(snapshot.routes@[i2].policies@[j2].version@
                    == routes@[i2].policies@[j2].version@);
            }
        }
        Ok(snapshot)
    }
}

} // verus!
