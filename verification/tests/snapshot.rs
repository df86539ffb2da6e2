use gateway::json::Json;
use gateway::model::{
    default_config_schema, default_policy_config, PolicySpec, RoutePolicy, RouteSpec,
    Upstream,
};
use gateway::snapshot::{parse_match, SnapshotBuilder};

fn s(v: &str) -> String {
    v.to_string()
}

fn jobj(entries: Vec<(&str, Json)>) -> Json {
    Json::Obj(entries.into_iter().map(|(k, v)| (s(k), v)).collect())
}

fn policy(id: &str, version: &str) -> PolicySpec {
    PolicySpec {
        id: s(id),
        version: s(version),
        wasm_uri: s("file:///p/mod.wasm"),
        sha256: s("ab12"),
        supported_stages: vec![s("pre_upstream")],
        config_schema: default_config_schema(),
        default_config: default_policy_config(),
    }
}

fn upstream(url: &str) -> Upstream {
    Upstream {
        url: s(url),
        weight: None,
        priority: None,
        tls: None,
        health_check: None,
        outlier_detection: None,
    }
}

fn route(id: &str, bindings: Vec<(&str, &str, &str)>) -> RouteSpec {
    RouteSpec {
        id: s(id),
        match_rules: jobj(vec![
            ("path_prefix", Json::Str(s("/v1"))),
            (
                "method",
                Json::Arr(vec![Json::Str(s("GET")), Json::Str(s("POST"))]),
            ),
        ]),
        upstreams: vec![upstream("http://u:80")],
        lb: None,
        failover: None,
        policies: bindings
            .into_iter()
            .map(|(stage, id, version)| RoutePolicy {
                stage: s(stage),
                id: s(id),
                version: s(version),
                params: None,
            })
            .collect(),
    }
}

#[test]
fn parse_match_reads_the_declared_fields() {
    let rules = jobj(vec![
        ("path_prefix", Json::Str(s("/v1/users"))),
        ("host", Json::Str(s("api.example.com"))),
        (
            "method",
            Json::Arr(vec![Json::Str(s("GET")), Json::Bool(true), Json::Str(s("PUT"))]),
        ),
    ]);
    let (prefix, methods, host) = parse_match(&rules);
    assert_eq!(prefix, "/v1/users");
    assert_eq!(methods, vec![s("GET"), s("PUT")]);
    assert_eq!(host, "api.example.com");
}

#[test]
fn parse_match_defaults_missing_fields_to_empty() {
    let (prefix, methods, host) = parse_match(&jobj(vec![]));
    assert_eq!(prefix, "");
    assert!(methods.is_empty());
    assert_eq!(host, "");
}

#[test]
fn versions_strictly_increase_across_builds() {
    let mut builder = SnapshotBuilder::new();
    let routes: Vec<RouteSpec> = Vec::new();
    let policies: Vec<PolicySpec> = Vec::new();
    let first = builder.build_snapshot(&routes, &policies).unwrap();
    let second = builder.build_snapshot(&routes, &policies).unwrap();
    assert_eq!(first.version, 1);
    assert_eq!(second.version, 2);
}

#[test]
fn a_snapshot_carries_one_artifact_per_referenced_policy() {
    let mut builder = SnapshotBuilder::new();
    let routes = vec![
        route("a", vec![("pre_upstream", "authn", "1.0.0")]),
        route(
            "b",
            vec![("pre_upstream", "authn", "1.0.0"), ("pre_upstream", "audit", "2.0.0")],
        ),
    ];
    let policies = vec![policy("authn", "1.0.0"), policy("audit", "2.0.0")];
    let snapshot = builder.build_snapshot(&routes, &policies).unwrap();
    assert_eq!(snapshot.routes.len(), 2);
    assert_eq!(snapshot.policy_artifacts.len(), 2);
    assert_eq!(snapshot.policy_artifacts[0].id, "authn");
    assert_eq!(snapshot.policy_artifacts[0].sha256, "ab12");
    assert_eq!(snapshot.policy_artifacts[1].id, "audit");
}

#[test]
fn a_missing_policy_reference_fails_the_build() {
    let mut builder = SnapshotBuilder::new();
    let routes = vec![route("r", vec![("pre_upstream", "ghost", "9.9.9")])];
    let policies: Vec<PolicySpec> = Vec::new();
    let err = builder.build_snapshot(&routes, &policies).unwrap_err();
    assert_eq!(err, "missing policy ghost@9.9.9 referenced by route r");
}

#[test]
fn a_missing_reference_leaves_the_version_counter_untouched() {
    let mut builder = SnapshotBuilder::new();
    let bad_routes = vec![route("r", vec![("pre_upstream", "ghost", "9.9.9")])];
    let good_routes: Vec<RouteSpec> = Vec::new();
    let policies: Vec<PolicySpec> = Vec::new();
    assert!(builder.build_snapshot(&bad_routes, &policies).is_err());
    assert_eq!(builder.version, 0);
    let first = builder.build_snapshot(&good_routes, &policies).unwrap();
    assert_eq!(first.version, 1);
}

#[test]
fn bindings_carry_the_merged_configuration_text() {
    let mut builder = SnapshotBuilder::new();
    let mut p = policy("hdr", "1.0.0");
    p.default_config = jobj(vec![("value", Json::Str(s("on")))]);
    let mut r = route("r", vec![("pre_upstream", "hdr", "1.0.0")]);
    r.policies[0].params = Some(jobj(vec![("extra", Json::Bool(false))]));
    let snapshot = builder.build_snapshot(&vec![r], &vec![p]).unwrap();
    let wire_route = &snapshot.routes[0];
    assert_eq!(wire_route.id, "r");
    let m = wire_route.route_match.as_ref().unwrap();
    assert_eq!(m.path_prefix, "/v1");
    assert_eq!(m.methods, vec![s("GET"), s("POST")]);
    assert_eq!(wire_route.upstreams.len(), 1);
    assert_eq!(wire_route.upstreams[0].url, "http://u:80");
    assert_eq!(wire_route.upstreams[0].weight, 0);
    let binding = &wire_route.policies[0];
    assert_eq!(binding.stage, "pre_upstream");
    assert_eq!(
        binding.effective_config_json,
        "{\"value\":\"on\",\"extra\":false}"
    );
}
