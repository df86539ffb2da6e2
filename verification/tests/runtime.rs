use gateway::engine::PolicyRegistry;
use gateway::policy::PolicyStage;
use gateway::runtime::snapshot_to_runtime;
use gateway::wire;

fn s(v: &str) -> String {
    v.to_string()
}

fn wire_route(stage: &str, config_json: &str) -> wire::Route {
    wire::Route {
        id: s("r"),
        route_match: Some(wire::Match {
            path_prefix: s("/v1"),
            methods: vec![s("GET")],
            host: s(""),
        }),
        upstreams: vec![wire::Upstream { url: s("http://u:80"), weight: 0, priority: 0 }],
        lb: s(""),
        policies: vec![wire::PolicyBinding {
            stage: s(stage),
            id: s("hdr"),
            version: s("1.0.0"),
            effective_config_json: s(config_json),
        }],
    }
}

fn snapshot_of(route: wire::Route) -> wire::Snapshot {
    wire::Snapshot {
        version: 7,
        routes: vec![route],
        policy_artifacts: Vec::new(),
    }
}

#[test]
fn a_wire_snapshot_becomes_the_runtime_view() {
    let snapshot = snapshot_of(wire_route("pre_upstream", "{\"a\":1}"));
    let runtime = snapshot_to_runtime(&snapshot, PolicyRegistry::empty()).unwrap();
    assert_eq!(runtime.routes.routes.len(), 1);
    let route = &runtime.routes.routes[0];
    assert_eq!(route.id, "r");
    assert_eq!(route.path_prefix, Some(s("/v1")));
    assert_eq!(route.methods, vec![s("GET")]);
    assert_eq!(route.host, None);
    assert_eq!(route.upstreams.len(), 1);
    assert_eq!(route.upstreams[0].url, "http://u:80");
    assert_eq!(route.policies.len(), 1);
    assert_eq!(route.policies[0].stage, PolicyStage::PreUpstream);
    assert_eq!(route.policies[0].key.id, "hdr");
    assert_eq!(route.policies[0].effective_config_json, "{\"a\":1}");
}

#[test]
fn empty_matcher_fields_become_absent_constraints() {
    let mut w = wire_route("pre_upstream", "{}");
    w.route_match = Some(wire::Match {
        path_prefix: s(""),
        methods: Vec::new(),
        host: s("API.example.com"),
    });
    let snapshot = snapshot_of(w);
    let runtime = snapshot_to_runtime(&snapshot, PolicyRegistry::empty()).unwrap();
    let route = &runtime.routes.routes[0];
    assert_eq!(route.path_prefix, None);
    assert!(route.methods.is_empty());
    assert_eq!(route.host, Some(s("API.example.com")));
}

#[test]
fn an_unknown_stage_rejects_the_snapshot() {
    let snapshot = snapshot_of(wire_route("mid_flight", "{}"));
    let err = snapshot_to_runtime(&snapshot, PolicyRegistry::empty()).unwrap_err();
    assert_eq!(err, "invalid stage mid_flight: unsupported stage mid_flight");
}

#[test]
fn invalid_configuration_text_rejects_the_snapshot() {
    let snapshot = snapshot_of(wire_route("pre_upstream", "{not json"));
    let err = snapshot_to_runtime(&snapshot, PolicyRegistry::empty()).unwrap_err();
    assert_eq!(err, "invalid effective_config_json for hdr@1.0.0");
}
