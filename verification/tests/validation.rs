use gateway::json::Json;
use gateway::model::{
    default_config_schema, default_policy_config, default_supported_stages, PolicySpec,
    RoutePolicy, RouteSpec,
};
use gateway::validation::{
    validate_policy_spec, validate_route_policies, validate_supported_stages,
};

fn s(v: &str) -> String {
    v.to_string()
}

fn jobj(entries: Vec<(&str, Json)>) -> Json {
    Json::Obj(entries.into_iter().map(|(k, v)| (s(k), v)).collect())
}

fn stages(names: &[&str]) -> Vec<String> {
    names.iter().map(|n| n.to_string()).collect()
}

fn policy(id: &str, version: &str, supported: &[&str]) -> PolicySpec {
    PolicySpec {
        id: s(id),
        version: s(version),
        wasm_uri: s("file:///p/authn.wasm"),
        sha256: s("ab12"),
        supported_stages: stages(supported),
        config_schema: default_config_schema(),
        default_config: default_policy_config(),
    }
}

fn route_with_binding(stage: &str, id: &str, version: &str) -> RouteSpec {
    RouteSpec {
        id: s("r"),
        match_rules: jobj(vec![("path_prefix", Json::Str(s("/v1")))]),
        upstreams: Vec::new(),
        lb: None,
        failover: None,
        policies: vec![RoutePolicy {
            stage: s(stage),
            id: s(id),
            version: s(version),
            params: None,
        }],
    }
}

#[test]
fn recognized_stages_are_accepted() {
    let r = validate_supported_stages(&stages(&["pre_upstream"]), "policy");
    assert!(r.is_ok());
    let r = validate_supported_stages(&default_supported_stages(), "policy");
    assert!(r.is_ok());
}

#[test]
fn empty_stages_are_rejected_with_a_message() {
    let err = validate_supported_stages(&Vec::new(), "policy").unwrap_err();
    assert_eq!(err.details, vec![s("policy.supported_stages must not be empty")]);
}

#[test]
fn unrecognized_stages_are_each_reported() {
    let err =
        validate_supported_stages(&stages(&["pre_route", "nope", "bad"]), "policy")
            .unwrap_err();
    assert_eq!(
        err.details,
        vec![
            s("policy.supported_stages contains unsupported stage nope"),
            s("policy.supported_stages contains unsupported stage bad"),
        ]
    );
}

#[test]
fn a_well_formed_policy_is_accepted() {
    let p = policy("authn", "1.0.0", &["pre_upstream"]);
    assert!(validate_policy_spec(&p).is_ok());
}

#[test]
fn an_empty_digest_is_rejected() {
    let mut p = policy("authn", "1.0.0", &["pre_upstream"]);
    p.sha256 = s("   ");
    let err = validate_policy_spec(&p).unwrap_err();
    assert_eq!(err.details, vec![s("policy.sha256 must not be empty")]);
}

#[test]
fn a_non_object_default_config_is_rejected() {
    let mut p = policy("authn", "1.0.0", &["pre_upstream"]);
    p.default_config = Json::Str(s("nope"));
    let err = validate_policy_spec(&p).unwrap_err();
    assert_eq!(err.details, vec![s("policy.default_config must be a JSON object")]);
}

#[test]
fn early_problems_are_reported_together() {
    let mut p = policy("authn", "1.0.0", &["weird"]);
    p.sha256 = s("");
    p.default_config = Json::Null;
    let err = validate_policy_spec(&p).unwrap_err();
    assert_eq!(
        err.details,
        vec![
            s("policy.sha256 must not be empty"),
            s("policy.default_config must be a JSON object"),
            s("policy.supported_stages contains unsupported stage weird"),
        ]
    );
}

#[test]
fn a_default_config_violating_its_schema_is_rejected() {
    let mut p = policy("authn", "1.0.0", &["pre_upstream"]);
    p.config_schema = jobj(vec![
        ("type", Json::Str(s("object"))),
        (
            "required",
            Json::Arr(vec![Json::Str(s("issuer"))]),
        ),
    ]);
    let err = validate_policy_spec(&p).unwrap_err();
    assert_eq!(err.details.len(), 1);
    assert!(err.details[0].starts_with("policy.default_config"));
}

#[test]
fn a_schema_that_does_not_compile_is_rejected() {
    let mut p = policy("authn", "1.0.0", &["pre_upstream"]);
    p.config_schema = jobj(vec![("type", Json::Str(s("not-a-type")))]);
    let err = validate_policy_spec(&p).unwrap_err();
    assert_eq!(err.details.len(), 1);
    assert!(err.details[0].starts_with("policy.config_schema is invalid:"));
}

#[test]
fn a_binding_to_a_disallowed_stage_is_rejected() {
    let policies = vec![policy("authn", "1.0.0", &["pre_upstream"])];
    let route = route_with_binding("pre_route", "authn", "1.0.0");
    let err = validate_route_policies(&route, &policies).unwrap_err();
    assert_eq!(
        err.details,
        vec![s("route.policies[0]: stage pre_route not allowed for authn@1.0.0")]
    );
}

#[test]
fn a_binding_to_an_unknown_policy_is_rejected() {
    let policies = vec![policy("authn", "1.0.0", &["pre_upstream"])];
    let route = route_with_binding("pre_upstream", "authz", "2.0.0");
    let err = validate_route_policies(&route, &policies).unwrap_err();
    assert_eq!(
        err.details,
        vec![s("route.policies[0]: policy authz@2.0.0 not found")]
    );
}

#[test]
fn non_object_params_are_rejected() {
    let policies = vec![policy("authn", "1.0.0", &["pre_upstream"])];
    let mut route = route_with_binding("pre_upstream", "authn", "1.0.0");
    route.policies[0].params = Some(Json::Str(s("nope")));
    let err = validate_route_policies(&route, &policies).unwrap_err();
    assert_eq!(
        err.details,
        vec![s("route.policies[0].params must be a JSON object")]
    );
}

#[test]
fn a_well_formed_binding_is_accepted() {
    let policies = vec![policy("authn", "1.0.0", &["pre_upstream"])];
    let mut route = route_with_binding("pre_upstream", "authn", "1.0.0");
    route.policies[0].params = Some(jobj(vec![("extra", Json::Bool(true))]));
    assert!(validate_route_policies(&route, &policies).is_ok());
}

#[test]
fn an_effective_config_violating_the_schema_is_rejected() {
    let mut p = policy("authn", "1.0.0", &["pre_upstream"]);
    p.config_schema = jobj(vec![
        ("type", Json::Str(s("object"))),
        (
            "properties",
            jobj(vec![("level", jobj(vec![("type", Json::Str(s("string")))]))]),
        ),
    ]);
    let mut route = route_with_binding("pre_upstream", "authn", "1.0.0");
    route.policies[0].params = Some(jobj(vec![("level", Json::Bool(true))]));
    let err = validate_route_policies(&route, &policies_of(p)).unwrap_err();
    assert_eq!(err.details.len(), 1);
    assert!(err.details[0].starts_with("route.policies[0].params"));
}

fn policies_of(p: PolicySpec) -> Vec<PolicySpec> {
    vec![p]
}
