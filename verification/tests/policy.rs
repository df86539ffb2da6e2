use gateway::addheader;
use gateway::errors::{is_conflict_message, ValidationError};
use gateway::json::Json;
use gateway::policy::{PolicyDecision, PolicyKey, PolicyStage};

fn s(v: &str) -> String {
    v.to_string()
}

fn jobj(entries: Vec<(&str, Json)>) -> Json {
    Json::Obj(entries.into_iter().map(|(k, v)| (s(k), v)).collect())
}

fn header_op(name: &str, value: &str, overwrite: bool) -> Json {
    jobj(vec![
        ("name", Json::Str(s(name))),
        ("value", Json::Str(s(value))),
        ("overwrite", Json::Bool(overwrite)),
    ])
}

#[test]
fn stage_names_round_trip() {
    assert_eq!(PolicyStage::PreRoute.as_str(), "pre_route");
    assert_eq!(PolicyStage::PreUpstream.as_str(), "pre_upstream");
    assert_eq!(PolicyStage::PostResponse.as_str(), "post_response");
    assert_eq!(PolicyStage::parse("pre_upstream").unwrap(), PolicyStage::PreUpstream);
    assert_eq!(
        PolicyStage::parse("mid_flight").unwrap_err(),
        "unsupported stage mid_flight"
    );
}

#[test]
fn policy_keys_compare_by_identity() {
    let a = PolicyKey::new(s("hdr"), s("1.0.0"));
    let b = PolicyKey::new(s("hdr"), s("1.0.0"));
    let c = PolicyKey::new(s("hdr"), s("2.0.0"));
    assert!(a == b);
    assert!(!(a == c));
}

#[test]
fn the_default_decision_changes_nothing() {
    let d = PolicyDecision::default();
    assert!(d.request_headers.is_empty());
    assert!(d.request_rewrite.is_none());
    assert!(d.upstream_hint.is_none());
    assert!(d.direct_response.is_none());
    assert!(d.request_body_patch.is_none());
    assert!(d.response_headers.is_empty());
}

#[test]
fn validation_errors_carry_their_details() {
    let e = ValidationError::new(s("one"));
    assert_eq!(e.details, vec![s("one")]);
    let e = ValidationError::with_details(vec![s("a"), s("b")]);
    assert_eq!(e.details, vec![s("a"), s("b")]);
}

#[test]
fn conflict_messages_name_the_violated_key() {
    assert!(is_conflict_message("UNIQUE constraint failed: policies.id"));
    assert!(is_conflict_message("PRIMARY KEY must be unique"));
    assert!(!is_conflict_message("disk I/O error"));
}

#[test]
fn the_header_policy_reads_top_level_operations() {
    let cfg = jobj(vec![(
        "headers",
        Json::Arr(vec![header_op("X-Trace", "on", true)]),
    )]);
    let ops = addheader::evaluate_pre_upstream(&cfg).unwrap();
    assert_eq!(ops.len(), 1);
    assert_eq!(ops[0].name, "X-Trace");
    assert_eq!(ops[0].value, "on");
    assert!(ops[0].overwrite);
}

#[test]
fn the_header_policy_reads_a_wrapped_decision() {
    let cfg = jobj(vec![(
        "policy_decision",
        jobj(vec![
            (
                "request_headers",
                Json::Arr(vec![header_op("X-First", "1", false)]),
            ),
            ("headers", Json::Arr(vec![header_op("X-Second", "2", true)])),
        ]),
    )]);
    let ops = addheader::evaluate_pre_upstream(&cfg).unwrap();
    assert_eq!(ops.len(), 2);
    assert_eq!(ops[0].name, "X-First");
    assert_eq!(ops[1].name, "X-Second");
}

#[test]
fn the_header_policy_rejects_an_empty_operation_list() {
    let cfg = jobj(vec![]);
    assert_eq!(
        addheader::evaluate_pre_upstream(&cfg).unwrap_err(),
        "headers must not be empty"
    );
}

#[test]
fn the_header_policy_rejects_malformed_configuration() {
    let cfg = Json::Arr(Vec::new());
    assert_eq!(
        addheader::evaluate_pre_upstream(&cfg).unwrap_err(),
        "invalid effective config"
    );
    let bad_item = jobj(vec![(
        "headers",
        Json::Arr(vec![jobj(vec![("name", Json::Str(s("x")))])]),
    )]);
    assert!(addheader::evaluate_pre_upstream(&bad_item).is_err());
}
