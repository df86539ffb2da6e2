use gateway::engine::{compose_decisions, PolicyRegistry};
use gateway::policy::{
    HeaderMutation, PolicyBinding, PolicyDecision, PolicyKey, PolicyRuntimeError,
    PolicyStage, RequestRewrite,
};
use gateway::proxy::{
    apply_header_mutations, apply_rewrite, build_peer, plan_request,
    validate_supported_pre_upstream_actions, OutgoingRequest, ProxyFault,
};
use gateway::router::{select_upstream, Route, Upstream};

fn s(v: &str) -> String {
    v.to_string()
}

fn decision() -> PolicyDecision {
    PolicyDecision::default()
}

fn header(name: &str, value: &str, overwrite: bool) -> HeaderMutation {
    HeaderMutation { name: s(name), value: s(value), overwrite }
}

fn route_with_upstreams(urls: &[&str]) -> Route {
    Route::new(
        s("r"),
        Some(s("/")),
        Vec::new(),
        None,
        urls.iter().map(|u| Upstream { url: u.to_string() }).collect(),
        Vec::new(),
    )
}

#[test]
fn decisions_compose_with_appended_headers_and_last_writer_wins() {
    let mut first = decision();
    first.request_headers.push(header("X-A", "1", true));
    first.upstream_hint = Some(s("http://a"));
    let mut second = decision();
    second.request_headers.push(header("X-B", "2", false));
    second.upstream_hint = Some(s("http://b"));
    second.request_rewrite = Some(RequestRewrite { method: None, path: Some(s("/new")) });

    let combined = compose_decisions(vec![first, second]);
    assert_eq!(combined.request_headers.len(), 2);
    assert_eq!(combined.request_headers[0].name, "X-A");
    assert_eq!(combined.request_headers[1].name, "X-B");
    assert_eq!(combined.upstream_hint, Some(s("http://b")));
    assert_eq!(combined.request_rewrite.unwrap().path, Some(s("/new")));
}

#[test]
fn unsupported_actions_are_refused() {
    let mut d = decision();
    d.response_headers.push(header("X-Late", "1", false));
    let err = validate_supported_pre_upstream_actions(&d).unwrap_err();
    match err {
        PolicyRuntimeError::UnsupportedDecisionAction { reason } => {
            assert_eq!(
                reason,
                "response header mutations are not supported in pre_upstream"
            );
        },
        other => panic!("unexpected error: {other:?}"),
    }
    assert!(validate_supported_pre_upstream_actions(&decision()).is_ok());
}

#[test]
fn overwriting_replaces_and_appending_adds_lines() {
    let mut headers = vec![
        (s("X-Trace"), s("inbound")),
        (s("Accept"), s("*/*")),
    ];
    let muts = vec![header("x-trace", "on", true), header("X-Extra", "1", false)];
    apply_header_mutations(&mut headers, &muts);
    assert_eq!(
        headers,
        vec![
            (s("Accept"), s("*/*")),
            (s("x-trace"), s("on")),
            (s("X-Extra"), s("1")),
        ]
    );
}

#[test]
fn a_rewrite_replaces_method_and_path() {
    let mut request = OutgoingRequest {
        method: s("GET"),
        path: s("/old"),
        headers: Vec::new(),
    };
    let rewrite = RequestRewrite { method: Some(s("POST")), path: Some(s("/new")) };
    assert!(apply_rewrite(&mut request, &rewrite).is_ok());
    assert_eq!(request.method, "POST");
    assert_eq!(request.path, "/new");
}

#[test]
fn an_invalid_method_refuses_the_rewrite() {
    let mut request = OutgoingRequest {
        method: s("GET"),
        path: s("/old"),
        headers: Vec::new(),
    };
    let rewrite = RequestRewrite { method: Some(s("BAD METHOD")), path: Some(s("/new")) };
    assert_eq!(
        apply_rewrite(&mut request, &rewrite).unwrap_err(),
        ProxyFault::InvalidMethod
    );
    assert_eq!(request.method, "GET");
    assert_eq!(request.path, "/old");
}

#[test]
fn peers_derive_scheme_defaults_and_tls() {
    let p = build_peer("http://u:80").unwrap();
    assert_eq!(p.addr, "u:80");
    assert!(!p.tls);
    assert_eq!(p.sni, "u");

    let p = build_peer("https://example.com").unwrap();
    assert_eq!(p.addr, "example.com:443");
    assert!(p.tls);
    assert_eq!(p.sni, "example.com");

    let p = build_peer("127.0.0.1:9000").unwrap();
    assert_eq!(p.addr, "127.0.0.1:9000");
    assert!(!p.tls);
}

#[test]
fn bad_upstream_urls_are_refused_with_the_reason() {
    assert_eq!(build_peer("http://").unwrap_err(), ProxyFault::InvalidUpstreamUrl);
    assert_eq!(
        build_peer("file:///tmp/sock").unwrap_err(),
        ProxyFault::InvalidUpstreamHost
    );
    assert_eq!(
        build_peer("foo://example.com").unwrap_err(),
        ProxyFault::InvalidUpstreamPort
    );
}

#[test]
fn a_policy_failure_refuses_the_request() {
    let route = route_with_upstreams(&["http://u:80"]);
    let outcomes = vec![
        Ok(decision()),
        Err(PolicyRuntimeError::GuestRejected {
            id: s("p"),
            version: s("1"),
            reason: s("denied"),
        }),
    ];
    assert_eq!(
        plan_request(&route, outcomes, 0).unwrap_err(),
        ProxyFault::PolicyFailed
    );
}

#[test]
fn a_hint_selects_exactly_the_named_upstream() {
    let route = route_with_upstreams(&["http://a:1", "http://b:2"]);
    let mut d = decision();
    d.upstream_hint = Some(s("http://b:2"));
    let (_, peer) = plan_request(&route, vec![Ok(d)], 0).unwrap();
    assert_eq!(peer.addr, "b:2");

    let mut d = decision();
    d.upstream_hint = Some(s("http://missing:9"));
    assert_eq!(
        plan_request(&route, vec![Ok(d)], 0).unwrap_err(),
        ProxyFault::UpstreamHintMismatch
    );
}

#[test]
fn an_empty_upstream_list_refuses_the_request() {
    let route = route_with_upstreams(&[]);
    assert_eq!(
        plan_request(&route, vec![Ok(decision())], 0).unwrap_err(),
        ProxyFault::NoUpstream
    );
}

#[test]
fn round_robin_visits_each_upstream_fairly() {
    let route = route_with_upstreams(&["http://a:1", "http://b:2", "http://c:3"]);
    let mut counts = [0usize; 3];
    for counter in 0..9usize {
        let chosen = select_upstream(&route, counter).unwrap();
        for (i, url) in ["http://a:1", "http://b:2", "http://c:3"].iter().enumerate() {
            if chosen.url == *url {
                counts[i] += 1;
            }
        }
    }
    assert_eq!(counts, [3, 3, 3]);

    let mut counts = [0usize; 3];
    for counter in 5..12usize {
        let chosen = select_upstream(&route, counter).unwrap();
        for (i, url) in ["http://a:1", "http://b:2", "http://c:3"].iter().enumerate() {
            if chosen.url == *url {
                counts[i] += 1;
            }
        }
    }
    counts.sort();
    assert_eq!(counts, [2, 2, 3]);
}

#[test]
fn the_registry_gates_unknown_policies_and_wrong_stages() {
    let registry = PolicyRegistry::from_keys(vec![PolicyKey::new(s("hdr"), s("1"))]);
    let known = PolicyBinding {
        stage: PolicyStage::PreUpstream,
        key: PolicyKey::new(s("hdr"), s("1")),
        effective_config_json: s("{}"),
    };
    assert!(registry.check_binding(&known).is_ok());

    let unknown = PolicyBinding {
        stage: PolicyStage::PreUpstream,
        key: PolicyKey::new(s("ghost"), s("2")),
        effective_config_json: s("{}"),
    };
    assert!(matches!(
        registry.check_binding(&unknown),
        Err(PolicyRuntimeError::UnknownPolicy { .. })
    ));

    let wrong_stage = PolicyBinding {
        stage: PolicyStage::PostResponse,
        key: PolicyKey::new(s("hdr"), s("1")),
        effective_config_json: s("{}"),
    };
    match registry.check_binding(&wrong_stage) {
        Err(PolicyRuntimeError::UnsupportedStage { stage, .. }) => {
            assert_eq!(stage, "post_response");
        },
        other => panic!("unexpected result: {other:?}"),
    }
}
