use gateway::router::{match_route, normalize_host, Route, RouteSnapshot, Upstream};

fn route(id: &str, path: Option<&str>, methods: &[&str], host: Option<&str>) -> Route {
    Route::new(
        id.to_string(),
        path.map(|p| p.to_string()),
        methods.iter().map(|m| m.to_string()).collect(),
        host.map(|h| h.to_string()),
        vec![Upstream { url: "http://127.0.0.1:9000".to_string() }],
        Vec::new(),
    )
}

#[test]
fn selects_longest_path_prefix() {
    let snapshot = RouteSnapshot {
        routes: vec![
            route("generic", Some("/v1/users"), &["GET"], None),
            route("specific", Some("/v1/users/profile"), &["GET"], None),
        ],
    };

    let selected = match_route(&snapshot, "/v1/users/profile", "GET", None).unwrap();
    assert_eq!(selected.id, "specific");
}

#[test]
fn selects_method_specific_over_wildcard() {
    let snapshot = RouteSnapshot {
        routes: vec![
            route("any", Some("/v1/resource"), &[], None),
            route("get", Some("/v1/resource"), &["GET"], None),
        ],
    };

    let selected = match_route(&snapshot, "/v1/resource", "GET", None).unwrap();
    assert_eq!(selected.id, "get");
}

#[test]
fn selects_host_specific_over_wildcard() {
    let snapshot = RouteSnapshot {
        routes: vec![
            route("any-host", Some("/v1/resource"), &["GET"], None),
            route(
                "host-a",
                Some("/v1/resource"),
                &["GET"],
                Some("api.example.com"),
            ),
        ],
    };

    let selected = match_route(
        &snapshot,
        "/v1/resource",
        "GET",
        Some("api.example.com:443"),
    )
    .unwrap();
    assert_eq!(selected.id, "host-a");
}

#[test]
fn tie_breaks_by_route_id_for_stability() {
    let snapshot = RouteSnapshot {
        routes: vec![
            route("route-b", Some("/v1/resource"), &["GET"], None),
            route("route-a", Some("/v1/resource"), &["GET"], None),
        ],
    };

    let selected = match_route(&snapshot, "/v1/resource", "GET", None).unwrap();
    assert_eq!(selected.id, "route-a");
}

#[test]
fn no_route_matches_a_foreign_path() {
    let snapshot = RouteSnapshot {
        routes: vec![route("a", Some("/v1"), &["GET"], None)],
    };
    assert!(match_route(&snapshot, "/v2/x", "GET", None).is_none());
}

#[test]
fn methods_match_case_insensitively() {
    let snapshot = RouteSnapshot {
        routes: vec![route("a", Some("/v1"), &["get"], None)],
    };
    let selected = match_route(&snapshot, "/v1/x", "GET", None).unwrap();
    assert_eq!(selected.id, "a");
}

#[test]
fn a_host_requirement_rejects_requests_without_a_host() {
    let snapshot = RouteSnapshot {
        routes: vec![route("a", Some("/v1"), &["GET"], Some("api.example.com"))],
    };
    assert!(match_route(&snapshot, "/v1/x", "GET", None).is_none());
}

#[test]
fn normalize_host_lowercases_and_strips_the_port() {
    assert_eq!(normalize_host("API.Example.Com:443"), "api.example.com");
    assert_eq!(normalize_host("  host.example  "), "host.example");
    assert_eq!(normalize_host("[::1]:8080"), "[::1]");
    assert_eq!(normalize_host("plain"), "plain");
}

#[test]
fn longest_prefix_wins_for_non_ascii_paths_too() {
    let snapshot = RouteSnapshot {
        routes: vec![
            route("root", Some("/"), &[], None),
            route("accented", Some("/\u{00e9}"), &[], None),
        ],
    };
    let selected = match_route(&snapshot, "/\u{00e9}x", "GET", None).unwrap();
    assert_eq!(selected.id, "accented");
}

#[test]
fn a_static_snapshot_serves_the_default_route() {
    let snapshot = RouteSnapshot::from_static();
    let selected = match_route(&snapshot, "/anything", "GET", None).unwrap();
    assert_eq!(selected.id, "default");
    assert!(match_route(&snapshot, "/anything", "POST", None).is_none());
}
