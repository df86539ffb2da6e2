use gateway::json::Json;
use gateway::json_text::to_json_text;
use gateway::merge::deep_merge_default_with_params;

fn s(v: &str) -> String {
    v.to_string()
}

fn jstr(v: &str) -> Json {
    Json::Str(s(v))
}

fn jobj(entries: Vec<(&str, Json)>) -> Json {
    Json::Obj(entries.into_iter().map(|(k, v)| (s(k), v)).collect())
}

fn jarr(items: Vec<Json>) -> Json {
    Json::Arr(items)
}

fn text(v: &Json) -> String {
    to_json_text(v)
}

#[test]
fn deep_merge_keeps_existing_nested_keys() {
    let defaults = jobj(vec![
        (
            "auth",
            jobj(vec![
                ("issuer", jstr("https://issuer")),
                ("required_scopes", jarr(vec![jstr("read")])),
            ]),
        ),
        ("audience", jstr("gateway")),
    ]);
    let params = jobj(vec![(
        "auth",
        jobj(vec![("required_scopes", jarr(vec![jstr("read"), jstr("write")]))]),
    )]);

    let merged = deep_merge_default_with_params(&defaults, Some(&params), "policy")
        .expect("merge failed");

    let expected = jobj(vec![
        (
            "auth",
            jobj(vec![
                ("issuer", jstr("https://issuer")),
                ("required_scopes", jarr(vec![jstr("read"), jstr("write")])),
            ]),
        ),
        ("audience", jstr("gateway")),
    ]);
    assert_eq!(text(&merged), text(&expected));
}

#[test]
fn arrays_are_replaced_instead_of_appended() {
    let defaults = jobj(vec![("scopes", jarr(vec![jstr("read")]))]);
    let params = jobj(vec![("scopes", jarr(vec![jstr("write")]))]);

    let merged = deep_merge_default_with_params(&defaults, Some(&params), "policy")
        .expect("merge failed");
    assert_eq!(text(&merged), text(&jobj(vec![("scopes", jarr(vec![jstr("write")]))])));
}

#[test]
fn merge_with_absent_params_returns_the_default() {
    let defaults = jobj(vec![("a", jstr("x")), ("b", Json::Bool(true))]);
    let merged =
        deep_merge_default_with_params(&defaults, None, "policy").expect("merge failed");
    assert_eq!(text(&merged), text(&defaults));
}

#[test]
fn merge_adds_keys_only_in_params() {
    let defaults = jobj(vec![("a", jstr("x"))]);
    let params = jobj(vec![("b", jstr("y"))]);
    let merged = deep_merge_default_with_params(&defaults, Some(&params), "policy")
        .expect("merge failed");
    assert_eq!(
        text(&merged),
        text(&jobj(vec![("a", jstr("x")), ("b", jstr("y"))]))
    );
}

#[test]
fn merge_rejects_non_object_default() {
    let defaults = jarr(vec![jstr("read")]);
    let err = deep_merge_default_with_params(&defaults, None, "policy")
        .expect_err("expected failure");
    assert_eq!(err.details.len(), 1);
    assert_eq!(err.details[0], "policy.default_config must be a JSON object");
}

#[test]
fn merge_rejects_non_object_params() {
    let defaults = jobj(vec![]);
    let params = jstr("nope");
    let err = deep_merge_default_with_params(&defaults, Some(&params), "policy")
        .expect_err("expected failure");
    assert_eq!(err.details.len(), 1);
    assert_eq!(err.details[0], "policy.params must be a JSON object");
}

#[test]
fn scalars_in_params_overwrite_nested_defaults() {
    let defaults = jobj(vec![
        (
            "auth",
            jobj(vec![("issuer", jstr("X")), ("scopes", jarr(vec![jstr("r")]))]),
        ),
        ("aud", jstr("g")),
    ]);
    let params = jobj(vec![(
        "auth",
        jobj(vec![("scopes", jarr(vec![jstr("r"), jstr("w")]))]),
    )]);
    let merged = deep_merge_default_with_params(&defaults, Some(&params), "policy")
        .expect("merge failed");
    let expected = jobj(vec![
        (
            "auth",
            jobj(vec![
                ("issuer", jstr("X")),
                ("scopes", jarr(vec![jstr("r"), jstr("w")])),
            ]),
        ),
        ("aud", jstr("g")),
    ]);
    assert_eq!(text(&merged), text(&expected));
}
