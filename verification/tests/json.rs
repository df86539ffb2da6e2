use gateway::json::Json;
use gateway::json_text::to_json_text;

fn s(v: &str) -> String {
    v.to_string()
}

#[test]
fn scalars_render_as_their_literals() {
    assert_eq!(to_json_text(&Json::Null), "null");
    assert_eq!(to_json_text(&Json::Bool(true)), "true");
    assert_eq!(to_json_text(&Json::Bool(false)), "false");
    assert_eq!(to_json_text(&Json::Num(s("42"))), "42");
    assert_eq!(to_json_text(&Json::Num(s("-1.5e3"))), "-1.5e3");
}

#[test]
fn containers_render_with_separators_and_no_spaces() {
    let doc = Json::Obj(vec![
        (s("a"), Json::Arr(vec![Json::Num(s("1")), Json::Null])),
        (s("b"), Json::Obj(Vec::new())),
    ]);
    assert_eq!(to_json_text(&doc), "{\"a\":[1,null],\"b\":{}}");
    assert_eq!(to_json_text(&Json::Arr(Vec::new())), "[]");
}

#[test]
fn strings_escape_quotes_backslashes_and_controls() {
    assert_eq!(
        to_json_text(&Json::Str(s("a\"b\\c\nd\te\u{1}f"))),
        "\"a\\\"b\\\\c\\nd\\te\\u0001f\""
    );
}

#[test]
fn rendered_documents_parse_back_as_the_same_value() {
    let doc = Json::Obj(vec![
        (s("text"), Json::Str(s("line1\nline2 \"quoted\""))),
        (s("list"), Json::Arr(vec![Json::Bool(false), Json::Num(s("3.25"))])),
    ]);
    let rendered = to_json_text(&doc);
    let parsed: serde_json::Value = serde_json::from_str(&rendered).unwrap();
    assert_eq!(parsed["text"], "line1\nline2 \"quoted\"");
    assert_eq!(parsed["list"][1], 3.25);
}

#[test]
fn deep_clone_preserves_the_rendering() {
    let doc = Json::Obj(vec![(
        s("k"),
        Json::Arr(vec![Json::Str(s("v")), Json::Obj(vec![(s("n"), Json::Num(s("7")))])]),
    )]);
    assert_eq!(to_json_text(&doc.deep_clone()), to_json_text(&doc));
}

#[test]
fn is_object_distinguishes_objects() {
    assert!(Json::Obj(Vec::new()).is_object());
    assert!(!Json::Arr(Vec::new()).is_object());
    assert!(!Json::Null.is_object());
}
