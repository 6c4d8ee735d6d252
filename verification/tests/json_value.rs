use temper::toml_value::{read_root as toml_root, toml_get, toml_satisfied, Toml};
use temper::json_value::{json_apply, json_eq, json_get, json_satisfied, json_set, read_root, Json, JsonApplyError, SetKeyError};
use temper::primitives::{defaults_matches, DefaultsWant};

fn s(x: &str) -> String {
    x.to_string()
}

fn path(p: &str) -> Vec<String> {
    p.split('.').map(String::from).collect()
}

fn obj(members: Vec<(&str, Json)>) -> Json {
    Json::Object(members.into_iter().map(|(k, v)| (s(k), v)).collect())
}

fn num(n: &str) -> Json {
    Json::Number(s(n))
}

#[test]
fn get_walks_objects_only() {
    let root = obj(vec![("a", obj(vec![("b", num("1"))])), ("c", Json::Array(vec![num("2")]))]);
    assert!(json_eq(json_get(&root, &path("a.b")).unwrap(), &num("1")));
    assert!(json_get(&root, &path("a.x")).is_none());
    assert!(json_get(&root, &path("c.0")).is_none());
}

#[test]
fn satisfied_compares_or_looks_in_the_array() {
    let root = obj(vec![("editor", obj(vec![("fontSize", num("14"))])), ("plugins", Json::Array(vec![Json::Str(s("a"))]))]);
    assert!(json_satisfied(&root, &path("editor.fontSize"), &num("14"), false));
    assert!(!json_satisfied(&root, &path("editor.fontSize"), &num("14.0"), false));
    assert!(!json_satisfied(&root, &path("editor.missing"), &Json::Null, false));
    assert!(json_satisfied(&root, &path("plugins"), &Json::Str(s("a")), true));
    assert!(!json_satisfied(&root, &path("plugins"), &Json::Str(s("b")), true));
    assert!(!json_satisfied(&root, &path("editor"), &num("14"), true));
}

#[test]
fn set_creates_the_objects_a_deep_path_needs() {
    let root = obj(vec![("keep", Json::Bool(true))]);
    let out = json_set(root, &path("mcp.searxng.type"), Json::Str(s("local")), false).unwrap();
    assert!(json_satisfied(&out, &path("mcp.searxng.type"), &Json::Str(s("local")), false));
    assert!(json_satisfied(&out, &path("keep"), &Json::Bool(true), false));
}

#[test]
fn set_replaces_an_existing_value() {
    let root = obj(vec![("a", num("1")), ("b", num("2"))]);
    let out = json_set(root, &path("a"), num("3"), false).unwrap();
    assert!(json_eq(&out, &obj(vec![("a", num("3")), ("b", num("2"))])));
}

#[test]
fn append_unions_into_the_array() {
    let root = obj(vec![]);
    let once = json_set(root, &path("list"), Json::Str(s("x")), true).unwrap();
    assert!(json_eq(&once, &obj(vec![("list", Json::Array(vec![Json::Str(s("x"))]))])));
    let twice = json_set(once, &path("list"), Json::Str(s("x")), true).unwrap();
    assert!(json_eq(&twice, &obj(vec![("list", Json::Array(vec![Json::Str(s("x"))]))])));
    let more = json_set(twice, &path("list"), Json::Str(s("y")), true).unwrap();
    assert!(json_eq(&more, &obj(vec![("list", Json::Array(vec![Json::Str(s("x")), Json::Str(s("y"))]))])));
}

#[test]
fn set_refuses_to_clobber() {
    let root = obj(vec![("a", num("1"))]);
    let e = json_set(root, &path("a.b"), num("2"), false).unwrap_err();
    assert_eq!(e, SetKeyError::IntermediateNotObject(s("a")));
    assert_eq!(e.message(), "setkey json: intermediate key `a` is not an object");
    let root = obj(vec![("a", num("1"))]);
    let e = json_set(root, &path("a"), num("2"), true).unwrap_err();
    assert_eq!(e.message(), "setkey append: `a` is not an array");
    let e = json_set(Json::Array(vec![]), &path("a"), num("2"), false).unwrap_err();
    assert_eq!(e.message(), "setkey json: `a` is not an object");
}

#[test]
fn defaults_bools_are_one_and_zero() {
    assert!(defaults_matches("1", &DefaultsWant::Bool(true)));
    assert!(!defaults_matches("true", &DefaultsWant::Bool(true)));
    assert!(defaults_matches("0", &DefaultsWant::Bool(false)));
    assert!(defaults_matches("42", &DefaultsWant::Text(s("42"))));
    assert!(!defaults_matches("42", &DefaultsWant::Text(s("43"))));
}

#[test]
fn apply_writes_pretty_json_only_when_needed() {
    let out = json_apply("", &path("editor.fontSize"), num("14"), false).unwrap().unwrap();
    assert_eq!(out, "{\n  \"editor\": {\n    \"fontSize\": 14\n  }\n}\n");
    assert_eq!(json_apply(&out, &path("editor.fontSize"), num("14"), false).unwrap(), None);
    let more = json_apply(&out, &path("editor.tabSize"), num("2"), false).unwrap().unwrap();
    let root = read_root(&more).unwrap();
    assert!(json_satisfied(&root, &path("editor.fontSize"), &num("14"), false));
    assert!(json_satisfied(&root, &path("editor.tabSize"), &num("2"), false));
}

#[test]
fn apply_refuses_what_it_would_clobber() {
    assert_eq!(json_apply("[1, 2]", &path("a"), num("1"), false), Err(JsonApplyError::RootNotObject));
    assert!(matches!(json_apply("{ not json", &path("a"), num("1"), false), Err(JsonApplyError::Parse(_))));
    assert_eq!(
        json_apply("{\"a\": 1}", &path("a.b"), num("1"), false),
        Err(JsonApplyError::Edit(SetKeyError::IntermediateNotObject(s("a"))))
    );
}

#[test]
fn read_root_reads_blank_as_an_empty_object() {
    assert!(json_eq(&read_root("  \n").unwrap(), &obj(vec![])));
    assert!(json_eq(&read_root("{\"x\": [true, null, 1.5]}").unwrap(), &obj(vec![("x", Json::Array(vec![Json::Bool(true), Json::Null, num("1.5")]))])));
}

#[test]
fn toml_drift_check_reads_paths_in_tables() {
    let root = toml_root("[tool]\nname = \"a\" # note\nlist = [\"x\", 2]\nwhen = 1979-05-27\n").unwrap();
    let p = |x: &str| -> Vec<String> { x.split('.').map(String::from).collect() };
    assert!(toml_satisfied(&root, &p("tool.name"), &Toml::Str(s("a")), false));
    assert!(!toml_satisfied(&root, &p("tool.name"), &Toml::Str(s("b")), false));
    assert!(toml_satisfied(&root, &p("tool.list"), &Toml::Integer(s("2")), true));
    assert!(!toml_satisfied(&root, &p("tool.list"), &Toml::Str(s("2")), true));
    assert!(!toml_satisfied(&root, &p("tool.when"), &Toml::Str(s("1979-05-27")), false));
    assert!(toml_get(&root, &p("tool.missing")).is_none());
    assert!(toml_get(&root, &p("tool.name.deeper")).is_none());
    let empty = toml_root("  ").unwrap();
    assert!(!toml_satisfied(&empty, &p("a"), &Toml::Boolean(true), false));
    assert!(toml_root("[tool\n").is_err());
}
