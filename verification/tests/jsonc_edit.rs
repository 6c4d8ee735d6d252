use serde_json::Value as Json;
use temper::jsonc_edit::jsonc_set;

fn at(text: &str, path: &[&str]) -> Json {
    let mut cur: Json = jsonc_parser::parse_to_serde_value(text, &Default::default()).unwrap();
    for p in path {
        cur = cur.as_object().unwrap().get(*p).cloned().unwrap();
    }
    cur
}

fn set(text: &str, path: &[&str], value: &Json, append: bool) -> Result<String, String> {
    let parts: Vec<String> = path.iter().map(|p| p.to_string()).collect();
    jsonc_set(text, &parts, &serde_json::to_string(value).unwrap(), append)
}

#[test]
fn replace_existing_leaf_preserves_comments_and_siblings() {
    let src = "{\n  \"$schema\": \"x\",\n  // keep me\n  \"share\": \"auto\"\n}\n";
    let out = set(src, &["share"], &Json::from("disabled"), false).unwrap();
    assert!(out.contains("// keep me"), "comment lost:\n{out}");
    assert!(out.contains("\"$schema\": \"x\""), "sibling lost:\n{out}");
    assert_eq!(at(&out, &["share"]), Json::from("disabled"));
}

#[test]
fn create_deep_path_when_parents_absent() {
    let src = "{\n  // header\n  \"share\": \"disabled\"\n}\n";
    let out = set(src, &["mcp", "searxng", "type"], &Json::from("local"), false).unwrap();
    assert!(out.contains("// header"), "comment lost:\n{out}");
    assert_eq!(at(&out, &["mcp", "searxng", "type"]), Json::from("local"));
    assert_eq!(at(&out, &["share"]), Json::from("disabled"));
}

#[test]
fn insert_new_key_into_existing_object() {
    let src = "{\n  \"a\": 1\n}\n";
    let out = set(src, &["b"], &Json::from(2), false).unwrap();
    assert_eq!(at(&out, &["a"]), Json::from(1));
    assert_eq!(at(&out, &["b"]), Json::from(2));
}

#[test]
fn empty_file_becomes_an_object() {
    let out = set("", &["share"], &Json::from("disabled"), false).unwrap();
    assert_eq!(at(&out, &["share"]), Json::from("disabled"));
}

#[test]
fn append_unions_into_array_and_creates_it() {
    let out = set("{\n  \"x\": 1\n}\n", &["plugins"], &Json::from("p"), true).unwrap();
    assert_eq!(at(&out, &["plugins"]), Json::Array(vec![Json::from("p")]));
    let src = "{\n  \"plugins\": [\n    // first\n    \"a\"\n  ]\n}\n";
    let out2 = set(src, &["plugins"], &Json::from("b"), true).unwrap();
    assert!(out2.contains("// first"), "comment lost:\n{out2}");
    assert_eq!(at(&out2, &["plugins"]), Json::Array(vec![Json::from("a"), Json::from("b")]));
}

#[test]
fn object_value_is_supported() {
    let mut m = serde_json::Map::new();
    m.insert("type".to_string(), Json::from("local"));
    m.insert("url".to_string(), Json::from("http://x"));
    let val = Json::Object(m);
    let out = set("{}\n", &["mcp", "searxng"], &val, false).unwrap();
    assert_eq!(at(&out, &["mcp", "searxng", "type"]), Json::from("local"));
    assert_eq!(at(&out, &["mcp", "searxng", "url"]), Json::from("http://x"));
}

#[test]
fn descending_into_a_scalar_errors() {
    assert!(set("{ \"a\": \"s\" }", &["a", "b"], &Json::from(1), false).is_err());
}

#[test]
fn utf8_comment_survives() {
    let src = "{\n  // sæt standardmodellen — æøå\n  \"share\": \"auto\"\n}\n";
    let out = set(src, &["share"], &Json::from("disabled"), false).unwrap();
    assert!(out.contains("æøå"), "utf8 comment lost:\n{out}");
    assert_eq!(at(&out, &["share"]), Json::from("disabled"));
}

#[test]
fn set_splices_exactly() {
    assert_eq!(set("{\"a\": 1}", &["a"], &Json::from(2), false).unwrap(), "{\"a\": 2}");
    assert_eq!(set("{}", &["k"], &Json::from(true), false).unwrap(), "{ \"k\": true }");
    assert_eq!(set("{\"a\": 1,}", &["b"], &Json::from(2), false).unwrap(), "{\"a\": 1, \"b\": 2}");
    assert_eq!(set("{\"l\": []}", &["l"], &Json::from(1), true).unwrap(), "{\"l\": [1]}");
    assert_eq!(set("{}", &["a", "b"], &Json::from(1), true).unwrap(), "{ \"a\": { \"b\": [1] } }");
}

#[test]
fn set_refusals_name_the_problem() {
    assert_eq!(jsonc_set("{}", &[], "1", false), Err("setkey json: empty key".to_string()));
    assert_eq!(set("[1]", &["a"], &Json::from(1), false), Err("setkey json: the top level is not an object".to_string()));
    assert_eq!(
        set("{\"a\": 1}", &["a", "b"], &Json::from(1), false),
        Err("setkey json: intermediate key `a` is not an object".to_string())
    );
    assert_eq!(set("{\"a\": 1}", &["a"], &Json::from(1), true), Err("setkey append: `a` is not an array".to_string()));
    assert!(set("{\"a\": ", &["a"], &Json::from(1), false).unwrap_err().starts_with("target is not valid JSONC: "));
}
