use temper::json_value::{json_eq, Json};
use temper::jsonc::parse_value;
use temper::jsonc::{json_same, JsoncError};

#[test]
fn json_semantic_compares_values_not_text() {
    let dep = "{\n  // the theme\n  \"b\": [1, 2],\n  \"a\": \"x\",\n}\n";
    assert_eq!(json_same(Some(dep), "{\"a\": \"x\", \"b\": [1, 2]}").unwrap(), Some(true));
    assert_eq!(json_same(Some(dep), "{\"a\": \"y\", \"b\": [1, 2]}").unwrap(), Some(false));
    assert_eq!(json_same(None, "{}").unwrap(), None);
    assert_eq!(json_same(Some("  \n"), "{}").unwrap(), Some(true));
}

#[test]
fn an_unreadable_json_file_is_an_error() {
    match json_same(Some("{\"a\": }"), "{}") {
        Err(e @ JsoncError::Parse(_)) => assert!(e.message().starts_with("parsing JSONC: ")),
        other => panic!("{other:?}"),
    }
    match json_same(Some("{}"), "// only a comment\n") {
        Err(e @ JsoncError::NoValue) => assert_eq!(e.message(), "JSONC contained no value"),
        other => panic!("{other:?}"),
    }
}

#[test]
fn read_tolerates_comments_and_trailing_commas() {
    let src = "{\n  // a comment\n  \"share\": \"disabled\",\n}\n";
    let v = parse_value(src).unwrap();
    assert!(json_eq(&v, &Json::Object(vec![("share".to_string(), Json::Str("disabled".to_string()))])));
}

#[test]
fn parse_value_reads_blank_as_empty_and_names_failures() {
    assert!(json_eq(&parse_value(" \n").unwrap(), &Json::Object(vec![])));
    assert!(parse_value("{ \"a\": ").unwrap_err().starts_with("parsing JSONC: "));
}
