use extension_installer::json::{parse_json, to_pretty_text, JsonValue, Member};

fn text(s: &str) -> JsonValue {
    JsonValue::Text(s.to_string())
}

fn member(key: &str, value: JsonValue) -> Member {
    Member { key: key.to_string(), value }
}

#[test]
fn parse_reads_object_members() {
    let value = parse_json("{\"name\":\"foo\",\"version\":\"1.2.0\"}").unwrap();
    assert_eq!(value.str_field("name"), Some("foo"));
    assert_eq!(value.str_field("version"), Some("1.2.0"));
    assert_eq!(value.str_field("main"), None);
}

#[test]
fn parse_gives_the_document_as_plain_data() {
    let value = parse_json("{\"b\":[null,true,\"x\"],\"a\":{\"k\":false}}").unwrap();
    let expected = JsonValue::Object(vec![
        member("a", JsonValue::Object(vec![member("k", JsonValue::Bool(false))])),
        member(
            "b",
            JsonValue::List(vec![JsonValue::Null, JsonValue::Bool(true), text("x")]),
        ),
    ]);
    assert_eq!(value, expected);
}

#[test]
fn parse_keeps_numbers() {
    let value = parse_json("[1,-2,3.5]").unwrap();
    let expected = JsonValue::List(vec![
        JsonValue::Number(serde_json::Number::from(1u64)),
        JsonValue::Number(serde_json::Number::from(-2i64)),
        JsonValue::Number(serde_json::Number::from_f64(3.5).unwrap()),
    ]);
    assert_eq!(value, expected);
}

#[test]
fn parse_rejects_broken_text() {
    let error = parse_json("{\"name\":").unwrap_err();
    assert!(!error.message.is_empty());
    assert!(parse_json("").is_err());
    assert!(parse_json("[1,2] tail").is_err());
}

#[test]
fn pretty_text_prints_members_sorted_by_key() {
    let value = JsonValue::Object(vec![
        member("b", JsonValue::Bool(true)),
        member("a", text("x")),
    ]);
    assert_eq!(to_pretty_text(&value).unwrap(), "{\n  \"a\": \"x\",\n  \"b\": true\n}");
}

#[test]
fn pretty_text_of_simple_values() {
    assert_eq!(to_pretty_text(&JsonValue::Null).unwrap(), "null");
    assert_eq!(to_pretty_text(&JsonValue::List(vec![])).unwrap(), "[]");
    assert_eq!(to_pretty_text(&text("a\"b")).unwrap(), "\"a\\\"b\"");
    assert_eq!(
        to_pretty_text(&JsonValue::List(vec![JsonValue::Bool(false), text("x")])).unwrap(),
        "[\n  false,\n  \"x\"\n]"
    );
}

#[test]
fn pretty_text_round_trips_through_parse() {
    let source = "{\"n\":[1,2.5,-7],\"s\":\"é\",\"o\":{\"x\":null}}";
    let value = parse_json(source).unwrap();
    let printed = to_pretty_text(&value).unwrap();
    assert_eq!(parse_json(&printed).unwrap(), value);
    assert_ne!(printed, source);
}

#[test]
fn get_finds_members_of_objects_only() {
    let value = JsonValue::Object(vec![member("a", text("x")), member("b", JsonValue::Null)]);
    assert_eq!(value.get("a"), Some(&text("x")));
    assert_eq!(value.get("b"), Some(&JsonValue::Null));
    assert_eq!(value.get("c"), None);
    assert_eq!(text("a").get("a"), None);
    assert_eq!(JsonValue::List(vec![text("a")]).get("a"), None);
}

#[test]
fn get_takes_the_last_of_equal_keys() {
    let value = JsonValue::Object(vec![member("a", text("first")), member("a", text("last"))]);
    assert_eq!(value.get("a"), Some(&text("last")));
    assert_eq!(to_pretty_text(&value).unwrap(), "{\n  \"a\": \"last\"\n}");
}

#[test]
fn as_str_gives_text_of_strings_only() {
    assert_eq!(text("x").as_str(), Some("x"));
    assert_eq!(JsonValue::Null.as_str(), None);
    assert_eq!(JsonValue::Bool(true).as_str(), None);
    assert_eq!(JsonValue::Number(serde_json::Number::from(1u64)).as_str(), None);
}

#[test]
fn str_field_needs_a_string_member() {
    let value = JsonValue::Object(vec![
        member("name", text("foo")),
        member("version", JsonValue::Number(serde_json::Number::from(2u64))),
    ]);
    assert_eq!(value.str_field("name"), Some("foo"));
    assert_eq!(value.str_field("version"), None);
    assert_eq!(value.str_field("main"), None);
    assert_eq!(JsonValue::Null.str_field("name"), None);
}
