use extension_installer::json::{parse_json, JsonValue, Member};
use extension_installer::registry::Registry;

fn record(name: &str, origin: &str) -> JsonValue {
    JsonValue::Object(vec![
        Member { key: "name".to_string(), value: JsonValue::Text(name.to_string()) },
        Member { key: "origin".to_string(), value: JsonValue::Text(origin.to_string()) },
    ])
}

fn names(registry: &Registry) -> Vec<String> {
    (0..registry.len()).map(|i| registry.name_at(i).to_string()).collect()
}

#[test]
fn new_registry_is_empty() {
    let registry = Registry::new();
    assert_eq!(registry.len(), 0);
    assert_eq!(registry.get("foo"), None);
    assert_eq!(registry.render().unwrap(), "[]");
}

#[test]
fn merge_keeps_names_in_ascending_order() {
    let mut registry = Registry::new();
    for name in ["m", "b", "z", "a", "ma", "B"] {
        registry.merge(name.to_string(), record(name, "/ext"));
    }
    assert_eq!(names(&registry), vec!["B", "a", "b", "m", "ma", "z"]);
}

#[test]
fn merge_replaces_the_record_of_a_name() {
    let mut registry = Registry::new();
    registry.merge("foo".to_string(), record("foo", "/old"));
    registry.merge("bar".to_string(), record("bar", "/bar"));
    registry.merge("foo".to_string(), record("foo", "/new"));
    assert_eq!(registry.len(), 2);
    assert_eq!(registry.get("foo"), Some(&record("foo", "/new")));
    assert_eq!(registry.get("bar"), Some(&record("bar", "/bar")));
    assert_eq!(registry.record_at(1), &record("foo", "/new"));
}

#[test]
fn merge_discards_every_field_of_the_old_record() {
    let mut registry = Registry::new();
    let old = JsonValue::Object(vec![
        Member { key: "name".to_string(), value: JsonValue::Text("foo".to_string()) },
        Member { key: "extra".to_string(), value: JsonValue::Bool(true) },
    ]);
    registry.merge("foo".to_string(), old);
    registry.merge("foo".to_string(), record("foo", "/new"));
    assert_eq!(registry.get("foo").unwrap().get("extra"), None);
}

#[test]
fn get_finds_exact_names_only() {
    let mut registry = Registry::new();
    registry.merge("foo".to_string(), record("foo", "/foo"));
    assert_eq!(registry.get("fo"), None);
    assert_eq!(registry.get("fooo"), None);
    assert_eq!(registry.get("Foo"), None);
    assert_eq!(registry.get(""), None);
}

#[test]
fn origin_is_read_from_the_record() {
    let mut registry = Registry::new();
    registry.merge("foo".to_string(), record("foo", "/ext/foo"));
    registry.merge(
        "bar".to_string(),
        JsonValue::Object(vec![Member {
            key: "origin".to_string(),
            value: JsonValue::Bool(true),
        }]),
    );
    assert_eq!(registry.origin_of("foo"), Some("/ext/foo"));
    assert_eq!(registry.origin_of("bar"), None);
    assert_eq!(registry.origin_of("baz"), None);
}

#[test]
fn from_json_takes_named_elements() {
    let document = parse_json(
        "[{\"name\":\"b\",\"origin\":\"/b\"},{\"origin\":\"/nameless\"},\
         {\"name\":7},\"text\",{\"name\":\"a\",\"extra\":[1]}]",
    )
    .unwrap();
    let registry = Registry::from_json(document);
    assert_eq!(names(&registry), vec!["a", "b"]);
    assert_eq!(registry.origin_of("b"), Some("/b"));
    assert_eq!(
        registry.get("a"),
        Some(&parse_json("{\"name\":\"a\",\"extra\":[1]}").unwrap())
    );
}

#[test]
fn from_json_lets_the_last_of_a_name_win() {
    let document = parse_json(
        "[{\"name\":\"a\",\"origin\":\"/1\"},{\"name\":\"a\",\"origin\":\"/2\"}]",
    )
    .unwrap();
    let registry = Registry::from_json(document);
    assert_eq!(registry.len(), 1);
    assert_eq!(registry.origin_of("a"), Some("/2"));
}

#[test]
fn from_json_of_a_document_that_is_no_array() {
    assert_eq!(Registry::from_json(parse_json("{\"name\":\"a\"}").unwrap()).len(), 0);
    assert_eq!(Registry::from_json(JsonValue::Null).len(), 0);
}

#[test]
fn load_reads_the_registry_file() {
    let registry = Registry::load(Some("[{\"name\":\"foo\",\"origin\":\"/ext/foo\"}]"), false);
    assert_eq!(names(&registry), vec!["foo"]);
}

#[test]
fn load_starts_empty_without_a_usable_file() {
    assert_eq!(Registry::load(None, false).len(), 0);
    assert_eq!(Registry::load(Some("not json"), false).len(), 0);
    assert_eq!(Registry::load(Some("{}"), false).len(), 0);
    assert_eq!(Registry::load(Some(""), false).len(), 0);
}

#[test]
fn load_discards_the_file_on_clean_up() {
    let registry = Registry::load(Some("[{\"name\":\"foo\",\"origin\":\"/ext/foo\"}]"), true);
    assert_eq!(registry.len(), 0);
}

#[test]
fn serialize_gives_the_records_sorted_by_name() {
    let mut registry = Registry::new();
    registry.merge("b".to_string(), record("b", "/b"));
    registry.merge("a".to_string(), record("a", "/a"));
    assert_eq!(registry.serialize(), vec![record("a", "/a"), record("b", "/b")]);
}

#[test]
fn into_json_gives_one_array() {
    let mut registry = Registry::new();
    registry.merge("b".to_string(), record("b", "/b"));
    registry.merge("a".to_string(), record("a", "/a"));
    assert_eq!(registry.into_json(), JsonValue::List(vec![record("a", "/a"), record("b", "/b")]));
}

#[test]
fn render_prints_the_array_with_indentation() {
    let mut registry = Registry::new();
    registry.merge("b".to_string(), record("b", "/b"));
    registry.merge("a".to_string(), record("a", "/a"));
    assert_eq!(
        registry.render().unwrap(),
        "[\n  {\n    \"name\": \"a\",\n    \"origin\": \"/a\"\n  },\n  {\n    \"name\": \"b\",\n    \"origin\": \"/b\"\n  }\n]"
    );
}

#[test]
fn loading_what_was_rendered_gives_the_same_text() {
    let source = "[{\"name\":\"b\",\"active\":false,\"n\":1.5},{\"name\":\"a\",\"list\":[1,2]}]";
    let first = Registry::load(Some(source), false).render().unwrap();
    let second = Registry::load(Some(&first), false).render().unwrap();
    assert_eq!(first, second);
    assert!(first.find("\"a\"").unwrap() < first.find("\"b\"").unwrap());
}
