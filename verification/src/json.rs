//! JSON documents as plain data. Text is turned into values, and values into
//! text, by `serde_json`; everything in between is this library's own.

use vstd::prelude::*;
use crate::text::text_eq;

verus! {

/// `serde_json::Number`, a JSON number. It is carried through as it is: the
/// library never looks inside.
#[verifier::external_type_specification]
#[verifier::external_body]
pub struct ExNumber(serde_json::Number);

/// `serde_json::Value`, the form in which `serde_json` reads and prints a document.
#[verifier::external_type_specification]
#[verifier::external_body]
pub struct ExValue(serde_json::Value);

/// `serde_json::Error`, what `serde_json` reports when it cannot read or print.
#[verifier::external_type_specification]
#[verifier::external_body]
pub struct ExError(serde_json::Error);

/// A JSON document.
#[derive(Debug, PartialEq, Eq)]
pub enum JsonValue {
    Null,
    Bool(bool),
    Number(serde_json::Number),
    Text(String),
    List(Vec<JsonValue>),
    Object(Vec<Member>),
}

/// One member of a JSON object.
#[derive(Debug, PartialEq, Eq)]
pub struct Member {
    pub key: String,
    pub value: JsonValue,
}

/// The mathematical value of a JSON document.
#[verifier::ext_equal]
pub enum Json {
    Null,
    Bool(bool),
    Number(serde_json::Number),
    Text(Seq<char>),
    List(Seq<Json>),
    Object(Seq<Field>),
}

/// The mathematical value of one member of a JSON object.
#[verifier::ext_equal]
pub struct Field {
    pub key: Seq<char>,
    pub value: Json,
}

impl View for JsonValue {
    type V = Json;

    open spec fn view(&self) -> Json
        decreases self,
    {
        match self {
            JsonValue::Null => Json::Null,
            JsonValue::Bool(b) => Json::Bool(*b),
            JsonValue::Number(n) => Json::Number(*n),
            JsonValue::Text(s) => Json::Text(s@),
            JsonValue::List(items) => Json::List(
                Seq::new(
                    items@.len(),
                    |i: int|
                        if 0 <= i < items@.len() {
                            items@[i].view()
                        } else {
                            Json::Null
                        },
                ),
            ),
            JsonValue::Object(members) => Json::Object(
                Seq::new(
                    members@.len(),
                    |i: int|
                        if 0 <= i < members@.len() {
                            Field { key: members@[i].key@, value: members@[i].value.view() }
                        } else {
                            Field { key: Seq::empty(), value: Json::Null }
                        },
                ),
            ),
        }
    }
}

/// The view of an array holds the views of its elements, in order.
pub proof fn lemma_list_view(items: Vec<JsonValue>)
    ensures
        JsonValue::List(items)@ is List,
        JsonValue::List(items)@->List_0.len() == items@.len(),
        forall|i: int|
            0 <= i < items@.len() ==> (#[trigger] JsonValue::List(items)@->List_0[i]) == items@[i]@,
{
}

/// The view of an object holds, in order, each member's key and the view of its value.
pub proof fn lemma_object_view(members: Vec<Member>)
    ensures
        JsonValue::Object(members)@ is Object,
        JsonValue::Object(members)@->Object_0.len() == members@.len(),
        forall|i: int|
            0 <= i < members@.len() ==> (#[trigger] JsonValue::Object(members)@->Object_0[i])
                == (Field { key: members@[i].key@, value: members@[i].value@ }),
{
}

impl Json {
    /// The text of a JSON string; `None` for every other value.
    pub open spec fn as_text(self) -> Option<Seq<char>> {
        match self {
            Json::Text(s) => Some(s),
            _ => None,
        }
    }

    /// The value that an object holds under `key`; `None` where the value is no
    /// object or has no such member. Of several members with one key the last
    /// counts, as it does when the document is printed.
    pub open spec fn member(self, key: Seq<char>) -> Option<Json> {
        match self {
            Json::Object(members) => last_member(members, key),
            _ => None,
        }
    }

    /// The text stored under `key`, where the value is an object and that member a string.
    pub open spec fn text_member(self, key: Seq<char>) -> Option<Seq<char>> {
        match self.member(key) {
            Some(v) => v.as_text(),
            None => None,
        }
    }

    /// The elements of an array; no elements for every other value.
    pub open spec fn elements(self) -> Seq<Json> {
        match self {
            Json::List(items) => items,
            _ => Seq::empty(),
        }
    }
}

/// The value of the last member named `key` among `members`.
pub open spec fn last_member(members: Seq<Field>, key: Seq<char>) -> Option<Json>
    decreases members.len(),
{
    if members.len() == 0 {
        None
    } else if members.last().key == key {
        Some(members.last().value)
    } else {
        last_member(members.drop_last(), key)
    }
}

impl JsonValue {
    /// The text of a JSON string.
    pub fn as_str(&self) -> (text: Option<&str>)
        ensures
            match text {
                Some(s) => self@.as_text() == Some(s@),
                None => self@.as_text() is None,
            },
    {
        match self {
            JsonValue::Text(s) => Some(s.as_str()),
            _ => None,
        }
    }

    /// Looks up a member of an object by its key.
    pub fn get(&self, key: &str) -> (found: Option<&JsonValue>)
        ensures
            match found {
                Some(v) => self@.member(key@) == Some(v@),
                None => self@.member(key@) is None,
            },
    {
        match self {
            JsonValue::Object(members) => {
                let ghost all = self@->Object_0;
                proof {
                    lemma_object_view(*members);
                }
                let mut i: usize = members.len();
                assert(all.take(i as int) == all);
                while i > 0
                    invariant
                        0 <= i <= members.len(),
                        self@ == Json::Object(all),
                        all.len() == members@.len(),
                        forall|j: int|
                            0 <= j < members@.len() ==> all[j] == (Field {
                                key: members@[j].key@,
                                value: members@[j].value@,
                            }),
                        last_member(all, key@) == last_member(all.take(i as int), key@),
                    decreases i,
                {
                    i = i - 1;
                    proof {
                        assert(all.take(i + 1).drop_last() == all.take(i as int));
                    }
                    if text_eq(members[i].key.as_str(), key) {
                        return Some(&members[i].value);
                    }
                }
                None
            },
            _ => None,
        }
    }

    /// The text stored under `key` in an object.
    pub fn str_field(&self, key: &str) -> (text: Option<&str>)
        ensures
            match text {
                Some(s) => self@.text_member(key@) == Some(s@),
                None => self@.text_member(key@) is None,
            },
    {
        match self.get(key) {
            Some(v) => v.as_str(),
            None => None,
        }
    }
}

/// What `serde_json::from_str` reads from a text: the document, or `None`
/// where the text is not one JSON document.
pub uninterp spec fn parsed_json(text: Seq<char>) -> Option<Json>;

/// What `serde_json::to_string_pretty` prints for a document: the text, or
/// `None` where it reports an error.
pub uninterp spec fn pretty_json(value: Json) -> Option<Seq<char>>;

/// Why a text could not be read as JSON, or a document not printed.
#[derive(Debug, PartialEq, Eq)]
pub struct JsonError {
    /// The message of the underlying `serde_json` error.
    pub message: String,
}

/// Calls `serde_json::from_str` for a `serde_json::Value` and hands the
/// document over as a `JsonValue`. The contract gives the outcome the name
/// `parsed_json`: success and the document read depend on the text alone.
#[verifier::external_body]
fn decode(text: &str) -> (out: Result<JsonValue, serde_json::Error>)
    ensures
        match out {
            Ok(value) => parsed_json(text@) == Some(value@),
            Err(_) => parsed_json(text@) is None,
        },
{
    serde_json::from_str::<serde_json::Value>(text).map(from_serde)
}

/// The conversion that `decode` applies to what `serde_json` has read: the
/// `JsonValue` of the same shape as a `serde_json::Value`, variant by variant.
/// Object members keep the order in which `serde_json::Map` hands them out.
#[verifier::external_body]
fn from_serde(value: serde_json::Value) -> JsonValue {
    match value {
        serde_json::Value::Null => JsonValue::Null,
        serde_json::Value::Bool(b) => JsonValue::Bool(b),
        serde_json::Value::Number(n) => JsonValue::Number(n),
        serde_json::Value::String(s) => JsonValue::Text(s),
        serde_json::Value::Array(items) => JsonValue::List(
            items.into_iter().map(from_serde).collect(),
        ),
        serde_json::Value::Object(members) => JsonValue::Object(
            members.into_iter().map(|(k, v)| Member { key: k, value: from_serde(v) }).collect(),
        ),
    }
}

/// The conversion that `encode_pretty` applies before `serde_json` prints:
/// the `serde_json::Value` of the same shape as a `JsonValue`, variant by
/// variant. `serde_json::Map` keeps one member per key, the last one given.
#[verifier::external_body]
fn to_serde(value: &JsonValue) -> serde_json::Value {
    match value {
        JsonValue::Null => serde_json::Value::Null,
        JsonValue::Bool(b) => serde_json::Value::Bool(*b),
        JsonValue::Number(n) => serde_json::Value::Number(n.clone()),
        JsonValue::Text(s) => serde_json::Value::String(s.clone()),
        JsonValue::List(items) => serde_json::Value::Array(items.iter().map(to_serde).collect()),
        JsonValue::Object(members) => serde_json::Value::Object(
            members.iter().map(|m| (m.key.clone(), to_serde(&m.value))).collect(),
        ),
    }
}

/// Calls `serde_json::to_string_pretty` on the document. The contract gives
/// the outcome the name `pretty_json`: it depends on the document alone.
#[verifier::external_body]
fn encode_pretty(value: &JsonValue) -> (out: Result<String, serde_json::Error>)
    ensures
        match out {
            Ok(text) => pretty_json(value@) == Some(text@),
            Err(_) => pretty_json(value@) is None,
        },
{
    serde_json::to_string_pretty(&to_serde(value))
}

/// The message of a `serde_json::Error`, as its `Display` gives it. Nothing is
/// claimed of the text.
#[verifier::external_body]
fn error_message(error: &serde_json::Error) -> String {
    error.to_string()
}

/// Reads a text as one JSON document.
pub fn parse_json(text: &str) -> (out: Result<JsonValue, JsonError>)
    ensures
        match out {
            Ok(value) => parsed_json(text@) == Some(value@),
            Err(_) => parsed_json(text@) is None,
        },
{
    match decode(text) {
        Ok(value) => Ok(value),
        Err(error) => Err(JsonError { message: error_message(&error) }),
    }
}

/// Prints a document as indented JSON text.
pub fn to_pretty_text(value: &JsonValue) -> (out: Result<String, JsonError>)
    ensures
        match out {
            Ok(text) => pretty_json(value@) == Some(text@),
            Err(_) => pretty_json(value@) is None,
        },
{
    match encode_pretty(value) {
        Ok(text) => Ok(text),
        Err(error) => Err(JsonError { message: error_message(&error) }),
    }
}

} // verus!
