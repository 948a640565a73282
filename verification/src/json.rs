//! JSON documents, as the launcher reads them: parsed by `serde_json` and
//! walked here key by key.
use vstd::prelude::*;

use crate::text::str_eq;

verus! {

/// A JSON value. An object is its keys and, at the same positions, their
/// values.
#[derive(Debug)]
pub enum Json {
    Null,
    Bool(bool),
    Number(String),
    Str(String),
    Array(Vec<Json>),
    Object(Vec<String>, Vec<Json>),
}

#[verifier::external_type_specification]
#[verifier::external_body]
pub struct ExJsonValue(serde_json::Value);

/// The JSON document that the bytes hold, or the message of the error that
/// reading them as JSON gives.
pub uninterp spec fn json_of_bytes(body: Seq<u8>) -> Result<Json, Seq<char>>;

/// `serde_json::Value` as a `Json`, variant by variant.
#[verifier::external_body]
fn json_of_value(value: &serde_json::Value) -> Json {
    match value {
        serde_json::Value::Null => Json::Null,
        serde_json::Value::Bool(b) => Json::Bool(*b),
        serde_json::Value::Number(n) => Json::Number(n.to_string()),
        serde_json::Value::String(s) => Json::Str(s.clone()),
        serde_json::Value::Array(items) => Json::Array(items.iter().map(json_of_value).collect()),
        serde_json::Value::Object(map) => Json::Object(
            map.keys().cloned().collect(),
            map.values().map(json_of_value).collect(),
        ),
    }
}

/// `serde_json::from_slice::<serde_json::Value>`: the JSON document in
/// `body`, or, where `body` is not valid JSON, the message of the error
/// (`serde_json::Error`'s `Display`). Both depend on the bytes alone; what
/// they are, is left to the name `json_of_bytes`.
#[verifier::external_body]
pub fn parse_json(body: &[u8]) -> (r: Result<Json, String>)
    ensures
        match r {
            Ok(j) => json_of_bytes(body@) == Ok::<Json, Seq<char>>(j),
            Err(m) => json_of_bytes(body@) == Err::<Json, Seq<char>>(m@),
        },
{
    serde_json::from_slice::<serde_json::Value>(body)
        .map(|value| json_of_value(&value))
        .map_err(|err| err.to_string())
}

/// The position of the first key equal to `key`, if any.
pub open spec fn key_position(keys: Seq<String>, key: Seq<char>) -> Option<int>
    decreases keys.len(),
{
    if keys.len() == 0 {
        None
    } else {
        match key_position(keys.drop_last(), key) {
            Some(i) => Some(i),
            None => if keys.last()@ == key {
                Some(keys.len() - 1)
            } else {
                None
            },
        }
    }
}

/// `value[key]`: the value of `key` in an object, and null where the value is
/// not an object or lacks the key.
pub open spec fn json_field(value: Json, key: Seq<char>) -> Json {
    match value {
        Json::Object(keys, values) => match key_position(keys@, key) {
            Some(i) => if i < values@.len() {
                values@[i]
            } else {
                Json::Null
            },
            None => Json::Null,
        },
        _ => Json::Null,
    }
}

/// `value.as_str()`.
pub open spec fn json_text(value: Json) -> Option<Seq<char>> {
    match value {
        Json::Str(s) => Some(s@),
        _ => None,
    }
}

/// `value.as_array()`.
pub open spec fn json_list(value: Json) -> Option<Seq<Json>> {
    match value {
        Json::Array(items) => Some(items@),
        _ => None,
    }
}

/// A value that may be missing, read as null where it is.
pub open spec fn or_null(value: Option<&Json>) -> Json {
    match value {
        Some(v) => *v,
        None => Json::Null,
    }
}

/// `key_position` is the first position of a key equal to `key`.
pub proof fn lemma_key_position(keys: Seq<String>, key: Seq<char>)
    ensures
        match key_position(keys, key) {
            Some(i) => 0 <= i < keys.len() && keys[i]@ == key && forall|j: int|
                0 <= j < i ==> (#[trigger] keys[j])@ != key,
            None => forall|j: int| 0 <= j < keys.len() ==> (#[trigger] keys[j])@ != key,
        },
    decreases keys.len(),
{
    if keys.len() > 0 {
        lemma_key_position(keys.drop_last(), key);
        assert forall|j: int| 0 <= j < keys.len() - 1 implies #[trigger] keys[j]
            == keys.drop_last()[j] by {}
    }
}

/// `value[key]`, as `json_field` states, for a value that may be missing.
pub fn field<'a>(value: Option<&'a Json>, key: &str) -> (r: Option<&'a Json>)
    ensures
        or_null(r) == json_field(or_null(value), key@),
{
    let (keys, values) = match value {
        Some(Json::Object(keys, values)) => (keys, values),
        _ => return None,
    };
    let mut i: usize = 0;
    while i < keys.len()
        invariant
            i <= keys@.len(),
            or_null(value) == Json::Object(*keys, *values),
            forall|j: int| 0 <= j < i ==> (#[trigger] keys@[j])@ != key@,
        decreases keys@.len() - i,
    {
        if str_eq(keys[i].as_str(), key) {
            proof {
                lemma_key_position(keys@, key@);
            }
            if i < values.len() {
                return Some(&values[i]);
            } else {
                return None;
            }
        }
        i = i + 1;
    }
    proof {
        lemma_key_position(keys@, key@);
    }
    None
}

/// `value.as_str()`, as `json_text` states, for a value that may be missing.
pub fn text_of<'a>(value: Option<&'a Json>) -> (r: Option<&'a str>)
    ensures
        match r {
            Some(s) => json_text(or_null(value)) == Some(s@),
            None => json_text(or_null(value)) is None,
        },
{
    match value {
        Some(Json::Str(s)) => Some(s.as_str()),
        _ => None,
    }
}

/// `value.as_array()`, as `json_list` states, for a value that may be missing.
pub fn list_of<'a>(value: Option<&'a Json>) -> (r: Option<&'a Vec<Json>>)
    ensures
        match r {
            Some(items) => json_list(or_null(value)) == Some(items@),
            None => json_list(or_null(value)) is None,
        },
{
    match value {
        Some(Json::Array(items)) => Some(items),
        _ => None,
    }
}

} // verus!
