//! A JSON document model and member lookup.

use std::str::FromStr;

use vstd::prelude::*;

use crate::text::text_eq;

verus! {

/// A JSON document as the release feed delivers it.
/// Object members come in the order `serde_json` keeps them: sorted by name, each name once.
#[derive(Debug)]
pub enum JsonValue {
    Null,
    Bool(bool),
    /// A number, kept as its textual form.
    Number(String),
    Str(String),
    Array(Vec<JsonValue>),
    Object(Vec<(String, JsonValue)>),
}

#[verifier::external_type_specification]
#[verifier::external_body]
pub struct ExSerdeJsonValue(serde_json::Value);

/// The document that `serde_json` reads from `text`, in the library's model; `None`
/// when `text` is not valid JSON.
pub uninterp spec fn parsed_json(text: Seq<char>) -> Option<JsonValue>;

/// Moves a document parsed by `serde_json` into the library's model, variant for
/// variant (a number keeps its printed form, an object its members in the parser's
/// order). It is the conversion step of `parse_json`, whose contract covers it.
#[verifier::external_body]
fn json_from_serde(v: &serde_json::Value) -> JsonValue {
    match v {
        serde_json::Value::Null => JsonValue::Null,
        serde_json::Value::Bool(b) => JsonValue::Bool(*b),
        serde_json::Value::Number(n) => JsonValue::Number(n.to_string()),
        serde_json::Value::String(t) => JsonValue::Str(t.clone()),
        serde_json::Value::Array(items) => JsonValue::Array(items.iter().map(json_from_serde).collect()),
        serde_json::Value::Object(members) => JsonValue::Object(
            members.iter().map(|(k, m)| (k.clone(), json_from_serde(m))).collect(),
        ),
    }
}

/// Calls `serde_json::Value::from_str`: the JSON document in `text`, or `None` when
/// `text` is not valid JSON.
#[verifier::external_body]
pub fn parse_json(text: &str) -> (r: Option<JsonValue>)
    ensures
        r == parsed_json(text@),
{
    match serde_json::Value::from_str(text) {
        Ok(v) => Some(json_from_serde(&v)),
        Err(_) => None,
    }
}

/// The value of the first member named `key` among `members`.
pub open spec fn member_value(members: Seq<(String, JsonValue)>, key: Seq<char>) -> Option<JsonValue>
    decreases members.len(),
{
    if members.len() == 0 {
        None
    } else if members[0].0@ == key {
        Some(members[0].1)
    } else {
        member_value(members.drop_first(), key)
    }
}

/// Member lookup: `None` unless `v` is an object with a member named `key`.
pub open spec fn json_get(v: JsonValue, key: Seq<char>) -> Option<JsonValue> {
    match v {
        JsonValue::Object(members) => member_value(members@, key),
        _ => None,
    }
}

/// The text of member `key` of `v`, when that member exists and is a string.
pub open spec fn str_member(v: JsonValue, key: Seq<char>) -> Option<Seq<char>> {
    match json_get(v, key) {
        Some(JsonValue::Str(s)) => Some(s@),
        _ => None,
    }
}

/// The elements of member `key` of `v`, when that member exists and is an array.
pub open spec fn array_member(v: JsonValue, key: Seq<char>) -> Option<Seq<JsonValue>> {
    match json_get(v, key) {
        Some(JsonValue::Array(items)) => Some(items@),
        _ => None,
    }
}

/// Looks up member `key` of `v`.
pub fn get<'a>(v: &'a JsonValue, key: &str) -> (r: Option<&'a JsonValue>)
    ensures
        match r {
            Some(x) => json_get(*v, key@) == Some(*x),
            None => json_get(*v, key@) is None,
        },
{
    match v {
        JsonValue::Object(members) => {
            let n = members.len();
            let mut i: usize = 0;
            assert(members@.skip(0) =~= members@);
            while i < n
                invariant
                    n == members@.len(),
                    i <= n,
                    json_get(*v, key@) == member_value(members@, key@),
                    member_value(members@, key@) == member_value(members@.skip(i as int), key@),
                decreases n - i,
            {
                assert(members@.skip(i as int).drop_first() =~= members@.skip(i + 1));
                assert(members@.skip(i as int)[0] == members@[i as int]);
                if text_eq(members[i].0.as_str(), key) {
                    assert(member_value(members@.skip(i as int), key@) == Some(members@[i as int].1));
                    return Some(&members[i].1);
                }
                i = i + 1;
            }
            None
        },
        _ => None,
    }
}

/// The text of member `key` of `v`, when it is a string.
pub fn get_str(v: &JsonValue, key: &str) -> (r: Option<String>)
    ensures
        match r {
            Some(s) => str_member(*v, key@) == Some(s@),
            None => str_member(*v, key@) is None,
        },
{
    match get(v, key) {
        Some(JsonValue::Str(s)) => Some(s.clone()),
        _ => None,
    }
}

/// The elements of member `key` of `v`, when it is an array.
pub fn get_array<'a>(v: &'a JsonValue, key: &str) -> (r: Option<&'a Vec<JsonValue>>)
    ensures
        match r {
            Some(items) => array_member(*v, key@) == Some(items@),
            None => array_member(*v, key@) is None,
        },
{
    match get(v, key) {
        Some(JsonValue::Array(items)) => Some(items),
        _ => None,
    }
}

} // verus!
