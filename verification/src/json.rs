//! A JSON document as plain data, its reading from and writing to text through
//! `serde_json`, and the lookups the library makes in one.
use vstd::prelude::*;

use crate::text::same_text;

verus! {

/// A JSON value. Numbers keep their text; an object keeps its members in order.
#[derive(Debug, PartialEq)]
pub enum Json {
    Null,
    Bool(bool),
    Number(String),
    Str(String),
    Array(Vec<Json>),
    Object(Vec<(String, Json)>),
}

/// The value of the first member named `key`, if any.
pub open spec fn lookup(members: Seq<(String, Json)>, key: Seq<char>) -> Option<Json>
    decreases members.len(),
{
    if members.len() == 0 {
        None
    } else if members[0].0@ == key {
        Some(members[0].1)
    } else {
        lookup(members.drop_first(), key)
    }
}

/// `v[key]`: the member of an object, or `null` when `v` is not an object or has no such
/// member.
pub open spec fn field(v: Json, key: Seq<char>) -> Json {
    match v {
        Json::Object(members) => match lookup(members@, key) {
            Some(x) => x,
            None => Json::Null,
        },
        _ => Json::Null,
    }
}

/// `v.as_str()`: the text of a string value.
pub open spec fn as_str(v: Json) -> Option<Seq<char>> {
    match v {
        Json::Str(s) => Some(s@),
        _ => None,
    }
}

/// `v.as_bool()`: the value of a boolean.
pub open spec fn as_bool(v: Json) -> Option<bool> {
    match v {
        Json::Bool(b) => Some(b),
        _ => None,
    }
}

/// `v[key]`, or `None` where that is `null` because `v` is not an object or lacks the member.
pub fn get<'a>(v: &'a Json, key: &str) -> (r: Option<&'a Json>)
    ensures
        match r {
            Some(x) => v matches Json::Object(m) && lookup(m@, key@) == Some(*x) && *x == field(
                *v,
                key@,
            ),
            None => field(*v, key@) == Json::Null && (v matches Json::Object(m) ==> lookup(
                m@,
                key@,
            ) is None),
        },
{
    match v {
        Json::Object(members) => {
            let mut i: usize = 0;
            assert(members@.subrange(0, members@.len() as int) =~= members@);
            while i < members.len()
                invariant
                    *v == Json::Object(*members),
                    i <= members@.len(),
                    lookup(members@, key@) == lookup(members@.subrange(i as int, members@.len() as int), key@),
                decreases members.len() - i,
            {
                let ghost rest = members@.subrange(i as int, members@.len() as int);
                assert(rest.drop_first() =~= members@.subrange(i + 1, members@.len() as int));
                if same_text(members[i].0.as_str(), key) {
                    assert(rest[0] == members@[i as int]);
                    assert(rest[0].0@ == key@);
                    assert(lookup(rest, key@) == Some(rest[0].1));
                    assert(lookup(members@, key@) == Some(members@[i as int].1));
                    let r = &members[i].1;
                    assert(*r == members@[i as int].1);
                    assert(field(*v, key@) == *r);
                    return Some(r);
                }
                i = i + 1;
            }
            None
        },
        _ => None,
    }
}

/// `v[key].as_str()`.
pub fn get_str(v: &Json, key: &str) -> (r: Option<String>)
    ensures
        match r {
            Some(s) => as_str(field(*v, key@)) == Some(s@),
            None => as_str(field(*v, key@)) is None,
        },
{
    match get(v, key) {
        Some(Json::Str(s)) => Some(s.as_str().to_owned()),
        _ => None,
    }
}

/// `v[key].as_bool()`.
pub fn get_bool(v: &Json, key: &str) -> (r: Option<bool>)
    ensures
        r == as_bool(field(*v, key@)),
{
    match get(v, key) {
        Some(Json::Bool(b)) => Some(*b),
        _ => None,
    }
}

#[verifier::external_type_specification]
#[verifier::external_body]
pub struct ExJsonValue(serde_json::Value);

/// The document `serde_json` reads from `text`, as a [`Json`]: `None` when the text is not
/// one JSON value. Object members come in the order `serde_json` keeps them, numbers as the
/// text it prints for them.
pub uninterp spec fn json_value(text: Seq<char>) -> Option<Json>;

/// The text `serde_json::to_string_pretty` writes for a document.
pub uninterp spec fn pretty_json(v: Json) -> Seq<char>;

/// A `serde_json` value as a [`Json`], variant for variant: the conversion inside
/// [`parse_json`]. Nothing is claimed of it on its own.
#[verifier::external_body]
fn json_of_value(v: &serde_json::Value) -> Json {
    match v {
        serde_json::Value::Null => Json::Null,
        serde_json::Value::Bool(b) => Json::Bool(*b),
        serde_json::Value::Number(n) => Json::Number(n.to_string()),
        serde_json::Value::String(t) => Json::Str(t.clone()),
        serde_json::Value::Array(a) => Json::Array(a.iter().map(json_of_value).collect()),
        serde_json::Value::Object(m) => Json::Object(m.iter().map(|(k, x)| (k.clone(), json_of_value(x))).collect()),
    }
}

/// A [`Json`] as a `serde_json` value, variant for variant (a number whose text is not a
/// JSON number becomes `null`): the conversion inside [`to_pretty_json`]. Nothing is claimed
/// of it on its own.
#[verifier::external_body]
fn value_of_json(v: &Json) -> serde_json::Value {
    match v {
        Json::Null => serde_json::Value::Null,
        Json::Bool(b) => serde_json::Value::Bool(*b),
        Json::Number(n) => n.parse::<serde_json::Number>().map(serde_json::Value::Number).unwrap_or(serde_json::Value::Null),
        Json::Str(t) => serde_json::Value::String(t.clone()),
        Json::Array(a) => serde_json::Value::Array(a.iter().map(value_of_json).collect()),
        Json::Object(m) => serde_json::Value::Object(m.iter().map(|(k, x)| (k.clone(), value_of_json(x))).collect()),
    }
}

/// `serde_json::from_str::<serde_json::Value>`, converted to a [`Json`]. Claimed: the
/// result is [`json_value`] of the text, a function of the text alone. The JSON grammar is
/// left to `serde_json`.
#[verifier::external_body]
pub(crate) fn parse_json(text: &str) -> (r: Option<Json>)
    ensures
        r == json_value(text@),
{
    serde_json::from_str::<serde_json::Value>(text).ok().map(|v| json_of_value(&v))
}

/// `serde_json::to_string_pretty` of a document. Claimed: the result is [`pretty_json`] of
/// the document, a function of it alone. The layout is left to `serde_json`.
#[verifier::external_body]
pub(crate) fn to_pretty_json(v: &Json) -> (s: String)
    ensures
        s@ == pretty_json(*v),
{
    serde_json::to_string_pretty(&value_of_json(v)).unwrap_or_default()
}

} // verus!
