//! JSON in and out: reading values and the arguments of a tool call, and writing
//! records.

use crate::scalar::{Scalar, ScalarView};
use crate::text;
use serde_json::Value;
use vstd::prelude::*;

verus! {

/// Any JSON value.
#[verifier::external_type_specification]
#[verifier::external_body]
pub struct ExValue(serde_json::Value);

/// What `serde_json` reports when it cannot read or write.
#[verifier::external_type_specification]
#[verifier::external_body]
pub struct ExJsonError(serde_json::Error);

/// What a JSON value says. Of a number that is no integer only that much is told. The
/// members of an object have an order, and no two of them the same name.
pub enum Json {
    Null,
    Bool(bool),
    Int(int),
    Fraction,
    Text(Seq<char>),
    Array(Seq<Json>),
    Object(Seq<(Seq<char>, Json)>),
}

/// What `v` says.
pub uninterp spec fn value_of(v: Value) -> Json;

/// What the values of `vs` say.
pub open spec fn values_of(vs: Seq<Value>) -> Seq<Json> {
    vs.map_values(|v: Value| value_of(v))
}

/// What pairs of a name and a value say.
pub open spec fn pairs_of(pairs: Seq<(String, Value)>) -> Seq<(Seq<char>, Json)> {
    pairs.map_values(|p: (String, Value)| (p.0@, value_of(p.1)))
}

/// The values of `pairs` by name.
pub open spec fn by_name(pairs: Seq<(Seq<char>, Json)>) -> Map<Seq<char>, Json>
    decreases pairs.len(),
{
    if pairs.len() == 0 {
        Map::empty()
    } else {
        by_name(pairs.drop_last()).insert(pairs.last().0, pairs.last().1)
    }
}

/// Whether no two of `pairs` have the same name.
pub open spec fn distinct_names(pairs: Seq<(Seq<char>, Json)>) -> bool {
    forall|i: int, j: int|
        0 <= i < j < pairs.len() ==> (#[trigger] pairs[i]).0 != (#[trigger] pairs[j]).0
}

/// The members of a JSON object by name. A value that is no object has none.
pub open spec fn members(v: Json) -> Map<Seq<char>, Json> {
    match v {
        Json::Object(pairs) => by_name(pairs),
        _ => Map::empty(),
    }
}

/// What the member `key` says, if it is a text.
pub open spec fn text_member(
    members: Map<Seq<char>, Json>,
    key: Seq<char>,
) -> Option<Seq<char>> {
    if members.contains_key(key) {
        match members[key] {
            Json::Text(t) => Some(t),
            _ => None,
        }
    } else {
        None
    }
}

/// What the member `key` says, if it is an integer that 64 bits hold.
pub open spec fn int_member(members: Map<Seq<char>, Json>, key: Seq<char>) -> Option<i64> {
    if members.contains_key(key) {
        match members[key] {
            Json::Int(n) => if i64::MIN <= n <= i64::MAX {
                Some(n as i64)
            } else {
                None
            },
            _ => None,
        }
    } else {
        None
    }
}

/// What the member `key` says, if it is a text; an absent member and a null say
/// nothing. `None` where it is anything else.
pub open spec fn optional_member(
    members: Map<Seq<char>, Json>,
    key: Seq<char>,
) -> Option<Option<Seq<char>>> {
    if members.contains_key(key) {
        match members[key] {
            Json::Null => Some(None),
            Json::Text(t) => Some(Some(t)),
            _ => None,
        }
    } else {
        Some(None)
    }
}

/// `Value::clone` copies a value: the copy says the same.
pub assume_specification[ <Value as Clone>::clone ](v: &Value) -> (r: Value)
    ensures
        value_of(r) == value_of(*v),
;

/// `Value::as_str` hands out a text, and nothing of any other value.
pub assume_specification[ Value::as_str ](v: &Value) -> (r: Option<&str>)
    ensures
        match value_of(*v) {
            Json::Text(t) => r matches Some(s) && s@ == t,
            _ => r is None,
        },
;

/// `Value::as_i64` hands out an integer that 64 bits hold, and nothing of any other
/// value.
pub assume_specification[ Value::as_i64 ](v: &Value) -> (r: Option<i64>)
    ensures
        match value_of(*v) {
            Json::Int(n) => if i64::MIN <= n <= i64::MAX {
                r matches Some(i) && i == n
            } else {
                r is None
            },
            _ => r is None,
        },
;

/// `Value::is_null` tells whether a value is null.
pub assume_specification[ Value::is_null ](v: &Value) -> (r: bool)
    ensures
        r == (value_of(*v) is Null),
;

/// `Value::get` finds the member of an object by its name. A value that is no object
/// has none.
#[verifier::external_body]
pub(crate) fn member<'a>(v: &'a Value, key: &str) -> (r: Option<&'a Value>)
    ensures
        r is Some <==> members(value_of(*v)).contains_key(key@),
        r matches Some(m) ==> value_of(*m) == members(value_of(*v))[key@],
{
    v.get(key)
}

/// What the member `key` says, if it is a text.
pub(crate) fn get_text(v: &Value, key: &str) -> (r: Option<String>)
    ensures
        text::opt_text(r) == text_member(members(value_of(*v)), key@),
{
    match member(v, key) {
        Some(m) => match m.as_str() {
            Some(t) => Some(t.to_owned()),
            None => None,
        },
        None => None,
    }
}

/// What the member `key` says, if it is an integer that 64 bits hold.
pub(crate) fn get_int(v: &Value, key: &str) -> (r: Option<i64>)
    ensures
        r == int_member(members(value_of(*v)), key@),
{
    match member(v, key) {
        Some(m) => m.as_i64(),
        None => None,
    }
}

/// What the member `key` says, if it is a text; an absent member and a null say
/// nothing. `None` where it is anything else.
pub(crate) fn get_optional(v: &Value, key: &str) -> (r: Option<Option<String>>)
    ensures
        match r {
            Some(t) => optional_member(members(value_of(*v)), key@) == Some(text::opt_text(t)),
            None => optional_member(members(value_of(*v)), key@) is None,
        },
{
    match member(v, key) {
        Some(m) => if m.is_null() {
            Some(None)
        } else {
            match m.as_str() {
                Some(t) => Some(Some(t.to_owned())),
                None => None,
            }
        },
        None => Some(None),
    }
}

/// What a plain value says as a JSON value.
pub open spec fn json_of(v: ScalarView) -> Json {
    match v {
        ScalarView::Null => Json::Null,
        ScalarView::Int(n) => Json::Int(n as int),
        ScalarView::Text(t) => Json::Text(t),
    }
}

/// `Value::from` turns a plain value into a JSON value that says the same.
#[verifier::external_body]
pub(crate) fn plain_value(v: &Scalar) -> (r: Value)
    ensures
        value_of(r) == json_of(v@),
{
    match v {
        Scalar::Null => Value::from(()),
        Scalar::Int(n) => Value::from(*n),
        Scalar::Text(t) => Value::from(t.as_str()),
    }
}

/// `Value::from` turns a vector of JSON values into a JSON array of them.
#[verifier::external_body]
pub(crate) fn array_value(items: Vec<Value>) -> (r: Value)
    ensures
        value_of(r) == Json::Array(values_of(items@)),
{
    Value::from(items)
}

/// `Value::from_iter` collects pairs of a name and a value into a JSON object, whose
/// members keep their order.
#[verifier::external_body]
pub(crate) fn object_value(pairs: Vec<(String, Value)>) -> (r: Value)
    requires
        distinct_names(pairs_of(pairs@)),
    ensures
        value_of(r) == Json::Object(pairs_of(pairs@)),
{
    Value::from_iter(pairs)
}

/// A JSON value of a text.
pub(crate) fn text_value(t: &str) -> (r: Value)
    ensures
        value_of(r) == Json::Text(t@),
{
    plain_value(&Scalar::Text(t.to_owned()))
}

/// What `serde_json` reads in a text; `None` where the text is no JSON.
pub uninterp spec fn json_read(text: Seq<char>) -> Option<Json>;

/// `serde_json::from_str` reads a JSON value, or reports why the text is none.
#[verifier::external_body]
pub(crate) fn read_value(text: &str) -> (r: Result<Value, serde_json::Error>)
    ensures
        r matches Ok(v) ==> json_read(text@) == Some(value_of(v)),
        r is Err ==> json_read(text@) is None,
{
    serde_json::from_str(text)
}

/// The text of a JSON value, as `serde_json` writes it without any spacing.
pub uninterp spec fn json_text(v: Json) -> Seq<char>;

/// Whether a JSON value has no parts, and is no number but an integer.
pub open spec fn is_plain(v: Json) -> bool {
    v is Null || v is Bool || v is Int || v is Text
}

/// Whether a JSON value is an object of plain values.
pub open spec fn is_record(v: Json) -> bool {
    v matches Json::Object(pairs) && forall|i: int|
        0 <= i < pairs.len() ==> is_plain((#[trigger] pairs[i]).1)
}

/// Whether a JSON value is a record or an array of records.
pub open spec fn is_document(v: Json) -> bool {
    match v {
        Json::Array(items) => forall|i: int| 0 <= i < items.len() ==> is_record(#[trigger] items[i]),
        _ => is_record(v),
    }
}

/// Whether `s` can stand as a line of its own: it runs from an opening to a
/// closing brace and holds no control character, so no line break.
pub open spec fn is_one_line_object(s: Seq<char>) -> bool {
    &&& s.len() >= 2
    &&& s[0] == '{'
    &&& s.last() == '}'
    &&& forall|i: int| 0 <= i < s.len() ==> '\u{20}' <= #[trigger] s[i]
}

/// `serde_json::to_string` writes a JSON value. It fails only on keys that are no text,
/// and a value has none. How it escapes the texts of a document is left to it, but for
/// two things: every control character becomes an escape sequence, and `serde_json`
/// reads back what it wrote.
#[verifier::external_body]
pub(crate) fn write_value(v: &Value) -> (r: Result<String, serde_json::Error>)
    requires
        is_document(value_of(*v)),
    ensures
        r is Ok,
        r matches Ok(t) ==> t@ == json_text(value_of(*v)),
        r matches Ok(t) ==> json_read(t@) == Some(value_of(*v)),
        r matches Ok(t) ==> (value_of(*v) is Object ==> is_one_line_object(t@)),
{
    serde_json::to_string(v)
}

/// The fields of a record: a name and a value each.
pub type Fields = Vec<(String, Scalar)>;

/// What the fields of a record say.
pub open spec fn field_views(fields: Seq<(String, Scalar)>) -> Seq<(Seq<char>, ScalarView)> {
    fields.map_values(|f: (String, Scalar)| (f.0@, f.1@))
}

/// The JSON object with these fields.
pub open spec fn record(fields: Seq<(Seq<char>, ScalarView)>) -> Json {
    Json::Object(record_pairs(fields))
}

/// The members of the JSON object with these fields.
pub open spec fn record_pairs(fields: Seq<(Seq<char>, ScalarView)>) -> Seq<(Seq<char>, Json)> {
    fields.map_values(|f: (Seq<char>, ScalarView)| (f.0, json_of(f.1)))
}

/// The JSON object with these fields.
pub(crate) fn record_value(fields: &Fields) -> (r: Value)
    requires
        distinct_names(record_pairs(field_views(fields@))),
    ensures
        value_of(r) == record(field_views(fields@)),
        is_record(value_of(r)),
{
    let mut pairs: Vec<(String, Value)> = Vec::new();
    let mut i: usize = 0;
    while i < fields.len()
        invariant
            i == pairs.len() <= fields.len(),
            forall|j: int|
                0 <= j < i ==> (#[trigger] pairs@[j]).0@ == fields@[j].0@ && value_of(pairs@[j].1)
                    == json_of(fields@[j].1@),
        decreases fields.len() - i,
    {
        pairs.push((fields[i].0.clone(), plain_value(&fields[i].1)));
        i += 1;
    }
    assert(pairs_of(pairs@) == record_pairs(field_views(fields@)));
    object_value(pairs)
}

/// The document as JSON text.
pub(crate) fn document_text(v: &Value) -> (r: Result<String, String>)
    requires
        is_document(value_of(*v)),
    ensures
        r matches Ok(t) && t@ == json_text(value_of(*v)) && json_read(t@) == Some(value_of(*v)) && (
        value_of(*v) is Object ==> is_one_line_object(t@)),
{
    match write_value(v) {
        Ok(t) => Ok(t),
        Err(e) => Err(e.to_string()),
    }
}

/// A member that is a text or an integer is told as it is, and nothing is made of one that
/// is not there or is something else.
pub proof fn member_is_told_as_it_is(said: Map<Seq<char>, Json>, key: Seq<char>)
    ensures
        !said.contains_key(key) ==> text_member(said, key) is None && int_member(said, key) is None
            && optional_member(said, key) == Some(None::<Seq<char>>),
        said.contains_key(key) ==> match said[key] {
            Json::Text(t) => text_member(said, key) == Some(t) && int_member(said, key) is None
                && optional_member(said, key) == Some(Some(t)),
            Json::Int(n) => text_member(said, key) is None && (i64::MIN <= n <= i64::MAX
                ==> int_member(said, key) is Some && int_member(said, key)->0 as int == n),
            Json::Null => text_member(said, key) is None && int_member(said, key) is None
                && optional_member(said, key) == Some(None::<Seq<char>>),
            _ => text_member(said, key) is None && int_member(said, key) is None,
        },
{
}

} // verus!
