//! JSON values as the library reads and writes them: the values of
//! `serde_json`, variant for variant, with the lookups that the npm tools
//! make in them.

use vstd::prelude::*;
use crate::text::str_eq;

verus! {

#[verifier::external_type_specification]
#[verifier::external_body]
pub struct ExJsonValue(serde_json::Value);

#[verifier::external_type_specification]
#[verifier::external_body]
pub struct ExJsonNumber(serde_json::Number);

/// A JSON value, as `serde_json::Value` holds it; an object is its entries
/// in the order of the map.
#[derive(Debug)]
pub enum Json {
    Null,
    Bool(bool),
    Number(serde_json::Number),
    Str(String),
    Array(Vec<Json>),
    Object(Vec<(String, Json)>),
}

pub enum JsonModel {
    Null,
    Bool(bool),
    Number(serde_json::Number),
    Str(Seq<char>),
    Array(Seq<JsonModel>),
    Object(Seq<(Seq<char>, JsonModel)>),
}

pub open spec fn json_model(j: Json) -> JsonModel
    decreases j,
{
    match j {
        Json::Null => JsonModel::Null,
        Json::Bool(b) => JsonModel::Bool(b),
        Json::Number(n) => JsonModel::Number(n),
        Json::Str(s) => JsonModel::Str(s@),
        Json::Array(v) => JsonModel::Array(Seq::new(v@.len(), |i: int| if 0 <= i < v@.len() {
            json_model(v@[i])
        } else {
            JsonModel::Null
        })),
        Json::Object(v) => JsonModel::Object(Seq::new(v@.len(), |i: int| if 0 <= i < v@.len() {
            (v@[i].0@, json_model(v@[i].1))
        } else {
            (Seq::empty(), JsonModel::Null)
        })),
    }
}

impl View for Json {
    type V = JsonModel;

    open spec fn view(&self) -> JsonModel {
        json_model(*self)
    }
}

/// The entries of an object, each key and value by its view.
pub open spec fn entries_model(v: Seq<(String, Json)>) -> Seq<(Seq<char>, JsonModel)> {
    Seq::new(v.len(), |i: int| (v[i].0@, v[i].1@))
}

pub proof fn lemma_object_model(v: Vec<(String, Json)>)
    ensures
        Json::Object(v)@ == JsonModel::Object(entries_model(v@)),
{
    let a = json_model(Json::Object(v));
    let m = a->Object_0;
    assert(m.len() == v@.len());
    assert forall|i: int| 0 <= i < m.len() implies m[i] == entries_model(v@)[i] by {}
    assert(m =~= entries_model(v@));
}

/// The items of an array, each by its view.
pub open spec fn items_model(v: Seq<Json>) -> Seq<JsonModel> {
    Seq::new(v.len(), |i: int| v[i]@)
}

pub proof fn lemma_array_model(v: Vec<Json>)
    ensures
        Json::Array(v)@ == JsonModel::Array(items_model(v@)),
{
    let a = json_model(Json::Array(v));
    let m = a->Array_0;
    assert(m.len() == v@.len());
    assert forall|i: int| 0 <= i < m.len() implies m[i] == items_model(v@)[i] by {}
    assert(m =~= items_model(v@));
}

/// The parsed value of a text, or the parser's message.
pub open spec fn parsed_model(r: Result<Json, String>) -> Result<JsonModel, Seq<char>> {
    match r {
        Ok(j) => Ok(j@),
        Err(m) => Err(m@),
    }
}

/// A name for what `serde_json::from_str::<serde_json::Value>` makes of a
/// text: the value, or the message of the parse error.
pub uninterp spec fn parsed_json(text: Seq<char>) -> Result<JsonModel, Seq<char>>;

/// A name for what `serde_json::to_string_pretty` writes for a value.
pub uninterp spec fn pretty_json(value: JsonModel) -> Seq<char>;

/// `serde_json::Value` as a `Json`, variant for variant; the body of
/// `parse_json` calls it on the parsed value.
#[verifier::external_body]
fn json_of_value(v: &serde_json::Value) -> Json {
    match v {
        serde_json::Value::Null => Json::Null,
        serde_json::Value::Bool(b) => Json::Bool(*b),
        serde_json::Value::Number(n) => Json::Number(n.clone()),
        serde_json::Value::String(s) => Json::Str(s.clone()),
        serde_json::Value::Array(a) => Json::Array(a.iter().map(json_of_value).collect()),
        serde_json::Value::Object(o) => Json::Object(o.iter().map(|(k, e)| (k.clone(), json_of_value(e))).collect()),
    }
}

/// A `Json` as a `serde_json::Value`, variant for variant; the body of
/// `to_pretty_json` calls it.
#[verifier::external_body]
fn value_of_json(j: &Json) -> serde_json::Value {
    match j {
        Json::Null => serde_json::Value::Null,
        Json::Bool(b) => serde_json::Value::Bool(*b),
        Json::Number(n) => serde_json::Value::Number(n.clone()),
        Json::Str(s) => serde_json::Value::String(s.clone()),
        Json::Array(a) => serde_json::Value::Array(a.iter().map(value_of_json).collect()),
        Json::Object(o) => serde_json::Value::Object(o.iter().map(|(k, e)| (k.clone(), value_of_json(e))).collect()),
    }
}

/// Parses a text with `serde_json::from_str` into a `serde_json::Value`,
/// handed back variant for variant as a `Json`.
///
/// Trusted: the result, the parser's message included, is the named
/// `parsed_json` of the text.
#[verifier::external_body]
pub(crate) fn parse_json(text: &str) -> (r: Result<Json, String>)
    ensures
        parsed_model(r) == parsed_json(text@),
{
    match serde_json::from_str::<serde_json::Value>(text) {
        Ok(v) => Ok(json_of_value(&v)),
        Err(e) => Err(e.to_string()),
    }
}

/// Writes a value with `serde_json::to_string_pretty`.
///
/// Trusted: the text is the named `pretty_json` of the value, and it is
/// `Ok`: serde_json documents that serializing fails only where the value's
/// `Serialize` decides to or a map has non-string keys, and a
/// `serde_json::Value` has string keys and never decides to fail.
#[verifier::external_body]
pub(crate) fn to_pretty_json(value: &Json) -> (r: Result<String, String>)
    ensures
        r is Ok,
        r matches Ok(s) ==> s@ == pretty_json(value@),
{
    match serde_json::to_string_pretty(&value_of_json(value)) {
        Ok(s) => Ok(s),
        Err(e) => Err(e.to_string()),
    }
}

/// The index of the first entry with key `key`, if there is one.
pub open spec fn key_index(entries: Seq<(Seq<char>, JsonModel)>, key: Seq<char>) -> Option<int>
    decreases entries.len(),
{
    if entries.len() == 0 {
        None
    } else {
        match key_index(entries.drop_last(), key) {
            Some(i) => Some(i),
            None => if entries.last().0 == key {
                Some(entries.len() - 1)
            } else {
                None
            },
        }
    }
}

pub proof fn lemma_key_index_bounds(entries: Seq<(Seq<char>, JsonModel)>, key: Seq<char>)
    ensures
        key_index(entries, key) matches Some(i) ==> 0 <= i < entries.len() && entries[i].0 == key,
    decreases entries.len(),
{
    if entries.len() > 0 {
        lemma_key_index_bounds(entries.drop_last(), key);
    }
}

/// The index of the first entry of an object with key `key`, as
/// `serde_json::Map::get` finds it among unique keys.
pub fn find_key(entries: &Vec<(String, Json)>, key: &str) -> (r: Option<usize>)
    ensures
        match r {
            Some(i) => key_index(entries_model(entries@), key@) == Some(i as int),
            None => key_index(entries_model(entries@), key@) is None,
        },
{
    let ghost m = entries_model(entries@);
    let mut found: Option<usize> = None;
    let mut i: usize = 0;
    while i < entries.len()
        invariant
            i <= entries.len(),
            m == entries_model(entries@),
            match found {
                Some(f) => key_index(m.take(i as int), key@) == Some(f as int),
                None => key_index(m.take(i as int), key@) is None,
            },
        decreases entries.len() - i,
    {
        assert(m.take(i + 1).drop_last() =~= m.take(i as int));
        if found.is_none() && str_eq(entries[i].0.as_str(), key) {
            found = Some(i);
        }
        i = i + 1;
    }
    assert(m.take(entries.len() as int) =~= m);
    found
}

} // verus!
