//! YAML values as the library reads them: the values of `serde_yaml`,
//! variant for variant, with the lookup of a string key in a mapping.

use vstd::prelude::*;
use crate::text::str_eq;

verus! {

#[verifier::external_type_specification]
#[verifier::external_body]
pub struct ExYamlValue(serde_yaml::Value);

#[verifier::external_type_specification]
#[verifier::external_body]
pub struct ExYamlNumber(serde_yaml::Number);

/// A YAML value, as `serde_yaml::Value` holds it; a mapping is its entries
/// in the order of the map, and a tagged value its tag as written (`!tag`)
/// and the value.
#[derive(Debug)]
pub enum Yaml {
    Null,
    Bool(bool),
    Number(serde_yaml::Number),
    Str(String),
    Sequence(Vec<Yaml>),
    Mapping(Vec<(Yaml, Yaml)>),
    Tagged(String, Box<Yaml>),
}

pub enum YamlModel {
    Null,
    Bool(bool),
    Number(serde_yaml::Number),
    Str(Seq<char>),
    Sequence(Seq<YamlModel>),
    Mapping(Seq<(YamlModel, YamlModel)>),
    Tagged(Seq<char>, Box<YamlModel>),
}

pub open spec fn yaml_model(y: Yaml) -> YamlModel
    decreases y,
{
    match y {
        Yaml::Null => YamlModel::Null,
        Yaml::Bool(b) => YamlModel::Bool(b),
        Yaml::Number(n) => YamlModel::Number(n),
        Yaml::Str(s) => YamlModel::Str(s@),
        Yaml::Sequence(v) => YamlModel::Sequence(Seq::new(v@.len(), |i: int| if 0 <= i < v@.len() {
            yaml_model(v@[i])
        } else {
            YamlModel::Null
        })),
        Yaml::Mapping(v) => YamlModel::Mapping(Seq::new(v@.len(), |i: int| if 0 <= i < v@.len() {
            (yaml_model(v@[i].0), yaml_model(v@[i].1))
        } else {
            (YamlModel::Null, YamlModel::Null)
        })),
        Yaml::Tagged(t, v) => YamlModel::Tagged(t@, Box::new(yaml_model(*v))),
    }
}

impl View for Yaml {
    type V = YamlModel;

    open spec fn view(&self) -> YamlModel {
        yaml_model(*self)
    }
}

/// The entries of a mapping, each key and value by its view.
pub open spec fn mapping_model(v: Seq<(Yaml, Yaml)>) -> Seq<(YamlModel, YamlModel)> {
    Seq::new(v.len(), |i: int| (v[i].0@, v[i].1@))
}

pub proof fn lemma_mapping_model(v: Vec<(Yaml, Yaml)>)
    ensures
        Yaml::Mapping(v)@ == YamlModel::Mapping(mapping_model(v@)),
{
    let a = yaml_model(Yaml::Mapping(v));
    let m = a->Mapping_0;
    assert(m.len() == v@.len());
    assert forall|i: int| 0 <= i < m.len() implies m[i] == mapping_model(v@)[i] by {}
    assert(m =~= mapping_model(v@));
}

/// The parsed value of a text, or the parser's message.
pub open spec fn parsed_yaml_model(r: Result<Yaml, String>) -> Result<YamlModel, Seq<char>> {
    match r {
        Ok(y) => Ok(y@),
        Err(m) => Err(m@),
    }
}

/// A name for what `serde_yaml::from_str::<serde_yaml::Value>` makes of a
/// text: the value, or the message of the parse error.
pub uninterp spec fn parsed_yaml(text: Seq<char>) -> Result<YamlModel, Seq<char>>;

/// `serde_yaml::Value` as a `Yaml`, variant for variant; the body of
/// `parse_yaml` calls it on the parsed value.
#[verifier::external_body]
fn yaml_of_value(v: &serde_yaml::Value) -> Yaml {
    match v {
        serde_yaml::Value::Null => Yaml::Null,
        serde_yaml::Value::Bool(b) => Yaml::Bool(*b),
        serde_yaml::Value::Number(n) => Yaml::Number(n.clone()),
        serde_yaml::Value::String(s) => Yaml::Str(s.clone()),
        serde_yaml::Value::Sequence(a) => Yaml::Sequence(a.iter().map(yaml_of_value).collect()),
        serde_yaml::Value::Mapping(m) => Yaml::Mapping(m.iter().map(|(k, e)| (yaml_of_value(k), yaml_of_value(e))).collect()),
        serde_yaml::Value::Tagged(t) => Yaml::Tagged(t.tag.to_string(), Box::new(yaml_of_value(&t.value))),
    }
}

/// Parses a text with `serde_yaml::from_str` into a `serde_yaml::Value`,
/// handed back variant for variant as a `Yaml`.
///
/// Trusted: the result, the parser's message included, is the named
/// `parsed_yaml` of the text.
#[verifier::external_body]
pub(crate) fn parse_yaml(text: &str) -> (r: Result<Yaml, String>)
    ensures
        parsed_yaml_model(r) == parsed_yaml(text@),
{
    match serde_yaml::from_str::<serde_yaml::Value>(text) {
        Ok(v) => Ok(yaml_of_value(&v)),
        Err(e) => Err(e.to_string()),
    }
}

/// The index of the first entry whose key is the string `key`, as
/// `serde_yaml::Mapping::get` finds it among unique keys.
pub open spec fn string_key_index(entries: Seq<(YamlModel, YamlModel)>, key: Seq<char>) -> Option<int>
    decreases entries.len(),
{
    if entries.len() == 0 {
        None
    } else {
        match string_key_index(entries.drop_last(), key) {
            Some(i) => Some(i),
            None => if entries.last().0 == YamlModel::Str(key) {
                Some(entries.len() - 1)
            } else {
                None
            },
        }
    }
}

pub proof fn lemma_string_key_index_bounds(entries: Seq<(YamlModel, YamlModel)>, key: Seq<char>)
    ensures
        string_key_index(entries, key) matches Some(i) ==> 0 <= i < entries.len(),
    decreases entries.len(),
{
    if entries.len() > 0 {
        lemma_string_key_index_bounds(entries.drop_last(), key);
    }
}

/// The index of the first entry of a mapping whose key is the string `key`.
pub fn find_string_key(entries: &Vec<(Yaml, Yaml)>, key: &str) -> (r: Option<usize>)
    ensures
        match r {
            Some(i) => string_key_index(mapping_model(entries@), key@) == Some(i as int),
            None => string_key_index(mapping_model(entries@), key@) is None,
        },
{
    let ghost m = mapping_model(entries@);
    let mut found: Option<usize> = None;
    let mut i: usize = 0;
    while i < entries.len()
        invariant
            i <= entries.len(),
            m == mapping_model(entries@),
            match found {
                Some(f) => string_key_index(m.take(i as int), key@) == Some(f as int),
                None => string_key_index(m.take(i as int), key@) is None,
            },
        decreases entries.len() - i,
    {
        assert(m.take(i + 1).drop_last() =~= m.take(i as int));
        assert(m[i as int].0 == yaml_model(entries@[i as int].0));
        let is_key = match &entries[i].0 {
            Yaml::Str(s) => str_eq(s.as_str(), key),
            _ => false,
        };
        if found.is_none() && is_key {
            found = Some(i);
        }
        i = i + 1;
    }
    assert(m.take(entries.len() as int) =~= m);
    found
}

} // verus!
