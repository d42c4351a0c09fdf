//! YAML mappings that keep the order of their keys.

use crate::entries;
use vstd::prelude::*;

verus! {

/// A YAML mapping.
#[verifier::external_type_specification]
#[verifier::external_body]
pub struct ExYamlMapping(yaml_serde::Mapping);

/// What a YAML value holds.
pub enum YamlModel {
    Null,
    Bool(bool),
    /// A number, in its notation.
    Number(Seq<char>),
    Text(Seq<char>),
    List(Seq<YamlModel>),
    /// The entries in order.
    Mapping(Seq<(YamlModel, YamlModel)>),
    /// A value with a tag.
    Tagged(Seq<char>, Box<YamlModel>),
}

/// The entries of a YAML mapping, in order.
pub type YamlEntries = Seq<(YamlModel, YamlModel)>;

/// The entries of a YAML mapping, in order.
pub uninterp spec fn mapping_entries(m: yaml_serde::Mapping) -> Seq<(YamlModel, YamlModel)>;

/// A value to be put into a YAML mapping.
pub enum Node {
    Bool(bool),
    Text(String),
    Mapping(yaml_serde::Mapping),
}

impl View for Node {
    type V = YamlModel;

    open spec fn view(&self) -> YamlModel {
        match *self {
            Node::Bool(b) => YamlModel::Bool(b),
            Node::Text(t) => YamlModel::Text(t@),
            Node::Mapping(m) => YamlModel::Mapping(mapping_entries(m)),
        }
    }
}

/// What stands under a key of a mapping.
pub enum Section {
    /// Nothing.
    Missing,
    /// A mapping.
    Mapping(yaml_serde::Mapping),
    /// Something else.
    Other,
}

/// `yaml_serde::Mapping::new`: a mapping without entries.
#[verifier::external_body]
pub(crate) fn new_mapping() -> (r: yaml_serde::Mapping)
    ensures
        mapping_entries(r) == Seq::<(YamlModel, YamlModel)>::empty(),
{
    yaml_serde::Mapping::new()
}

/// `yaml_serde::Mapping::insert` under a text key: replaces the value under the key where it
/// stands, or adds an entry at the end.
#[verifier::external_body]
pub(crate) fn insert(m: &mut yaml_serde::Mapping, key: &str, node: Node)
    ensures
        mapping_entries(*final(m)) == entries::put(
            mapping_entries(*old(m)),
            YamlModel::Text(key@),
            node@,
        ),
{
    let value = match node {
        Node::Bool(b) => yaml_serde::Value::Bool(b),
        Node::Text(t) => yaml_serde::Value::String(t),
        Node::Mapping(m) => yaml_serde::Value::Mapping(m),
    };
    m.insert(yaml_serde::Value::String(key.to_string()), value);
}

/// `yaml_serde::Mapping::shift_remove` of a text key: takes the entry out, leaves the others
/// in their order, and says whether there was one. No text key stands twice in a mapping, so
/// none is left under this one.
#[verifier::external_body]
pub(crate) fn shift_remove(m: &mut yaml_serde::Mapping, key: &str) -> (r: bool)
    ensures
        r == entries::has_entry(mapping_entries(*old(m)), YamlModel::Text(key@)),
        mapping_entries(*final(m)) == entries::without(
            mapping_entries(*old(m)),
            YamlModel::Text(key@),
        ),
        !entries::has_entry(mapping_entries(*final(m)), YamlModel::Text(key@)),
{
    m.shift_remove(key).is_some()
}

/// `yaml_serde::Mapping::get` of a text key: a copy of the mapping that stands there.
#[verifier::external_body]
pub(crate) fn get_section(m: &yaml_serde::Mapping, key: &str) -> (r: Section)
    ensures
        match r {
            Section::Missing => !entries::has_entry(mapping_entries(*m), YamlModel::Text(key@)),
            Section::Mapping(s) => entries::value_under(
                mapping_entries(*m),
                YamlModel::Text(key@),
            ) == Some(YamlModel::Mapping(mapping_entries(s))),
            Section::Other => entries::has_entry(mapping_entries(*m), YamlModel::Text(key@))
                && !(entries::value_under(mapping_entries(*m), YamlModel::Text(key@))->0
                    is Mapping),
        },
{
    match m.get(key) {
        None => Section::Missing,
        Some(yaml_serde::Value::Mapping(s)) => Section::Mapping(s.clone()),
        Some(_) => Section::Other,
    }
}

/// `yaml_serde::Mapping::is_empty`.
#[verifier::external_body]
pub(crate) fn is_empty(m: &yaml_serde::Mapping) -> (r: bool)
    ensures
        r == (mapping_entries(*m).len() == 0),
{
    m.is_empty()
}

} // verus!
