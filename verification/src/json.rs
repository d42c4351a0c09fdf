//! JSON objects that keep the order of their keys.

use crate::entries;
use crate::text;
use vstd::prelude::*;

verus! {

/// A JSON object.
#[verifier::external_type_specification]
#[verifier::external_body]
#[verifier::reject_recursive_types(K)]
#[verifier::reject_recursive_types(V)]
pub struct ExJsonMap<K, V>(serde_json::Map<K, V>);

/// A JSON value.
#[verifier::external_type_specification]
#[verifier::external_body]
pub struct ExJsonValue(serde_json::Value);

/// What a JSON value holds.
pub enum JsonModel {
    Null,
    Bool(bool),
    /// A number, in its notation.
    Number(Seq<char>),
    Text(Seq<char>),
    List(Seq<JsonModel>),
    /// The entries in order.
    Object(Seq<(Seq<char>, JsonModel)>),
}

/// The entries of a JSON object, in order.
pub type JsonEntries = Seq<(Seq<char>, JsonModel)>;

/// The entries of a JSON object, in order.
pub uninterp spec fn object_entries(
    m: serde_json::Map<String, serde_json::Value>,
) -> Seq<(Seq<char>, JsonModel)>;

/// What the JSON parser makes of a text: nothing if it is not JSON.
pub uninterp spec fn parsed_json(text: Seq<char>) -> Option<JsonModel>;

/// What the pretty printer makes of an object with these entries.
pub uninterp spec fn pretty_json(es: Seq<(Seq<char>, JsonModel)>) -> Seq<char>;

/// A value to be put into a JSON object.
pub enum Field {
    Bool(bool),
    Text(String),
    Object(serde_json::Map<String, serde_json::Value>),
}

impl View for Field {
    type V = JsonModel;

    open spec fn view(&self) -> JsonModel {
        match *self {
            Field::Bool(b) => JsonModel::Bool(b),
            Field::Text(t) => JsonModel::Text(t@),
            Field::Object(m) => JsonModel::Object(object_entries(m)),
        }
    }
}

/// Why a text is not a JSON object.
#[derive(Debug, Clone, Copy, PartialEq, Eq, Structural)]
pub enum NotAnObject {
    /// It is not JSON at all.
    Syntax,
    /// It is some other JSON value.
    OtherValue,
}

/// `serde_json::Map::new`: an object without entries.
#[verifier::external_body]
pub(crate) fn new_object() -> (r: serde_json::Map<String, serde_json::Value>)
    ensures
        object_entries(r) == Seq::<(Seq<char>, JsonModel)>::empty(),
{
    serde_json::Map::new()
}

/// `serde_json::Map::insert`, with the order of keys preserved: replaces the value under the
/// key where it stands, or adds an entry at the end.
#[verifier::external_body]
pub(crate) fn insert(
    obj: &mut serde_json::Map<String, serde_json::Value>,
    key: String,
    field: Field,
)
    ensures
        object_entries(*final(obj)) == entries::put(object_entries(*old(obj)), key@, field@),
{
    let value = match field {
        Field::Bool(b) => serde_json::Value::Bool(b),
        Field::Text(t) => serde_json::Value::String(t),
        Field::Object(m) => serde_json::Value::Object(m),
    };
    obj.insert(key, value);
}

/// `serde_json::Map::shift_remove`: takes the entry under the key out and leaves the others
/// in their order. No key stands twice in such a map, so none is left under this one.
#[verifier::external_body]
pub(crate) fn shift_remove(obj: &mut serde_json::Map<String, serde_json::Value>, key: &str)
    ensures
        object_entries(*final(obj)) == entries::without(object_entries(*old(obj)), key@),
        !entries::has_entry(object_entries(*final(obj)), key@),
{
    obj.shift_remove(key);
}

/// The text that a JSON value is, if it is one.
pub open spec fn as_text(v: JsonModel) -> Option<Seq<char>> {
    match v {
        JsonModel::Text(t) => Some(t),
        _ => None,
    }
}

/// The entries of the object under a key, each with the text that its value is: nothing if
/// there is no object there.
pub open spec fn sub_texts(es: JsonEntries, key: Seq<char>) -> Option<
    Seq<(Seq<char>, Option<Seq<char>>)>,
> {
    match entries::value_under(es, key) {
        Some(JsonModel::Object(sub)) => Some(
            Seq::new(sub.len(), |i: int| (sub[i].0, as_text(sub[i].1))),
        ),
        _ => None,
    }
}

/// The contents of a list of keys with optional texts.
pub open spec fn text_entries(v: Seq<(String, Option<String>)>) -> Seq<
    (Seq<char>, Option<Seq<char>>),
> {
    Seq::new(v.len(), |i: int| (v[i].0@, text::view_opt(v[i].1)))
}

/// `serde_json::Map::get`, with `Value::as_object` on the value, and `Value::as_str` on the
/// value of each of its entries: the entries of the object under a key.
#[verifier::external_body]
pub(crate) fn get_object(
    obj: &serde_json::Map<String, serde_json::Value>,
    key: &str,
) -> (r: Option<Vec<(String, Option<String>)>>)
    ensures
        match r {
            Some(v) => sub_texts(object_entries(*obj), key@) == Some(text_entries(v@)),
            None => sub_texts(object_entries(*obj), key@) is None,
        },
{
    obj.get(key).and_then(|v| v.as_object()).map(
        |o| o.iter().map(|(k, v)| (k.clone(), v.as_str().map(String::from))).collect(),
    )
}

/// `serde_json::from_str` to a `Value`: the object that a text writes. The text alone
/// determines the outcome.
#[verifier::external_body]
pub(crate) fn parse_object(content: &str) -> (r: Result<
    serde_json::Map<String, serde_json::Value>,
    NotAnObject,
>)
    ensures
        match r {
            Ok(m) => parsed_json(content@) == Some(JsonModel::Object(object_entries(m))),
            Err(NotAnObject::Syntax) => parsed_json(content@) is None,
            Err(NotAnObject::OtherValue) => parsed_json(content@) is Some && !(parsed_json(
                content@,
            )->0 is Object),
        },
{
    match serde_json::from_str(content) {
        Ok(serde_json::Value::Object(m)) => Ok(m),
        Ok(_) => Err(NotAnObject::OtherValue),
        Err(_) => Err(NotAnObject::Syntax),
    }
}

/// How many lists and objects inside each other the parser surely reads.
pub const READABLE_DEPTH: usize = 100;

/// Whether a number is written as an integer that the parser keeps as one.
pub open spec fn is_integer(n: Seq<char>) -> bool {
    exists|v: nat|
        #![trigger text::decimal_text(v)]
        n == text::decimal_text(v) && v <= u64::MAX || n == "-"@ + text::decimal_text(v) && 0 < v
            <= 0x8000_0000_0000_0000
}

/// Whether a value holds no numbers but integers, and at most `depth` lists and objects inside each other.
pub open spec fn is_simple(v: JsonModel, depth: nat) -> bool
    decreases depth,
{
    match v {
        JsonModel::Null => true,
        JsonModel::Bool(_) => true,
        JsonModel::Number(n) => is_integer(n),
        JsonModel::Text(_) => true,
        JsonModel::List(vs) => depth > 0 && forall|i: int|
            0 <= i < vs.len() ==> is_simple(#[trigger] vs[i], (depth - 1) as nat),
        JsonModel::Object(es) => depth > 0 && forall|i: int|
            0 <= i < es.len() ==> is_simple((#[trigger] es[i]).1, (depth - 1) as nat),
    }
}

/// Whether an object is read back from its text as it is.
pub open spec fn reads_back(es: JsonEntries) -> bool {
    is_simple(JsonModel::Object(es), READABLE_DEPTH as nat)
}

/// `serde_json::to_string_pretty`: an object as indented text, which its entries alone
/// determine. It fails on keys that are no strings and on a writer that fails; an object of
/// JSON values has neither. `serde_json::from_str` reads the text again, with a line feed
/// behind it, as the same object. That is stated for objects without other numbers than
/// integers, since those with a fraction may be read with another last digit, and of limited
/// depth, since the parser gives up on deep ones.
#[verifier::external_body]
pub(crate) fn to_string_pretty(obj: &serde_json::Map<String, serde_json::Value>) -> (r: Option<
    String,
>)
    ensures
        r is Some && r->0@ == pretty_json(object_entries(*obj)),
        reads_back(object_entries(*obj)) ==> parsed_json(r->0@ + "\n"@) == Some(
            JsonModel::Object(object_entries(*obj)),
        ),
{
    serde_json::to_string_pretty(obj).ok()
}

} // verus!
