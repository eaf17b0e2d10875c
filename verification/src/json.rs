//! JSON documents, as `serde_json` reads, holds and writes them.
use crate::memories::domain::memory::option_text;
use crate::text::texts;
use vstd::prelude::*;

verus! {

/// A JSON document, as a value of its own.
pub enum JsonTree {
    Null,
    Bool(bool),
    Number(JsonNumber),
    Text(Seq<char>),
    List(Seq<JsonTree>),
    Object(Map<Seq<char>, JsonTree>),
}

/// The forms in which `serde_json` holds a number.
pub enum JsonNumber {
    Unsigned(u64),
    /// Below zero.
    Negative(i64),
    /// The bit pattern of a finite double.
    Double(u64),
}

/// `serde_json::Value`, a document in memory.
#[verifier::external_type_specification]
#[verifier::external_body]
pub struct ExValue(serde_json::Value);

/// The document that a `serde_json::Value` holds.
pub uninterp spec fn json_tree(value: serde_json::Value) -> JsonTree;

/// `serde_json::Map`, the fields of an object in memory.
#[verifier::external_type_specification]
#[verifier::external_body]
#[verifier::reject_recursive_types(K)]
#[verifier::reject_recursive_types(V)]
pub struct ExMap<K, V>(serde_json::Map<K, V>);

/// The fields that a `serde_json::Map` holds.
pub uninterp spec fn json_fields(fields: serde_json::Map<String, serde_json::Value>) -> Map<
    Seq<char>,
    JsonTree,
>;

/// The documents that a list of values holds.
pub open spec fn json_trees(values: Seq<serde_json::Value>) -> Seq<JsonTree> {
    values.map_values(|v: serde_json::Value| json_tree(v))
}

/// What `serde_json::from_str` makes of a text: the document that it denotes,
/// or the sentence that says why it is not JSON.
pub uninterp spec fn json_read(text: Seq<char>) -> Result<JsonTree, Seq<char>>;

/// The document that a text denotes, if it is JSON.
pub open spec fn json_parse(text: Seq<char>) -> Option<JsonTree> {
    match json_read(text) {
        Ok(tree) => Some(tree),
        Err(_) => None,
    }
}

/// What is said of a text that is not JSON.
pub open spec fn json_complaint(text: Seq<char>) -> Seq<char> {
    match json_read(text) {
        Ok(_) => Seq::empty(),
        Err(sentence) => sentence,
    }
}

/// A document on one line, as `serde_json` displays it: an object holds its
/// fields sorted by name, so the document alone settles the text.
pub uninterp spec fn json_compact(tree: JsonTree) -> Seq<char>;

/// A document over several lines, as `serde_json::to_string_pretty` writes it.
pub uninterp spec fn json_pretty(tree: JsonTree) -> Seq<char>;

/// The bit pattern of the double nearest to an integer.
pub uninterp spec fn double_of(n: int) -> u64;

/// The list of strings that a text denotes to `serde_json::from_str`, if any.
pub uninterp spec fn json_strings(text: Seq<char>) -> Option<Seq<Seq<char>>>;

/// The names that `serde_json` may give a meaning of its own in an object.
pub open spec fn is_reserved(name: Seq<char>) -> bool {
    name.len() > 0 && name[0] == '$'
}

/// Documents without fractions and reserved names, nested at most `depth`
/// deep.
pub open spec fn is_plain(tree: JsonTree, depth: nat) -> bool
    decreases depth,
{
    match tree {
        JsonTree::Null => true,
        JsonTree::Bool(_) => true,
        JsonTree::Number(n) => n is Unsigned,
        JsonTree::Text(_) => true,
        JsonTree::List(items) => depth > 0 && forall|i: int|
            0 <= i < items.len() ==> is_plain(#[trigger] items[i], (depth - 1) as nat),
        JsonTree::Object(fields) => depth > 0 && forall|k: Seq<char>| #[trigger]
            fields.contains_key(k) ==> !is_reserved(k) && is_plain(fields[k], (depth - 1) as nat),
    }
}

/// The field of an object, where there is one.
pub open spec fn field_of(tree: JsonTree, key: Seq<char>) -> Option<JsonTree> {
    match tree {
        JsonTree::Object(fields) => if fields.contains_key(key) {
            Some(fields[key])
        } else {
            None
        },
        _ => None,
    }
}

pub open spec fn text_in(tree: Option<JsonTree>) -> Option<Seq<char>> {
    match tree {
        Some(JsonTree::Text(t)) => Some(t),
        _ => None,
    }
}

pub open spec fn list_in(tree: Option<JsonTree>) -> Option<Seq<JsonTree>> {
    match tree {
        Some(JsonTree::List(items)) => Some(items),
        _ => None,
    }
}

pub open spec fn unsigned_in(tree: Option<JsonTree>) -> Option<u64> {
    match tree {
        Some(JsonTree::Number(JsonNumber::Unsigned(n))) => Some(n),
        _ => None,
    }
}

/// The bit pattern of a number as a double.
pub open spec fn double_in(tree: Option<JsonTree>) -> Option<u64> {
    match tree {
        Some(JsonTree::Number(JsonNumber::Unsigned(n))) => Some(double_of(n as int)),
        Some(JsonTree::Number(JsonNumber::Negative(n))) => Some(double_of(n as int)),
        Some(JsonTree::Number(JsonNumber::Double(bits))) => Some(bits),
        _ => None,
    }
}

/// The object with the first `n` of these fields, a later one replacing an
/// earlier one of the same name.
pub open spec fn fields_upto(fields: Seq<(String, serde_json::Value)>, n: nat) -> Map<
    Seq<char>,
    JsonTree,
>
    decreases n,
{
    if n == 0 {
        Map::empty()
    } else {
        fields_upto(fields, (n - 1) as nat).insert(
            fields[n - 1].0@,
            json_tree(fields[n - 1].1),
        )
    }
}

pub open spec fn object_fields(fields: Seq<(String, serde_json::Value)>) -> Map<
    Seq<char>,
    JsonTree,
> {
    fields_upto(fields, fields.len())
}

/// A list of texts, as a document.
pub open spec fn text_list(list: Seq<Seq<char>>) -> JsonTree {
    JsonTree::List(list.map_values(|t: Seq<char>| JsonTree::Text(t)))
}

/// `serde_json::from_str` into a `Value`: the document that the text denotes,
/// or the sentence of the error. What texts are JSON is left to the name.
#[verifier::external_body]
pub(crate) fn parse_document(text: &str) -> (parsed: Result<serde_json::Value, String>)
    ensures
        match parsed {
            Ok(value) => json_read(text@) matches Ok(tree) && tree == json_tree(value),
            Err(sentence) => json_read(text@) matches Err(reason) && reason == sentence@,
        },
{
    match serde_json::from_str::<serde_json::Value>(text) {
        Ok(value) => Ok(value),
        Err(error) => Err(error.to_string()),
    }
}

/// `serde_json::Value::get` with a name: the field, if the value is an object
/// that has it.
#[verifier::external_body]
pub(crate) fn get_field<'a>(value: &'a serde_json::Value, key: &str) -> (field: Option<
    &'a serde_json::Value,
>)
    ensures
        match field {
            Some(found) => field_of(json_tree(*value), key@) == Some(json_tree(*found)),
            None => field_of(json_tree(*value), key@) is None,
        },
{
    value.get(key)
}

/// `serde_json::Value::as_str`: the text, if the value is one.
#[verifier::external_body]
pub(crate) fn value_text(value: &serde_json::Value) -> (text: Option<String>)
    ensures
        match text {
            Some(found) => text_in(Some(json_tree(*value))) == Some(found@),
            None => text_in(Some(json_tree(*value))) is None,
        },
{
    value.as_str().map(|text| text.to_string())
}

/// `serde_json::Value::as_array`: the items, if the value is a list.
#[verifier::external_body]
pub(crate) fn value_items<'a>(value: &'a serde_json::Value) -> (items: Option<
    &'a Vec<serde_json::Value>,
>)
    ensures
        match items {
            Some(found) => list_in(Some(json_tree(*value))) == Some(json_trees(found@)),
            None => list_in(Some(json_tree(*value))) is None,
        },
{
    value.as_array()
}

/// `serde_json::Value::as_u64`: the number, if the value is a whole one that
/// is not negative.
#[verifier::external_body]
pub(crate) fn value_unsigned(value: &serde_json::Value) -> (number: Option<u64>)
    ensures
        number == unsigned_in(Some(json_tree(*value))),
{
    value.as_u64()
}

/// `serde_json::Value::as_f64`: the bit pattern of the number as a double, if
/// the value is a number.
#[verifier::external_body]
pub(crate) fn value_double(value: &serde_json::Value) -> (bits: Option<u64>)
    ensures
        bits == match json_tree(*value) {
            JsonTree::Number(JsonNumber::Unsigned(n)) => Some(double_of(n as int)),
            JsonTree::Number(JsonNumber::Negative(n)) => Some(double_of(n as int)),
            JsonTree::Number(JsonNumber::Double(pattern)) => Some(pattern),
            _ => None,
        },
{
    value.as_f64().map(|number| number.to_bits())
}

/// `Display` of `serde_json::Value`: the document on one line. Where it holds
/// no fraction, no reserved name and is not nested too deep for the parser,
/// parsing gives it back.
#[verifier::external_body]
pub(crate) fn compact_document(value: &serde_json::Value) -> (text: String)
    ensures
        text@ == json_compact(json_tree(*value)),
        is_plain(json_tree(*value), 100) ==> json_parse(text@) == Some(json_tree(*value)),
{
    value.to_string()
}

/// `serde_json::to_string_pretty` of a `Value`, which cannot fail for one.
#[verifier::external_body]
pub(crate) fn pretty_document(value: &serde_json::Value) -> (text: String)
    ensures
        text@ == json_pretty(json_tree(*value)),
{
    serde_json::to_string_pretty(value).unwrap()
}

/// `serde_json::Value::default`: null.
#[verifier::external_body]
pub(crate) fn null_value() -> (value: serde_json::Value)
    ensures
        json_tree(value) == JsonTree::Null,
{
    serde_json::Value::default()
}

/// `serde_json::Value::from` of a text.
#[verifier::external_body]
pub(crate) fn text_value(text: &str) -> (value: serde_json::Value)
    ensures
        json_tree(value) == JsonTree::Text(text@),
{
    serde_json::Value::from(text)
}

/// `serde_json::Value::from` of a number.
#[verifier::external_body]
pub(crate) fn number_value(number: u64) -> (value: serde_json::Value)
    ensures
        json_tree(value) == JsonTree::Number(JsonNumber::Unsigned(number)),
{
    serde_json::Value::from(number)
}

/// `serde_json::Value::from` of a truth value.
#[verifier::external_body]
pub(crate) fn bool_value(truth: bool) -> (value: serde_json::Value)
    ensures
        json_tree(value) == JsonTree::Bool(truth),
{
    serde_json::Value::from(truth)
}

/// `serde_json::Value::from` of a list.
#[verifier::external_body]
pub(crate) fn list_value(items: Vec<serde_json::Value>) -> (value: serde_json::Value)
    ensures
        json_tree(value) == JsonTree::List(json_trees(items@)),
{
    serde_json::Value::from(items)
}

/// `serde_json::Map::new`: an object without fields.
#[verifier::external_body]
fn no_fields() -> (fields: serde_json::Map<String, serde_json::Value>)
    ensures
        json_fields(fields) == fields_upto(Seq::empty(), 0),
{
    serde_json::Map::new()
}

/// `serde_json::Map::insert`: a field more, in place of one of the same name.
#[verifier::external_body]
fn insert_field(
    fields: &mut serde_json::Map<String, serde_json::Value>,
    name: String,
    value: serde_json::Value,
)
    ensures
        json_fields(*final(fields)) == json_fields(*old(fields)).insert(name@, json_tree(value)),
{
    fields.insert(name, value);
}

/// `serde_json::Value::from` of an object's fields.
#[verifier::external_body]
fn fields_value(fields: serde_json::Map<String, serde_json::Value>) -> (value: serde_json::Value)
    ensures
        json_tree(value) == JsonTree::Object(json_fields(fields)),
{
    serde_json::Value::from(fields)
}

/// The object with these fields.
pub fn object_value(fields: Vec<(String, serde_json::Value)>) -> (value: serde_json::Value)
    ensures
        json_tree(value) == JsonTree::Object(object_fields(fields@)),
{
    let mut rest = fields;
    let mut object = no_fields();
    let ghost mut done: nat = 0;
    while rest.len() > 0
        invariant
            done <= fields@.len(),
            rest@ == fields@.skip(done as int),
            json_fields(object) == fields_upto(fields@, done),
        decreases rest@.len(),
    {
        let (name, value) = rest.remove(0);
        insert_field(&mut object, name, value);
        proof {
            done = done + 1;
        }
    }
    fields_value(object)
}

/// `Clone` of `serde_json::Value`.
#[verifier::external_body]
pub(crate) fn copy_document(value: &serde_json::Value) -> (copy: serde_json::Value)
    ensures
        json_tree(copy) == json_tree(*value),
{
    value.clone()
}

/// `serde_json::from_str` into a list of strings.
#[verifier::external_body]
pub(crate) fn parse_strings(text: &str) -> (strings: Option<Vec<String>>)
    ensures
        match strings {
            Some(list) => json_strings(text@) == Some(texts(list@)),
            None => json_strings(text@) is None,
        },
{
    serde_json::from_str::<Vec<String>>(text).ok()
}

/// `serde_json::to_string` of a list of strings, which cannot fail for one,
/// which writes what displaying the same list as a `Value` writes, and which
/// `serde_json::from_str` reads back.
#[verifier::external_body]
pub(crate) fn render_strings(strings: &Vec<String>) -> (text: String)
    ensures
        text@ == json_compact(text_list(texts(strings@))),
        json_strings(text@) == Some(texts(strings@)),
{
    serde_json::to_string(strings).unwrap()
}

/// A list of texts as a document.
pub fn texts_value(list: &Vec<String>) -> (value: serde_json::Value)
    ensures
        json_tree(value) == text_list(texts(list@)),
{
    let mut items: Vec<serde_json::Value> = Vec::new();
    let mut i: usize = 0;
    while i < list.len()
        invariant
            0 <= i <= list@.len(),
            items@.len() == i,
            forall|j: int|
                0 <= j < i ==> json_tree(#[trigger] items@[j]) == JsonTree::Text(list@[j]@),
        decreases list@.len() - i,
    {
        items.push(text_value(list[i].as_str()));
        i += 1;
    }
    assert(json_trees(items@) =~= text_list(texts(list@))->List_0);
    list_value(items)
}

/// The text of a field, where the field is there and is one.
pub fn text_field(value: &serde_json::Value, name: &str) -> (text: Option<String>)
    ensures
        option_text(text) == text_in(field_of(json_tree(*value), name@)),
{
    match get_field(value, name) {
        Some(field) => value_text(field),
        None => None,
    }
}

} // verus!
