//! JSON documents, as serde_json reads and writes them.
//!
//! A `serde_json::Value` is an opaque value here. `json_doc` names the
//! document that it holds, and the functions below that call into
//! serde_json say over that name what the library believes of each call;
//! none of it is proved.

use vstd::prelude::*;

verus! {

/// A JSON document.
pub enum JsonDoc {
    Null,
    Bool(bool),
    /// A whole number that is not negative and fits 64 bits.
    Unsigned(u64),
    /// Any other number, by the text that writes it.
    OtherNumber(Seq<char>),
    Text(Seq<char>),
    List(Seq<JsonDoc>),
    /// The members of an object, in the order in which it holds them.
    Object(Seq<(Seq<char>, JsonDoc)>),
}

/// `serde_json::Value`, of which nothing is known but what `json_doc` says.
#[verifier::external_type_specification]
#[verifier::external_body]
pub struct ExValue(serde_json::Value);

/// The document that a value holds.
pub uninterp spec fn json_doc(value: serde_json::Value) -> JsonDoc;

/// The document that `bytes` write, if they write one.
pub uninterp spec fn json_parsed(bytes: Seq<u8>) -> Option<JsonDoc>;

/// The text that serde_json writes for a document, without white space
/// between its parts.
pub uninterp spec fn json_text(doc: JsonDoc) -> Seq<char>;

/// `a` comes before `b` when strings are ordered character by character,
/// characters by their code points.
pub open spec fn text_less(a: Seq<char>, b: Seq<char>) -> bool
    decreases a.len(),
{
    if b.len() == 0 {
        false
    } else if a.len() == 0 {
        true
    } else if a[0] != b[0] {
        (a[0] as u32) < (b[0] as u32)
    } else {
        text_less(a.drop_first(), b.drop_first())
    }
}

/// Each key of `members` comes before the next one.
pub open spec fn keys_ascend(members: Seq<(Seq<char>, JsonDoc)>) -> bool {
    forall|i: int|
        0 <= i && i + 1 < members.len() ==> text_less(
            (#[trigger] members[i]).0,
            members[i + 1].0,
        )
}

/// The member of `members` with the key `key`.
pub open spec fn member(members: Seq<(Seq<char>, JsonDoc)>, key: Seq<char>) -> Option<JsonDoc>
    decreases members.len(),
{
    if members.len() == 0 {
        None
    } else if members[0].0 == key {
        Some(members[0].1)
    } else {
        member(members.drop_first(), key)
    }
}

/// The member `key` of a document: it has one when it is an object that
/// holds one.
pub open spec fn doc_member(doc: JsonDoc, key: Seq<char>) -> Option<JsonDoc> {
    match doc {
        JsonDoc::Object(members) => member(members, key),
        _ => None,
    }
}

/// The number that a document is, when it is an unsigned number.
pub open spec fn doc_unsigned(doc: JsonDoc) -> Option<u64> {
    match doc {
        JsonDoc::Unsigned(n) => Some(n),
        _ => None,
    }
}

/// The document that an optional value holds.
pub open spec fn opt_doc(value: Option<serde_json::Value>) -> Option<JsonDoc> {
    match value {
        Some(v) => Some(json_doc(v)),
        None => None,
    }
}

/// The documents that a list of values holds.
pub open spec fn list_docs(values: Seq<serde_json::Value>) -> Seq<JsonDoc> {
    Seq::new(values.len(), |i: int| json_doc(values[i]))
}

/// The members that a list of keys and values stands for.
pub open spec fn member_docs(members: Seq<(String, serde_json::Value)>) -> Seq<
    (Seq<char>, JsonDoc),
> {
    Seq::new(members.len(), |i: int| (members[i].0@, json_doc(members[i].1)))
}

/// `serde_json::from_slice`, read as a `Value`: the document that the bytes
/// write, or nothing when they write none.
#[verifier::external_body]
pub(crate) fn value_from_slice(bytes: &[u8]) -> (value: Option<serde_json::Value>)
    ensures
        opt_doc(value) == json_parsed(bytes@),
{
    serde_json::from_slice::<serde_json::Value>(bytes).ok()
}

/// `Value::get` of serde_json with a string: the member of that name, which
/// only an object can have.
#[verifier::external_body]
pub(crate) fn value_get<'a>(value: &'a serde_json::Value, key: &str) -> (found: Option<
    &'a serde_json::Value,
>)
    ensures
        match found {
            Some(m) => doc_member(json_doc(*value), key@) == Some(json_doc(*m)),
            None => doc_member(json_doc(*value), key@) is None,
        },
{
    value.get(key)
}

/// `Value::as_u64` of serde_json: the number, when the value is a whole
/// number that is not negative and fits 64 bits.
#[verifier::external_body]
pub(crate) fn value_as_u64(value: &serde_json::Value) -> (number: Option<u64>)
    ensures
        number == doc_unsigned(json_doc(*value)),
{
    value.as_u64()
}

/// `Value::from` of serde_json on a string slice: the string as a value.
#[verifier::external_body]
pub(crate) fn value_text(text: &str) -> (value: serde_json::Value)
    ensures
        json_doc(value) == JsonDoc::Text(text@),
{
    serde_json::Value::from(text)
}

/// `Value::from` of serde_json on a `u64`: the number as a value.
#[verifier::external_body]
pub(crate) fn value_unsigned(number: u64) -> (value: serde_json::Value)
    ensures
        json_doc(value) == JsonDoc::Unsigned(number),
{
    serde_json::Value::from(number)
}

/// `Value::from` of serde_json on a `bool`: the truth value as a value.
#[verifier::external_body]
pub(crate) fn value_bool(truth: bool) -> (value: serde_json::Value)
    ensures
        json_doc(value) == JsonDoc::Bool(truth),
{
    serde_json::Value::from(truth)
}

/// `Value::from` of serde_json on a `Vec` of values: the array of them, in
/// order.
#[verifier::external_body]
pub(crate) fn value_list(items: Vec<serde_json::Value>) -> (value: serde_json::Value)
    ensures
        json_doc(value) == JsonDoc::List(list_docs(items@)),
{
    serde_json::Value::from(items)
}

/// `Value::from_iter` of serde_json on keys with values: the object that
/// holds them. Given in ascending order of their keys, the members stand in
/// the object in that order, whichever map serde_json was built with.
#[verifier::external_body]
pub(crate) fn value_object(members: Vec<(String, serde_json::Value)>) -> (value: serde_json::Value)
    requires
        keys_ascend(member_docs(members@)),
    ensures
        json_doc(value) == JsonDoc::Object(member_docs(members@)),
{
    members.into_iter().collect::<serde_json::Value>()
}

/// `Value::to_string` of serde_json: the text of the document.
#[verifier::external_body]
pub(crate) fn value_to_string(value: &serde_json::Value) -> (text: String)
    ensures
        text@ == json_text(json_doc(*value)),
{
    value.to_string()
}

} // verus!
