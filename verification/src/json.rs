//! JSON documents, and the calls into `serde_json` that build and render
//! them.
//!
//! Nothing in this file is proved about `serde_json`: the contracts of the
//! functions marked `external_body` say what its source and documentation
//! show, and the rest of the library is proved from them.

use vstd::prelude::*;
use crate::table::{distinct_keys, find};

verus! {

/// A JSON document as a mathematical value. Only the kinds of value that
/// records are made of are here. An object is the list of its members in
/// the order in which they are written.
pub enum Json {
    Number(nat),
    Text(Seq<char>),
    List(Seq<Json>),
    Object(Seq<(Seq<char>, Json)>),
}

impl Json {
    /// The value of the first member called `name`, where the document is
    /// an object that has such a member.
    pub open spec fn member(self, name: Seq<char>) -> Option<Json> {
        match self {
            Json::Object(members) => find(members, name),
            _ => None,
        }
    }
}

/// `serde_json::Value`, of which the verifier sees nothing but that it is a
/// value.
#[verifier::external_type_specification]
#[verifier::external_body]
pub struct ExValue(serde_json::Value);

/// `serde_json::Error`, which is only ever passed on.
#[verifier::external_type_specification]
#[verifier::external_body]
pub struct ExError(serde_json::Error);

/// The document that a `serde_json::Value` holds. The functions below that
/// build a value say which document it holds; of values made elsewhere
/// nothing is known.
pub uninterp spec fn json_of(value: serde_json::Value) -> Json;

/// What `serde_json::to_vec_pretty` makes of a value that holds `doc`: the
/// pretty-printed text, or nothing where it reports an error.
pub uninterp spec fn pretty_text(doc: Json) -> Option<Seq<u8>>;

/// The documents that a list of values holds, in order.
pub open spec fn item_docs(items: Seq<serde_json::Value>) -> Seq<Json> {
    items.map_values(|item: serde_json::Value| json_of(item))
}

/// The members that a list of named values stands for, in order.
pub open spec fn entry_docs(entries: Seq<(String, serde_json::Value)>) -> Seq<(Seq<char>, Json)> {
    entries.map_values(|entry: (String, serde_json::Value)| (entry.0@, json_of(entry.1)))
}

/// `serde_json::Value::from` on a `usize`: the value is a number, and the
/// number is `n`.
#[verifier::external_body]
pub(crate) fn number_value(n: usize) -> (value: serde_json::Value)
    ensures
        json_of(value) == Json::Number(n as nat),
{
    serde_json::Value::from(n)
}

/// `serde_json::Value::from` on a string slice: the value is a string with
/// the same characters.
#[verifier::external_body]
pub(crate) fn text_value(text: &str) -> (value: serde_json::Value)
    ensures
        json_of(value) == Json::Text(text@),
{
    serde_json::Value::from(text)
}

/// `serde_json::Value::Array`, the variant of the enum: the value is the
/// array of the given values, in their order.
#[verifier::external_body]
pub(crate) fn list_value(items: Vec<serde_json::Value>) -> (value: serde_json::Value)
    ensures
        json_of(value) == Json::List(item_docs(items@)),
{
    serde_json::Value::Array(items)
}

/// `serde_json::Value::Object` on a `serde_json::Map` collected from the
/// entries: the value is the object with these members. This library builds
/// `serde_json` with its feature `preserve_order`, under which the map keeps
/// its members in the order of insertion; as no name is given twice, that is
/// the order of `entries`.
#[verifier::external_body]
pub(crate) fn object_value(entries: Vec<(String, serde_json::Value)>) -> (value: serde_json::Value)
    requires
        distinct_keys(entry_docs(entries@)),
    ensures
        json_of(value) == Json::Object(entry_docs(entries@)),
{
    serde_json::Value::Object(entries.into_iter().collect())
}

/// `serde_json::to_vec_pretty` on a value: whether it gives a text, and
/// which, depends on nothing but the document that the value holds. What
/// the text is, is not said here.
#[verifier::external_body]
pub(crate) fn to_vec_pretty(value: &serde_json::Value) -> (rendered: Result<
    Vec<u8>,
    serde_json::Error,
>)
    ensures
        match rendered {
            Ok(bytes) => pretty_text(json_of(*value)) == Some(bytes@),
            Err(_) => pretty_text(json_of(*value)) is None,
        },
{
    serde_json::to_vec_pretty(value)
}

} // verus!
