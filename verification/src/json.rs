//! JSON objects, built and written by serde_json. The functions of this
//! file are trusted: their contracts state what serde_json and std do, and
//! are not proved.

use crate::text::decimal;
use vstd::prelude::*;

verus! {

/// A JSON object in the making: serde_json's `Map` from strings to values.
#[verifier::external_body]
pub struct JsonObject {
    members: serde_json::Map<String, serde_json::Value>,
}

/// What an object holds: for each of its keys the compact JSON text of
/// the member.
pub uninterp spec fn json_members(o: JsonObject) -> Map<Seq<char>, Seq<u8>>;

/// The compact JSON text of an object whose members have the given texts:
/// what serde_json's `to_string` writes for it.
pub uninterp spec fn json_object_text(members: Map<Seq<char>, Seq<u8>>) -> Seq<u8>;

/// The compact JSON text of a string: what serde_json's `to_string`
/// writes for it, in quotes and escaped as JSON asks.
pub uninterp spec fn json_string_text(s: Seq<char>) -> Seq<u8>;

/// The members of an object that has none.
pub open spec fn no_members() -> Map<Seq<char>, Seq<u8>> {
    Map::empty()
}

/// The decimal numeral of `n` as characters.
pub open spec fn decimal_text(n: nat) -> Seq<char> {
    Seq::new(decimal(n).len(), |i: int| decimal(n)[i] as char)
}

/// The decimal numeral of `n` as a string. This is the trusted use of
/// std's formatting of an unsigned integer, which writes its decimal
/// digits and nothing else.
#[verifier::external_body]
pub(crate) fn number_string(n: usize) -> (numeral: String)
    ensures
        numeral@ == decimal_text(n as nat),
{
    format!("{}", n)
}

/// An object without members: serde_json's `Map::new`.
#[verifier::external_body]
pub(crate) fn json_new() -> (object: JsonObject)
    ensures
        json_members(object) == no_members(),
{
    JsonObject { members: serde_json::Map::new() }
}

/// Sets the member `key` of an object to a number: serde_json's
/// `Map::insert` of a `Value::from` an unsigned integer, which is written
/// as its decimal numeral. Every other member stays as it is.
#[verifier::external_body]
pub(crate) fn json_put_number(object: &mut JsonObject, key: String, n: u16)
    ensures
        json_members(*final(object)) == json_members(*old(object)).insert(
            key@,
            decimal(n as nat),
        ),
{
    object.members.insert(key, serde_json::Value::from(n));
}

/// Sets the member `key` of an object to a string: serde_json's
/// `Map::insert` of a `Value::String`. Every other member stays as it is.
#[verifier::external_body]
pub(crate) fn json_put_string(object: &mut JsonObject, key: String, s: String)
    ensures
        json_members(*final(object)) == json_members(*old(object)).insert(
            key@,
            json_string_text(s@),
        ),
{
    object.members.insert(key, serde_json::Value::String(s));
}

/// Sets the member `key` of an object to another object: serde_json's
/// `Map::insert` of a `Value::Object`. Every other member stays as it is.
#[verifier::external_body]
pub(crate) fn json_put_object(object: &mut JsonObject, key: String, member: JsonObject)
    ensures
        json_members(*final(object)) == json_members(*old(object)).insert(
            key@,
            json_object_text(json_members(member)),
        ),
{
    object.members.insert(key, serde_json::Value::Object(member.members));
}

/// The compact JSON text of an object, as bytes: serde_json's `to_string`
/// on a `Value::Object`.
#[verifier::external_body]
pub(crate) fn json_bytes(object: JsonObject) -> (bytes: Vec<u8>)
    ensures
        bytes@ == json_object_text(json_members(object)),
{
    serde_json::Value::Object(object.members).to_string().into_bytes()
}

} // verus!
