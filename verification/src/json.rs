//! JSON documents, as far as the proxy reads and writes them.
//!
//! Documents are parsed and printed by the `serde_json` crate. A parsed value stays opaque; what
//! is known of it are its members, items and texts, how deep it nests, whether it is plain, and
//! whether it is steady.
//!
//! The parser keeps one key for itself. Where an object begins with it, the parser does not read
//! an object: it takes the string under the key for a document of its own, and reads that. Values
//! without the key are plain, and these alone are sure to be read as they were printed.
//!
//! The parser may take a number with a fraction for a neighbouring one. Values in which every
//! number is read as it is printed are steady.

use serde_json::Value;
use vstd::prelude::*;

verus! {

/// A JSON value of the `serde_json` crate.
#[verifier::external_type_specification]
#[verifier::external_body]
pub struct ExValue(Value);

/// The JSON value that a document holds; nothing where the bytes are no JSON document.
pub uninterp spec fn json_document(bytes: Seq<u8>) -> Option<Value>;

/// The compact document that holds a JSON value.
pub uninterp spec fn json_bytes(value: Value) -> Seq<u8>;

/// The member of an object under a key; nothing where there is none, or the value is no object.
pub uninterp spec fn json_member(value: Value, key: Seq<char>) -> Option<Value>;

/// The item of an array at an index; nothing where there is none, or the value is no array.
pub uninterp spec fn json_item(value: Value, index: int) -> Option<Value>;

/// The characters of a JSON string; nothing for any other value.
pub uninterp spec fn json_text(value: Value) -> Option<Seq<char>>;

/// How many arrays and objects of a value stand inside one another.
pub uninterp spec fn json_depth(value: Value) -> nat;

/// No object in a value has the key that the parser keeps for itself.
pub uninterp spec fn json_plain(value: Value) -> bool;

/// Every number in a value, once printed, is read as the same number. Integers always are.
pub uninterp spec fn json_steady(value: Value) -> bool;

/// The JSON string of the given characters.
pub uninterp spec fn json_string_of(text: Seq<char>) -> Value;

/// The object with one member.
pub uninterp spec fn json_object_of(key: Seq<char>, member: Value) -> Value;

/// An object with one member set.
pub uninterp spec fn json_with_member(value: Value, key: Seq<char>, member: Value) -> Value;

/// How deep a document may nest to be read.
pub open spec fn json_depth_limit() -> nat {
    127
}

/// The key that the parser keeps for itself.
pub open spec fn json_reserved_key() -> Seq<char> {
    "$serde_json::private::RawValue"@
}

/// `part` stands somewhere in `bytes`.
pub open spec fn occurs_in(part: Seq<u8>, bytes: Seq<u8>) -> bool {
    exists|i: int| 0 <= i <= bytes.len() && part.is_prefix_of(#[trigger] bytes.skip(i))
}

/// Neither a backslash nor the reserved key stands in the bytes.
pub open spec fn is_plain_text(bytes: Seq<u8>) -> bool {
    &&& !bytes.contains(92)
    &&& !occurs_in(json_reserved_key().map_values(|c: char| c as u8), bytes)
}

/// An ASCII digit.
pub open spec fn is_digit(byte: u8) -> bool {
    48 <= byte <= 57
}

/// ASCII digits alone.
pub open spec fn all_digits(bytes: Seq<u8>) -> bool {
    forall|i: int| 0 <= i < bytes.len() ==> is_digit(#[trigger] bytes[i])
}

/// No number in the bytes has a fraction or an exponent, is a negative zero, or has more than
/// eighteen digits.
pub open spec fn is_fractionless(bytes: Seq<u8>) -> bool {
    &&& forall|i: int|
        0 <= i < bytes.len() - 1 && is_digit(#[trigger] bytes[i]) ==> bytes[i + 1] != 46
            && bytes[i + 1] != 69 && bytes[i + 1] != 101
    &&& forall|i: int|
        0 <= i < bytes.len() - 1 && #[trigger] bytes[i] == 45 ==> bytes[i + 1] != 48
    &&& forall|i: int|
        0 <= i <= bytes.len() - 19 ==> !all_digits((#[trigger] bytes.skip(i)).take(19))
}

/// One step into a value.
pub enum JsonStep {
    /// To the member of an object under a key.
    Member(Seq<char>),
    /// To the item of an array at an index.
    Item(int),
}

/// Where one step leads.
pub open spec fn json_step(value: Value, step: JsonStep) -> Option<Value> {
    match step {
        JsonStep::Member(key) => json_member(value, key),
        JsonStep::Item(index) => json_item(value, index),
    }
}

/// The text at the end of a path.
pub open spec fn json_text_at(value: Value, path: Seq<JsonStep>) -> Option<Seq<char>>
    decreases path.len(),
{
    if path.len() == 0 {
        json_text(value)
    } else {
        match json_step(value, path[0]) {
            Some(part) => json_text_at(part, path.drop_first()),
            None => None,
        }
    }
}

/// `serde_json::from_slice` into a `Value`: a value exactly where the bytes are a JSON document
/// that can be read. Where neither the reserved key nor a backslash that could spell it stands in
/// the bytes, the value is plain and nests no deeper than the parser goes. A document that stands
/// in a string under the reserved key is read with a depth of its own. Numbers without a fraction,
/// an exponent or too many digits are read as integers, so a value of these alone is steady.
#[verifier::external_body]
pub(crate) fn json_from_slice(bytes: &[u8]) -> (r: Option<Value>)
    ensures
        r == json_document(bytes@),
        r is Some && is_plain_text(bytes@) ==> json_plain(r->0) && json_depth(r->0)
            <= json_depth_limit(),
        r is Some && is_plain_text(bytes@) && is_fractionless(bytes@) ==> json_steady(r->0),
{
    serde_json::from_slice(bytes).ok()
}

/// `Value::get` with a string: the member under that key.
#[verifier::external_body]
pub(crate) fn json_get<'a>(value: &'a Value, key: &str) -> (r: Option<&'a Value>)
    ensures
        r is Some == json_member(*value, key@) is Some,
        r is Some ==> *r->0 == json_member(*value, key@)->0,
{
    value.get(key)
}

/// `Value::as_str`: the characters of a JSON string.
#[verifier::external_body]
pub(crate) fn json_as_str<'a>(value: &'a Value) -> (r: Option<&'a str>)
    ensures
        r is Some == json_text(*value) is Some,
        r is Some ==> r->0@ == json_text(*value)->0,
{
    value.as_str()
}

/// `Value::from` a string slice: a JSON string of its characters.
#[verifier::external_body]
pub(crate) fn json_string(text: &str) -> (r: Value)
    ensures
        r == json_string_of(text@),
        json_text(r) == Some(text@),
        json_depth(r) == 0,
        json_plain(r),
        json_steady(r),
{
    Value::from(text)
}

/// `Value::from_iter` over one pair of key and value: an object with that one member.
#[verifier::external_body]
pub(crate) fn json_object(key: &str, member: Value) -> (r: Value)
    ensures
        r == json_object_of(key@, member),
        forall|k: Seq<char>| #[trigger]
            json_member(r, k) == if k == key@ {
                Some(member)
            } else {
                None
            },
        json_depth(r) == 1 + json_depth(member),
        json_plain(r) == (key@ != json_reserved_key() && json_plain(member)),
        json_steady(r) == json_steady(member),
{
    Value::from_iter([(key, member)])
}

/// `Value::as_object_mut` and `Map::insert`, on an object: the member under that key is set, the
/// others stay.
#[verifier::external_body]
pub(crate) fn json_insert(value: &mut Value, key: &str, member: Value)
    requires
        exists|k: Seq<char>| json_member(*old(value), k) is Some,
    ensures
        *final(value) == json_with_member(*old(value), key@, member),
        forall|k: Seq<char>| #[trigger]
            json_member(*final(value), k) == if k == key@ {
                Some(member)
            } else {
                json_member(*old(value), k)
            },
        json_depth(*final(value)) <= json_depth(*old(value)) || json_depth(*final(value)) <= 1
            + json_depth(member),
        forall|i: int| #[trigger] json_item(*final(value), i) == json_item(*old(value), i),
        json_plain(*old(value)) && key@ != json_reserved_key() && json_plain(member)
            ==> json_plain(*final(value)),
        json_steady(*old(value)) && json_steady(member) ==> json_steady(*final(value)),
{
    if let Some(object) = value.as_object_mut() {
        object.insert(key.to_owned(), member);
    }
}

/// `serde_json::to_vec` of a `Value`: its compact document. Where the value is plain and nests no
/// deeper than the parser goes, that document, read again, has the same texts in the same places.
/// Where the value is steady too, the document is read as that value.
#[verifier::external_body]
pub(crate) fn json_to_vec(value: &Value) -> (r: Option<Vec<u8>>)
    ensures
        r is Some,
        r->0@ == json_bytes(*value),
        json_plain(*value) && json_depth(*value) <= json_depth_limit() ==> {
            &&& json_document(r->0@) is Some
            &&& forall|path: Seq<JsonStep>| #[trigger]
                json_text_at(json_document(r->0@)->0, path) == json_text_at(*value, path)
            &&& json_steady(*value) ==> json_document(r->0@) == Some(*value)
        },
{
    serde_json::to_vec(value).ok()
}

} // verus!
