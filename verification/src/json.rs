//! JSON values, as `serde_json` reads and writes them.
use serde_json::Value;
use vstd::prelude::*;

use crate::observe::observed_of;

verus! {

/// A JSON value of `serde_json`.
#[verifier::external_type_specification]
#[verifier::external_body]
pub struct ExValue(serde_json::Value);

/// Why `serde_json` could not read or write a text.
#[verifier::external_type_specification]
#[verifier::external_body]
pub struct ExError(serde_json::Error);

/// What a JSON value is.
pub enum Json {
    Null,
    Bool(bool),
    /// A number, as it is written.
    Number(Seq<char>),
    Text(Seq<char>),
    List(Seq<Json>),
    Object(Map<Seq<char>, Json>),
}

impl Json {
    /// The member `key`, if this is an object that has it.
    pub open spec fn member(self, key: Seq<char>) -> Option<Json> {
        match self {
            Json::Object(m) => if m.contains_key(key) {
                Some(m[key])
            } else {
                None
            },
            _ => None,
        }
    }

    /// An object with the one member `key`, which is a text.
    pub open spec fn one(key: Seq<char>, text: Seq<char>) -> Json {
        Json::Object(map![key => Json::Text(text)])
    }

    /// A text, or an object with one member that is a text.
    pub open spec fn flat(self) -> bool {
        ||| self is Text
        ||| exists|key: Seq<char>, text: Seq<char>| self == #[trigger] Json::one(key, text)
    }
}

/// What a value of `serde_json` holds.
pub uninterp spec fn json(v: Value) -> Json;

/// The value that `serde_json::from_str` reads from a text, if it is JSON.
pub uninterp spec fn json_in(text: Seq<char>) -> Option<Json>;

/// The text that `serde_json::to_string` writes for a value.
pub uninterp spec fn json_text(j: Json) -> Seq<char>;

/// `serde_json::from_str`: reads a value of any kind. Whether a text is JSON, and
/// which value it is, depends on the text alone; the grammar is left open, and so
/// is what the error says.
#[verifier::external_body]
fn parse(text: &str) -> (r: Result<Value, serde_json::Error>)
    ensures
        r matches Ok(v) ==> json_in(text@) == Some(json(v)),
        r is Err ==> json_in(text@) is None,
{
    serde_json::from_str(text)
}

/// `e` is an error that reading `text` as JSON can give.
pub closed spec fn misread(text: Seq<char>, e: serde_json::Error) -> bool {
    exists|s: &str| s@ == text && #[trigger] call_ensures(parse, (s,), Err(e))
}

/// Reads a value from a text, or gives the error of reading that text.
pub(crate) fn read(text: &str) -> (r: Result<Value, serde_json::Error>)
    ensures
        r matches Ok(v) ==> json_in(text@) == Some(json(v)),
        r matches Err(e) ==> json_in(text@) is None && misread(text@, e),
{
    let r = parse(text);
    assert(call_ensures(parse, (text,), r));
    r
}

/// The `Display` text of a `serde_json::Error`. What it says is left open.
#[verifier::external_body]
fn error_text(e: &serde_json::Error) -> (r: String) {
    e.to_string()
}

/// `why` is a text that the error `e` can give when it is asked.
pub closed spec fn said(e: serde_json::Error, why: String) -> bool {
    call_ensures(error_text, (&e,), why)
}

/// The text of an error.
pub(crate) fn reason(e: &serde_json::Error) -> (why: String)
    ensures
        said(*e, why),
{
    observed_of(error_text, e)
}

/// `serde_json::to_string`: a value that is a text, or an object with one member
/// that is a text, can always be written, and reading what was written gives the
/// value back. How the characters are written is left open.
#[verifier::external_body]
pub(crate) fn to_text(v: &Value) -> (r: Result<String, serde_json::Error>)
    ensures
        json(*v).flat() ==> r is Ok,
        r matches Ok(s) ==> (json(*v).flat() ==> s@ == json_text(json(*v))),
        r matches Ok(s) ==> (json(*v).flat() ==> json_in(s@) == Some(json(*v))),
{
    serde_json::to_string(v)
}

/// `serde_json::Value::get` with a text as its argument: the member of that name
/// of an object; there is none in any other value.
#[verifier::external_body]
pub(crate) fn get<'a>(v: &'a Value, key: &str) -> (r: Option<&'a Value>)
    ensures
        r matches Some(w) ==> json(*v).member(key@) == Some(json(*w)),
        r is None ==> json(*v).member(key@) is None,
{
    v.get(key)
}

/// `serde_json::Value::as_str`: the text, if the value is one.
#[verifier::external_body]
pub(crate) fn as_text<'a>(v: &'a Value) -> (r: Option<&'a str>)
    ensures
        r matches Some(s) ==> json(*v) == Json::Text(s@),
        r is None ==> json(*v) !is Text,
{
    v.as_str()
}

/// `serde_json::Value::String`: a text as a value.
#[verifier::external_body]
pub(crate) fn text_value(s: &str) -> (v: Value)
    ensures
        json(v) == Json::Text(s@),
{
    Value::String(s.to_owned())
}

/// `serde_json::Map::insert` on a new map: an object with one member.
#[verifier::external_body]
pub(crate) fn object_value(key: &str, member: Value) -> (v: Value)
    ensures
        json(v) == Json::Object(map![key@ => json(member)]),
{
    let mut m = serde_json::Map::new();
    m.insert(key.to_owned(), member);
    Value::Object(m)
}

/// `serde_json::Value::Null`: the value `null`.
#[verifier::external_body]
pub(crate) fn null_value() -> (v: Value)
    ensures
        json(v) == Json::Null,
{
    Value::Null
}

/// `serde_json::Value::clone`: a value that holds the same.
#[verifier::external_body]
pub(crate) fn copy(v: &Value) -> (r: Value)
    ensures
        json(r) == json(*v),
{
    v.clone()
}

} // verus!
