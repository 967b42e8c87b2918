//! JSON lines that Ollama sends while it works.

use vstd::prelude::*;
use crate::text::{chars_of, push_text, string_of};

verus! {

/// `serde_json::Value`: any JSON value.
#[verifier::external_type_specification]
#[verifier::external_body]
pub struct ExJsonValue(serde_json::Value);

/// What `serde_json::from_str` makes of a text where a JSON value is asked for: the
/// value, or the message of the error.
pub uninterp spec fn json_value(text: Seq<char>) -> Result<serde_json::Value, Seq<char>>;

/// The members of a JSON object by their keys; none for a value that is no object.
pub uninterp spec fn json_members(value: serde_json::Value) -> Option<
    Map<Seq<char>, serde_json::Value>,
>;

/// The text of a JSON string; none for a value that is no string.
pub uninterp spec fn json_text(value: serde_json::Value) -> Option<Seq<char>>;

/// `serde_json::from_str`, asked for a `serde_json::Value`, with the message of its
/// error. The value or the message is taken as a function of the text; which texts
/// are JSON, and which words a message has, is not stated.
#[verifier::external_body]
fn parse_json(text: &str) -> (r: Result<serde_json::Value, String>)
    ensures
        match r {
            Ok(value) => json_value(text@) == Ok::<serde_json::Value, Seq<char>>(value),
            Err(message) => json_value(text@) == Err::<serde_json::Value, Seq<char>>(message@),
        },
{
    match serde_json::from_str(text) {
        Ok(value) => Ok(value),
        Err(error) => Err(error.to_string()),
    }
}

/// `serde_json::Value::get` with a string: the member of an object with that key;
/// none where the object has no such key or the value is no object.
#[verifier::external_body]
fn json_get<'a>(value: &'a serde_json::Value, key: &str) -> (r: Option<&'a serde_json::Value>)
    ensures
        match json_members(*value) {
            Some(members) => if members.contains_key(key@) {
                r == Some(&members[key@])
            } else {
                r is None
            },
            None => r is None,
        },
{
    value.get(key)
}

/// `serde_json::Value::as_str`: the text of a JSON string; none where the value is
/// no string.
#[verifier::external_body]
fn json_as_str(value: &serde_json::Value) -> (r: Option<&str>)
    ensures
        match json_text(*value) {
            Some(text) => r is Some && r->0@ == text,
            None => r is None,
        },
{
    value.as_str()
}

/// The text that the member `key` of a JSON object has, if it is a string.
pub open spec fn text_member(value: serde_json::Value, key: Seq<char>) -> Option<Seq<char>> {
    match json_members(value) {
        Some(members) => if members.contains_key(key) {
            json_text(members[key])
        } else {
            None
        },
        None => None,
    }
}

/// The message for a line that is not JSON: what is wrong with it, and the line.
pub fn bad_line_message(error: &str, line: &str) -> (r: String)
    ensures
        r@ == error@ + ": "@ + line@,
{
    let mut v = chars_of(error);
    push_text(&mut v, ": ");
    push_text(&mut v, line);
    string_of(&v)
}

/// An `error` field stops a stream with its text; without one it goes on.
pub fn stop_on_error(error: Option<&str>) -> (r: Result<(), String>)
    ensures
        match error {
            Some(e) => r is Err && r->Err_0@ == e@,
            None => r is Ok,
        },
{
    match error {
        Some(e) => Err(e.to_string()),
        None => Ok(()),
    }
}

/// Stops a stream at a value with an `error` text.
pub fn check_create_value(value: &serde_json::Value) -> (r: Result<(), String>)
    ensures
        match text_member(*value, "error"@) {
            Some(e) => r is Err && r->Err_0@ == e,
            None => r is Ok,
        },
        match json_members(*value) {
            Some(members) => if members.contains_key("error"@) {
                match json_text(members["error"@]) {
                    Some(e) => r is Err && r->Err_0@ == e,
                    None => r is Ok,
                }
            } else {
                r is Ok
            },
            None => r is Ok,
        },
{
    match json_get(value, "error") {
        Some(e) => stop_on_error(json_as_str(e)),
        None => stop_on_error(None),
    }
}

/// Reads one line of the answer to `POST /api/create`: the JSON value that it
/// holds, unless it is not JSON or the value has an `error` text.
pub fn create_line(line: &str) -> (r: Result<serde_json::Value, String>)
    ensures
        match json_value(line@) {
            Ok(value) => match text_member(value, "error"@) {
                Some(e) => r is Err && r->Err_0@ == e,
                None => r == Ok::<serde_json::Value, String>(value),
            },
            Err(message) => r is Err && r->Err_0@ == message + ": "@ + line@,
        },
{
    match parse_json(line) {
        Ok(value) => match check_create_value(&value) {
            Ok(()) => Ok(value),
            Err(e) => Err(e),
        },
        Err(message) => Err(bad_line_message(message.as_str(), line)),
    }
}

/// The text of a member is that of the value with exactly this key, and there is none
/// without such a key, for a value that is no object and for one that is no string.
pub proof fn law_text_of_a_member(value: serde_json::Value, key: Seq<char>)
    ensures
        match json_members(value) {
            Some(members) => {
                &&& members.contains_key(key) ==> text_member(value, key) == json_text(members[key])
                &&& !members.contains_key(key) ==> text_member(value, key) is None
            },
            None => text_member(value, key) is None,
        },
{
}

}
