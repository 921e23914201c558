//! JSON values of the crate `serde_json`, and what is read from them.

use vstd::prelude::*;
use serde_json::Value;

verus! {

/// A JSON value of the crate `serde_json`.
#[verifier::external_type_specification]
#[verifier::external_body]
pub struct ExValue(serde_json::Value);

/// The content of a JSON value, as far as it is read here.
pub enum Json {
    Bool(bool),
    /// A number: its value where it is an integer of 64 bits with a sign, and the text that stands
    /// for it, by which it is told from every other number.
    Number { integer: Option<i64>, text: Seq<char> },
    Text(Seq<char>),
    Object(Map<Seq<char>, Json>),
    /// Null or an array.
    Other,
}

/// The content of a JSON value. The text of a number is what `serde_json::Number` is displayed as.
pub uninterp spec fn json(value: serde_json::Value) -> Json;

/// What `serde_json::from_str` makes of a text.
pub uninterp spec fn parsed_json(text: Seq<char>) -> Option<Json>;

/// `serde_json::from_str` reads a JSON value, or refuses the text.
#[verifier::external_body]
pub(crate) fn parse_json(text: &str) -> (value: Option<Value>)
    ensures
        match value {
            Some(value) => parsed_json(text@) == Some(json(value)),
            None => parsed_json(text@) is None,
        },
{
    serde_json::from_str(text).ok()
}

/// `Value::get` with a key finds a member of an object, and nothing in any other value.
#[verifier::external_body]
pub(crate) fn member<'a>(value: &'a Value, key: &str) -> (found: Option<&'a Value>)
    ensures
        match found {
            Some(found) => json(*value).field(key@) == Some(json(*found)),
            None => json(*value).field(key@) is None,
        },
{
    value.get(key)
}

/// `Value::as_str` gives the text of a text.
pub assume_specification[ serde_json::Value::as_str ](value: &Value) -> (text: Option<&str>)
    ensures
        match text {
            Some(text) => json(*value).text() == Some(text@),
            None => json(*value).text() is None,
        },
;

/// `Value::as_bool` gives the value of a Boolean.
pub assume_specification[ serde_json::Value::as_bool ](value: &Value) -> (flag: Option<bool>)
    ensures
        flag == json(*value).flag(),
;

/// `Value::as_i64` gives the value of a number that is an integer of 64 bits with a sign.
pub assume_specification[ serde_json::Value::as_i64 ](value: &Value) -> (number: Option<i64>)
    ensures
        number == json(*value).integer(),
;

impl Json {
    /// A member of an object.
    pub open spec fn field(self, key: Seq<char>) -> Option<Json> {
        match self {
            Json::Object(fields) => if fields.dom().contains(key) {
                Some(fields[key])
            } else {
                None
            },
            _ => None,
        }
    }

    pub open spec fn text(self) -> Option<Seq<char>> {
        match self {
            Json::Text(text) => Some(text),
            _ => None,
        }
    }

    pub open spec fn flag(self) -> Option<bool> {
        match self {
            Json::Bool(flag) => Some(flag),
            _ => None,
        }
    }

    pub open spec fn integer(self) -> Option<i64> {
        match self {
            Json::Number { integer, .. } => integer,
            _ => None,
        }
    }
}

/// The member of what may be an object.
pub open spec fn field_of(value: Option<Json>, key: Seq<char>) -> Option<Json> {
    match value {
        Some(value) => value.field(key),
        None => None,
    }
}

pub open spec fn text_of(value: Option<Json>) -> Option<Seq<char>> {
    match value {
        Some(value) => value.text(),
        None => None,
    }
}

pub open spec fn flag_of(value: Option<Json>) -> Option<bool> {
    match value {
        Some(value) => value.flag(),
        None => None,
    }
}

pub open spec fn integer_of(value: Option<Json>) -> Option<i64> {
    match value {
        Some(value) => value.integer(),
        None => None,
    }
}

/// The content of a value, where there is one.
pub open spec fn json_of(value: Option<&Value>) -> Option<Json> {
    match value {
        Some(value) => Some(json(*value)),
        None => None,
    }
}

/// The member of what may be an object.
pub fn get<'a>(value: Option<&'a Value>, key: &str) -> (found: Option<&'a Value>)
    ensures
        json_of(found) == field_of(json_of(value), key@),
{
    match value {
        Some(value) => member(value, key),
        None => None,
    }
}

/// The text of what may be a text.
pub fn get_text(value: Option<&Value>) -> (text: Option<String>)
    ensures
        crate::path::option_view(text) == text_of(json_of(value)),
{
    match value {
        Some(value) => match value.as_str() {
            Some(text) => Some(text.to_owned()),
            None => None,
        },
        None => None,
    }
}

/// The value of what may be a Boolean.
pub fn get_flag(value: Option<&Value>) -> (flag: Option<bool>)
    ensures
        flag == flag_of(json_of(value)),
{
    match value {
        Some(value) => value.as_bool(),
        None => None,
    }
}

/// The value of what may be an integer.
pub fn get_integer(value: Option<&Value>) -> (number: Option<i64>)
    ensures
        number == integer_of(json_of(value)),
{
    match value {
        Some(value) => value.as_i64(),
        None => None,
    }
}

} // verus!
