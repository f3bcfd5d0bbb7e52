//! Reading the members of an object, or the items of an array, as fields of a record.

use vstd::prelude::*;

use crate::error::BitTorrentError;
use crate::json::{array_view, object_view, Json, Number, Object, Value};
use crate::text::{decimal, decimal_nat, decimal_string, push_decimal};

verus! {

/// A text in double quotes, with what cannot be shown written in escapes.
pub uninterp spec fn quoted(text: Seq<char>) -> Seq<char>;

/// The `Debug` form that `format!` gives of a text.
#[verifier::external_body]
fn quote(text: &str) -> (shown: String)
    ensures
        shown@ == quoted(text@),
{
    format!("{:?}", text)
}

/// What kind of value was found.
pub open spec fn found(value: Json) -> Seq<char> {
    match value {
        Json::Null => "null"@,
        Json::Bool(true) => "boolean `true`"@,
        Json::Bool(false) => "boolean `false`"@,
        Json::Number(n) => "integer `"@ + decimal(n) + "`"@,
        Json::Text(text) => "string "@ + quoted(text),
        Json::Array(_) => "sequence"@,
        Json::Object(_) => "map"@,
    }
}

/// What kind of value was found.
pub fn found_text(value: &Value) -> (text: String)
    ensures
        text@ == found(value@),
{
    match value {
        Value::Null => "null".to_string(),
        Value::Bool(true) => "boolean `true`".to_string(),
        Value::Bool(false) => "boolean `false`".to_string(),
        Value::Number(n) => {
            let mut text = "integer `".to_string();
            let digits = match n {
                Number::PosInt(n) => crate::text::decimal_string_u64(*n),
                Number::NegInt(n) => decimal_string(*n),
            };
            text.append(digits.as_str());
            text.append("`");
            text
        },
        Value::Text(text) => "string ".to_string().concat(quote(text.as_str()).as_str()),
        Value::Array(_) => "sequence".to_string(),
        Value::Object(_) => "map".to_string(),
    }
}

/// The complaint about a value of the wrong kind.
pub open spec fn wrong_type(value: Json, expected: Seq<char>) -> Seq<char> {
    "invalid type: "@ + found(value) + ", expected "@ + expected
}

/// The complaint about a value out of range.
pub open spec fn wrong_value(value: Json, expected: Seq<char>) -> Seq<char> {
    "invalid value: "@ + found(value) + ", expected "@ + expected
}

/// The complaint about an array of the wrong length.
pub open spec fn wrong_length(len: nat, expected: Seq<char>) -> Seq<char> {
    "invalid length "@ + decimal_nat(len) + ", expected "@ + expected
}

pub open spec fn missing_field(name: Seq<char>) -> Seq<char> {
    "missing field `"@ + name + "`"@
}

/// A value of the wrong kind.
pub fn type_error(value: &Value, expected: &str) -> (error: BitTorrentError)
    ensures
        error@ == wrong_type(value@, expected@),
{
    let mut text = "invalid type: ".to_string();
    text.append(found_text(value).as_str());
    text.append(", expected ");
    text.append(expected);
    BitTorrentError::new(text)
}

/// A value out of range.
fn value_error(value: &Value, expected: &str) -> (error: BitTorrentError)
    ensures
        error@ == wrong_value(value@, expected@),
{
    let mut text = "invalid value: ".to_string();
    text.append(found_text(value).as_str());
    text.append(", expected ");
    text.append(expected);
    BitTorrentError::new(text)
}

/// An array of the wrong length.
pub fn length_error(len: usize, expected: &str) -> (error: BitTorrentError)
    ensures
        error@ == wrong_length(len as nat, expected@),
{
    let mut text = "invalid length ".to_string();
    push_decimal(&mut text, len as u128);
    text.append(", expected ");
    text.append(expected);
    BitTorrentError::new(text)
}

/// A field that is not there.
pub fn missing_error(name: &str) -> (error: BitTorrentError)
    ensures
        error@ == missing_field(name@),
{
    let mut text = "missing field `".to_string();
    text.append(name);
    text.append("`");
    BitTorrentError::new(text)
}

/// The earlier of two complaints.
pub open spec fn earlier(a: Option<Seq<char>>, b: Option<Seq<char>>) -> Option<Seq<char>> {
    match a {
        Some(complaint) => Some(complaint),
        None => b,
    }
}

/// A number in a range, or a complaint.
pub open spec fn number_field(value: Json, limit: int, expected: Seq<char>) -> Result<
    int,
    Seq<char>,
> {
    match value {
        Json::Number(n) => if 0 <= n <= limit {
            Ok(n)
        } else {
            Err(wrong_value(value, expected))
        },
        _ => Err(wrong_type(value, expected)),
    }
}

/// The number that a field holds; null and nothing are none.
pub open spec fn some_number(field: Option<Json>) -> Option<int> {
    match field {
        Some(Json::Number(n)) => Some(n),
        _ => None,
    }
}

/// The complaint about a field that may be left out and should hold a number in a range.
pub open spec fn number_complaint(
    field: Option<Json>,
    limit: int,
    expected: Seq<char>,
) -> Option<Seq<char>> {
    match field {
        None => None,
        Some(Json::Null) => None,
        Some(value) => match number_field(value, limit, expected) {
            Ok(_) => None,
            Err(complaint) => Some(complaint),
        },
    }
}

/// The text that a field holds; null and nothing are none.
pub open spec fn text_in(field: Option<Json>) -> Option<Seq<char>> {
    match field {
        Some(Json::Text(text)) => Some(text),
        _ => None,
    }
}

/// The complaint about a field that may be left out and should hold a text.
pub open spec fn text_complaint(field: Option<Json>) -> Option<Seq<char>> {
    match field {
        None => None,
        Some(Json::Null) => None,
        Some(Json::Text(_)) => None,
        Some(value) => Some(wrong_type(value, "a string"@)),
    }
}

/// The complaint about a field that may be left out and should hold any number.
pub open spec fn any_number_complaint(field: Option<Json>) -> Option<Seq<char>> {
    match field {
        None => None,
        Some(Json::Null) => None,
        Some(Json::Number(_)) => None,
        Some(value) => Some(wrong_type(value, "a JSON number"@)),
    }
}

/// The object that a field holds; null and nothing are none.
pub open spec fn object_in(field: Option<Json>) -> Option<Seq<(Seq<u8>, Json)>> {
    match field {
        Some(Json::Object(pairs)) => Some(pairs),
        _ => None,
    }
}

/// The complaint about a field that may be left out and should hold an object.
pub open spec fn object_complaint(field: Option<Json>) -> Option<Seq<char>> {
    match field {
        None => None,
        Some(Json::Null) => None,
        Some(Json::Object(_)) => None,
        Some(value) => Some(wrong_type(value, "a map"@)),
    }
}

/// What a field holds.
pub open spec fn field_view(field: Option<&Value>) -> Option<Json> {
    match field {
        Some(value) => Some(value@),
        None => None,
    }
}

/// A number in a range.
pub fn read_number(value: &Value, limit: u64, expected: &str) -> (result: Result<
    u64,
    BitTorrentError,
>)
    ensures
        match result {
            Ok(n) => number_field(value@, limit as int, expected@) == Ok::<int, Seq<char>>(
                n as int,
            ),
            Err(error) => number_field(value@, limit as int, expected@) == Err::<int, Seq<char>>(
                error@,
            ),
        },
{
    match value {
        Value::Number(number) => match number.as_u64() {
            Some(n) => if n <= limit {
                Ok(n)
            } else {
                Err(value_error(value, expected))
            },
            None => Err(value_error(value, expected)),
        },
        _ => Err(type_error(value, expected)),
    }
}

/// A number in a range, if the field is there.
pub fn read_some_number(field: Option<&Value>, limit: u64, expected: &str) -> (result: Result<
    Option<u64>,
    BitTorrentError,
>)
    ensures
        match result {
            Ok(n) => {
                &&& number_complaint(field_view(field), limit as int, expected@) is None
                &&& match n {
                    Some(n) => n <= limit && some_number(field_view(field)) == Some(n as int),
                    None => some_number(field_view(field)) is None,
                }
            },
            Err(error) => number_complaint(field_view(field), limit as int, expected@) == Some(
                error@,
            ),
        },
{
    match field {
        None => Ok(None),
        Some(Value::Null) => Ok(None),
        Some(value) => match read_number(value, limit, expected) {
            Ok(n) => Ok(Some(n)),
            Err(error) => Err(error),
        },
    }
}

/// A text, if the field is there.
pub fn read_some_text(field: Option<&Value>) -> (result: Result<Option<String>, BitTorrentError>)
    ensures
        match result {
            Ok(text) => {
                &&& text_complaint(field_view(field)) is None
                &&& crate::text::some_text(text) == text_in(field_view(field))
            },
            Err(error) => text_complaint(field_view(field)) == Some(error@),
        },
{
    match field {
        None => Ok(None),
        Some(Value::Null) => Ok(None),
        Some(Value::Text(text)) => Ok(Some(text.clone())),
        Some(value) => Err(type_error(value, "a string")),
    }
}

/// Any number, if the field is there.
pub fn read_any_number(field: Option<&Value>) -> (result: Result<Option<Number>, BitTorrentError>)
    ensures
        match result {
            Ok(n) => {
                &&& any_number_complaint(field_view(field)) is None
                &&& match n {
                    Some(n) => some_number(field_view(field)) == Some(n@),
                    None => some_number(field_view(field)) is None,
                }
            },
            Err(error) => any_number_complaint(field_view(field)) == Some(error@),
        },
{
    match field {
        None => Ok(None),
        Some(Value::Null) => Ok(None),
        Some(Value::Number(n)) => Ok(Some(*n)),
        Some(value) => Err(type_error(value, "a JSON number")),
    }
}

/// An object, if the field is there.
pub fn read_some_object(field: Option<&Value>) -> (result: Result<
    Option<Object>,
    BitTorrentError,
>)
    ensures
        match result {
            Ok(object) => {
                &&& object_complaint(field_view(field)) is None
                &&& match object {
                    Some(object) => object_in(field_view(field)) == Some(object_view(object)),
                    None => object_in(field_view(field)) is None,
                }
            },
            Err(error) => object_complaint(field_view(field)) == Some(error@),
        },
{
    match field {
        None => Ok(None),
        Some(Value::Null) => Ok(None),
        Some(value) => {
            let copy = value.clone();
            match copy {
                Value::Object(object) => Ok(Some(object)),
                other => Err(type_error(value, "a map")),
            }
        },
    }
}

/// The item at a position.
pub open spec fn item(items: Seq<Json>, i: int) -> Option<Json> {
    if 0 <= i < items.len() {
        Some(items[i])
    } else {
        None
    }
}

/// The complaint about an item that is not there.
pub open spec fn item_complaint(items: Seq<Json>, i: int, expected: Seq<char>) -> Option<
    Seq<char>,
> {
    if i < items.len() {
        None
    } else {
        Some(wrong_length(i as nat, expected))
    }
}

/// The item at a position.
pub fn read_item<'a>(list: &'a Vec<Value>, i: usize, expected: &str) -> (result: Result<
    Option<&'a Value>,
    BitTorrentError,
>)
    ensures
        match result {
            Ok(field) => {
                &&& item_complaint(array_view(list@), i as int, expected@) is None
                &&& field_view(field) == item(array_view(list@), i as int)
            },
            Err(error) => item_complaint(array_view(list@), i as int, expected@) == Some(error@),
        },
{
    if i < list.len() {
        Ok(Some(&list[i]))
    } else {
        Err(length_error(i, expected))
    }
}

} // verus!
