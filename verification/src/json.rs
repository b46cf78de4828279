//! JSON values, as far as tool arguments and tool results need them.
use crate::text;
use vstd::prelude::*;

verus! {

/// `serde_json::Value`: a JSON value.
#[verifier::external_type_specification]
#[verifier::external_body]
pub struct ExJsonValue(serde_json::Value);

/// What `serde_json::from_str` makes of a text: a value, or the words of its error.
pub uninterp spec fn parsed(text: Seq<char>) -> Result<serde_json::Value, Seq<char>>;

/// What a value holds under a key, where it is an object that has the key.
pub uninterp spec fn member(value: serde_json::Value, key: Seq<char>) -> Option<serde_json::Value>;

/// The text that a value is, where it is one.
pub uninterp spec fn text_of(value: serde_json::Value) -> Option<Seq<char>>;

/// The flag that a value is, where it is one.
pub uninterp spec fn flag_of(value: serde_json::Value) -> Option<bool>;

/// The items of the array that a value is, where it is one.
pub uninterp spec fn items_of(value: serde_json::Value) -> Option<Seq<serde_json::Value>>;

/// A value as compact JSON text.
pub uninterp spec fn written(value: serde_json::Value) -> Seq<char>;

/// `serde_json::from_str`, into a value. Which text parses to what is left to its name; the outcome
/// depends on the text alone.
#[verifier::external_body]
pub(crate) fn parse(text: &str) -> (r: Result<serde_json::Value, String>)
    ensures
        match r {
            Ok(value) => parsed(text@) == Ok::<serde_json::Value, Seq<char>>(value),
            Err(words) => parsed(text@) == Err::<serde_json::Value, Seq<char>>(words@),
        },
{
    serde_json::from_str::<serde_json::Value>(text).map_err(|e| e.to_string())
}

/// `serde_json::Value::get` with a key. What it finds depends on the value and the key alone.
#[verifier::external_body]
fn get<'a>(value: &'a serde_json::Value, key: &str) -> (r: Option<&'a serde_json::Value>)
    ensures
        match r {
            Some(inner) => member(*value, key@) == Some(*inner),
            None => member(*value, key@) is None,
        },
{
    value.get(key)
}

/// `serde_json::Value::as_str`. What it gives depends on the value alone.
#[verifier::external_body]
fn as_text(value: &serde_json::Value) -> (r: Option<String>)
    ensures
        text::opt_view(r) == text_of(*value),
{
    value.as_str().map(|text| text.to_string())
}

/// `serde_json::Value::as_bool`. What it gives depends on the value alone.
#[verifier::external_body]
fn as_flag(value: &serde_json::Value) -> (r: Option<bool>)
    ensures
        r == flag_of(*value),
{
    value.as_bool()
}

/// `serde_json::Value::as_array`. What it gives depends on the value alone.
#[verifier::external_body]
fn as_items(value: &serde_json::Value) -> (r: Option<&Vec<serde_json::Value>>)
    ensures
        match r {
            Some(items) => items_of(*value) == Some(items@),
            None => items_of(*value) is None,
        },
{
    value.as_array()
}

/// The text that a value holds under a key, where it is an object and holds text there.
pub open spec fn text_under(value: serde_json::Value, key: Seq<char>) -> Option<Seq<char>> {
    match member(value, key) {
        Some(inner) => text_of(inner),
        None => None,
    }
}

/// The text under a key.
pub(crate) fn get_text(value: &serde_json::Value, key: &str) -> (r: Option<String>)
    ensures
        text::opt_view(r) == text_under(*value, key@),
{
    match get(value, key) {
        Some(inner) => as_text(inner),
        None => None,
    }
}

/// The flag that a value holds under a key, where it is an object and holds a flag there.
pub open spec fn flag_under(value: serde_json::Value, key: Seq<char>) -> Option<bool> {
    match member(value, key) {
        Some(inner) => flag_of(inner),
        None => None,
    }
}

/// The flag under a key.
pub(crate) fn get_flag(value: &serde_json::Value, key: &str) -> (r: Option<bool>)
    ensures
        r == flag_under(*value, key@),
{
    match get(value, key) {
        Some(inner) => as_flag(inner),
        None => None,
    }
}

/// The items of the array that a value holds under a key, where it is an object and holds an array
/// there.
pub open spec fn items_under(value: serde_json::Value, key: Seq<char>) -> Option<
    Seq<serde_json::Value>,
> {
    match member(value, key) {
        Some(inner) => items_of(inner),
        None => None,
    }
}

/// The items under a key.
pub(crate) fn get_items<'a>(value: &'a serde_json::Value, key: &str) -> (r: Option<
    &'a Vec<serde_json::Value>,
>)
    ensures
        match r {
            Some(items) => items_under(*value, key@) == Some(items@),
            None => items_under(*value, key@) is None,
        },
{
    match get(value, key) {
        Some(inner) => as_items(inner),
        None => None,
    }
}

/// `serde_json::Value` as text: compact JSON, the same for the same value.
#[verifier::external_body]
pub(crate) fn write(value: &serde_json::Value) -> (r: String)
    ensures
        r@ == written(*value),
{
    value.to_string()
}

} // verus!
