//! Reading JSON text through `serde_json`.

use vstd::prelude::*;
use vstd::string::*;

verus! {

/// A value of `serde_json`. What it holds is told by `members`.
#[verifier::external_type_specification]
#[verifier::external_body]
pub struct ExValue(serde_json::Value);

/// A member of a JSON object, as far as anything here asks for it.
pub enum Scalar {
    Text(Seq<char>),
    Flag(bool),
    /// A number that is held as an integer of 64 bits, signed or unsigned.
    Number(int),
    /// Null, another number, an array or an object.
    Other,
}

/// The members of a JSON object, by their names. A value that is no object has
/// none.
pub uninterp spec fn members(value: serde_json::Value) -> Map<Seq<char>, Scalar>;

/// What `serde_json` makes of a text: the members of the value it writes down,
/// or the words in which it refuses the text.
pub uninterp spec fn parsed(text: Seq<char>) -> Result<Map<Seq<char>, Scalar>, Seq<char>>;

/// What `serde_json` makes of a text that writes down a list of texts.
pub uninterp spec fn parsed_texts(text: Seq<char>) -> Option<Seq<Seq<char>>>;

/// The member of this name, if there is one.
pub open spec fn member(all: Map<Seq<char>, Scalar>, key: Seq<char>) -> Option<Scalar> {
    if all.contains_key(key) {
        Some(all[key])
    } else {
        None
    }
}

/// The text of a member that is one.
pub open spec fn as_text(scalar: Option<Scalar>) -> Option<Seq<char>> {
    match scalar {
        Some(Scalar::Text(text)) => Some(text),
        _ => None,
    }
}

/// The truth value of a member that is one.
pub open spec fn as_flag(scalar: Option<Scalar>) -> Option<bool> {
    match scalar {
        Some(Scalar::Flag(flag)) => Some(flag),
        _ => None,
    }
}

/// The number of a member that is a whole number and not negative.
pub open spec fn as_unsigned(scalar: Option<Scalar>) -> Option<u64> {
    match scalar {
        Some(Scalar::Number(number)) => if 0 <= number <= u64::MAX {
            Some(number as u64)
        } else {
            None
        },
        _ => None,
    }
}

/// The number of a member that is a whole number and fits a signed one.
pub open spec fn as_signed(scalar: Option<Scalar>) -> Option<i64> {
    match scalar {
        Some(Scalar::Number(number)) => if i64::MIN <= number <= i64::MAX {
            Some(number as i64)
        } else {
            None
        },
        _ => None,
    }
}

/// The text in an optional string.
pub open spec fn text_view(text: Option<String>) -> Option<Seq<char>> {
    match text {
        Some(own) => Some(own@),
        None => None,
    }
}

/// `serde_json::from_str`, for a value of any kind: gives the value, whose
/// members are the ones written down, or the words of its error.
#[verifier::external_body]
pub(crate) fn parse(text: &str) -> (value: Result<serde_json::Value, String>)
    ensures
        match value {
            Ok(own) => parsed(text@) == Ok::<Map<Seq<char>, Scalar>, Seq<char>>(members(own)),
            Err(message) => parsed(text@) == Err::<Map<Seq<char>, Scalar>, Seq<char>>(message@),
        },
{
    serde_json::from_str(text).map_err(|e: serde_json::Error| e.to_string())
}

/// `serde_json::from_str`, for a list of texts: gives the texts in order, or
/// nothing where the text writes down anything else.
#[verifier::external_body]
pub(crate) fn parse_texts(text: &str) -> (list: Option<Vec<String>>)
    ensures
        match list {
            Some(own) => parsed_texts(text@) == Some(crate::text::text_views(own@)),
            None => parsed_texts(text@) is None,
        },
{
    serde_json::from_str(text).ok()
}

/// `Value::get` and `Value::as_str`: the text of the member with this name.
#[verifier::external_body]
pub(crate) fn text_member(value: &serde_json::Value, key: &str) -> (text: Option<String>)
    ensures
        text_view(text) == as_text(member(members(*value), key@)),
{
    value.get(key).and_then(serde_json::Value::as_str).map(str::to_owned)
}

/// `Value::get` and `Value::as_bool`: the truth value of the member with this
/// name.
#[verifier::external_body]
pub(crate) fn flag_member(value: &serde_json::Value, key: &str) -> (flag: Option<bool>)
    ensures
        flag == as_flag(member(members(*value), key@)),
{
    value.get(key).and_then(serde_json::Value::as_bool)
}

/// `Value::get` and `Value::as_u64`: the number of the member with this name, if
/// it is a whole number that an unsigned one holds.
#[verifier::external_body]
pub(crate) fn unsigned_member(value: &serde_json::Value, key: &str) -> (number: Option<u64>)
    ensures
        number == as_unsigned(member(members(*value), key@)),
{
    value.get(key).and_then(serde_json::Value::as_u64)
}

/// `Value::get` and `Value::as_i64`: the number of the member with this name, if
/// it is a whole number that a signed one holds.
#[verifier::external_body]
pub(crate) fn signed_member(value: &serde_json::Value, key: &str) -> (number: Option<i64>)
    ensures
        number == as_signed(member(members(*value), key@)),
{
    value.get(key).and_then(serde_json::Value::as_i64)
}

} // verus!
