//! Reading the members of an object by their key.

use vstd::prelude::*;
use crate::error::{DecodeError, Field, JsonKind};
use crate::json::{get_field, lookup, members_of, Json, JsonValue, Number};

verus! {

/// The member of an object under a key of the format.
pub open spec fn member(fields: Seq<(Seq<char>, Json)>, f: Field) -> Option<Json> {
    lookup(fields, f.spec_key())
}

/// A member that must be present.
pub open spec fn required(fields: Seq<(Seq<char>, Json)>, f: Field) -> Result<Json, DecodeError> {
    match member(fields, f) {
        Some(j) => Ok(j),
        None => Err(DecodeError::MissingField(f)),
    }
}

/// A member that may be absent; `null` counts as absent.
pub open spec fn optional(fields: Seq<(Seq<char>, Json)>, f: Field) -> Option<Json> {
    match member(fields, f) {
        Some(Json::Null) => None,
        other => other,
    }
}

/// A member that must be a number.
pub open spec fn number_in(fields: Seq<(Seq<char>, Json)>, f: Field) -> Result<Number, DecodeError> {
    match member(fields, f) {
        None => Err(DecodeError::MissingField(f)),
        Some(Json::Num(n)) => Ok(n),
        Some(_) => Err(DecodeError::TypeMismatch(JsonKind::Number)),
    }
}

/// A member that must be a string.
pub open spec fn string_in(fields: Seq<(Seq<char>, Json)>, f: Field) -> Result<Seq<char>, DecodeError> {
    match member(fields, f) {
        None => Err(DecodeError::MissingField(f)),
        Some(Json::Str(s)) => Ok(s),
        Some(_) => Err(DecodeError::TypeMismatch(JsonKind::String)),
    }
}

pub fn field<'a>(fields: &'a Vec<(String, JsonValue)>, f: Field) -> (r: Option<&'a JsonValue>)
    ensures
        match r {
            Some(v) => member(members_of(fields@), f) == Some(v@),
            None => member(members_of(fields@), f) is None,
        },
{
    let k = f.key();
    get_field(fields, &k)
}

pub fn required_field<'a>(fields: &'a Vec<(String, JsonValue)>, f: Field) -> (r: Result<
    &'a JsonValue,
    DecodeError,
>)
    ensures
        match r {
            Ok(v) => required(members_of(fields@), f) == Ok::<Json, DecodeError>(v@),
            Err(e) => required(members_of(fields@), f) == Err::<Json, DecodeError>(e),
        },
{
    match field(fields, f) {
        Some(v) => Ok(v),
        None => Err(DecodeError::MissingField(f)),
    }
}

pub fn optional_field<'a>(fields: &'a Vec<(String, JsonValue)>, f: Field) -> (r: Option<
    &'a JsonValue,
>)
    ensures
        match r {
            Some(v) => optional(members_of(fields@), f) == Some(v@),
            None => optional(members_of(fields@), f) is None,
        },
{
    match field(fields, f) {
        Some(JsonValue::Null) => None,
        other => other,
    }
}

pub fn number_field(fields: &Vec<(String, JsonValue)>, f: Field) -> (r: Result<Number, DecodeError>)
    ensures
        r == number_in(members_of(fields@), f),
{
    match field(fields, f) {
        None => Err(DecodeError::MissingField(f)),
        Some(JsonValue::Number(n)) => Ok(*n),
        Some(_) => Err(DecodeError::TypeMismatch(JsonKind::Number)),
    }
}

pub fn string_field(fields: &Vec<(String, JsonValue)>, f: Field) -> (r: Result<String, DecodeError>)
    ensures
        match r {
            Ok(s) => string_in(members_of(fields@), f) == Ok::<Seq<char>, DecodeError>(s@),
            Err(e) => string_in(members_of(fields@), f) == Err::<Seq<char>, DecodeError>(e),
        },
{
    match field(fields, f) {
        None => Err(DecodeError::MissingField(f)),
        Some(JsonValue::String(s)) => Ok(s.clone()),
        Some(_) => Err(DecodeError::TypeMismatch(JsonKind::String)),
    }
}

} // verus!
