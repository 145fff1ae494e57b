//! The operands of a gate, each of which may be the wildcard `"_"`.
//!
//! Every position has its own codec: the wildcard decodes only from the exact
//! token `"_"` and encodes to it, and the other arm differs from position to
//! position.

use vstd::prelude::*;
use crate::error::{DecodeError, JsonKind};
use crate::json::{wildcard, wildcard_token, Json, JsonValue, Number};

verus! {

/// The qubit that a measurement reads.
#[derive(Clone, Copy, Debug, PartialEq, Eq, Structural)]
pub enum Qubit {
    Wildcard,
    Index(usize),
}

/// A qubit argument of a gate.
#[derive(Clone, Copy, Debug, PartialEq, Eq, Structural)]
pub enum Argument {
    Wildcard,
    Index(usize),
}

/// A parameter of a gate.
#[derive(Clone, Copy, Debug, PartialEq, Eq, Structural)]
pub enum Parameter {
    Wildcard,
    Numeric(Number),
}

/// Where a measurement stores its result.
#[derive(Clone, Debug, PartialEq, Eq)]
pub enum MeasurementTarget {
    Wildcard,
    MemoryReference(String),
}

/// The mathematical value of a [`MeasurementTarget`].
pub enum MeasurementTargetModel {
    Wildcard,
    MemoryReference(Seq<char>),
}

impl View for MeasurementTarget {
    type V = MeasurementTargetModel;

    open spec fn view(&self) -> MeasurementTargetModel {
        match self {
            MeasurementTarget::Wildcard => MeasurementTargetModel::Wildcard,
            MeasurementTarget::MemoryReference(r) => MeasurementTargetModel::MemoryReference(r@),
        }
    }
}

/// A JSON integer that is an index: non-negative and within `usize`.
pub open spec fn index_from_json(j: Json) -> Option<usize> {
    match j {
        Json::Num(Number::PosInt(n)) => if n <= usize::MAX {
            Some(n as usize)
        } else {
            None
        },
        _ => None,
    }
}

pub open spec fn qubit_from_json(j: Json) -> Result<Qubit, DecodeError> {
    match j {
        Json::Str(s) => if s == wildcard() {
            Ok(Qubit::Wildcard)
        } else {
            Err(DecodeError::NotWildcard)
        },
        _ => match index_from_json(j) {
            Some(i) => Ok(Qubit::Index(i)),
            None => Err(DecodeError::TypeMismatch(JsonKind::Index)),
        },
    }
}

pub open spec fn qubit_to_json(q: Qubit) -> Json {
    match q {
        Qubit::Wildcard => Json::Str(wildcard()),
        Qubit::Index(i) => Json::Num(Number::PosInt(i as u64)),
    }
}

pub open spec fn argument_from_json(j: Json) -> Result<Argument, DecodeError> {
    match j {
        Json::Str(s) => if s == wildcard() {
            Ok(Argument::Wildcard)
        } else {
            Err(DecodeError::NotWildcard)
        },
        _ => match index_from_json(j) {
            Some(i) => Ok(Argument::Index(i)),
            None => Err(DecodeError::TypeMismatch(JsonKind::Index)),
        },
    }
}

pub open spec fn argument_to_json(a: Argument) -> Json {
    match a {
        Argument::Wildcard => Json::Str(wildcard()),
        Argument::Index(i) => Json::Num(Number::PosInt(i as u64)),
    }
}

pub open spec fn parameter_from_json(j: Json) -> Result<Parameter, DecodeError> {
    match j {
        Json::Str(s) => if s == wildcard() {
            Ok(Parameter::Wildcard)
        } else {
            Err(DecodeError::NotWildcard)
        },
        Json::Num(n) => Ok(Parameter::Numeric(n)),
        _ => Err(DecodeError::TypeMismatch(JsonKind::Number)),
    }
}

pub open spec fn parameter_to_json(p: Parameter) -> Json {
    match p {
        Parameter::Wildcard => Json::Str(wildcard()),
        Parameter::Numeric(n) => Json::Num(n),
    }
}

pub open spec fn target_from_json(j: Json) -> Result<MeasurementTargetModel, DecodeError> {
    match j {
        Json::Str(s) => if s == wildcard() {
            Ok(MeasurementTargetModel::Wildcard)
        } else {
            Ok(MeasurementTargetModel::MemoryReference(s))
        },
        _ => Err(DecodeError::TypeMismatch(JsonKind::String)),
    }
}

pub open spec fn target_to_json(t: MeasurementTargetModel) -> Json {
    match t {
        MeasurementTargetModel::Wildcard => Json::Str(wildcard()),
        MeasurementTargetModel::MemoryReference(r) => Json::Str(r),
    }
}

/// Reads an index from a JSON value.
fn index_of(v: &JsonValue) -> (r: Option<usize>)
    ensures
        r == index_from_json(v@),
{
    match v {
        JsonValue::Number(Number::PosInt(n)) => if *n <= usize::MAX as u64 {
            Some(*n as usize)
        } else {
            None
        },
        _ => None,
    }
}

impl Qubit {
    pub fn from_json(v: &JsonValue) -> (r: Result<Qubit, DecodeError>)
        ensures
            r == qubit_from_json(v@),
    {
        match v {
            JsonValue::String(s) => if *s == wildcard_token() {
                Ok(Qubit::Wildcard)
            } else {
                Err(DecodeError::NotWildcard)
            },
            _ => match index_of(v) {
                Some(i) => Ok(Qubit::Index(i)),
                None => Err(DecodeError::TypeMismatch(JsonKind::Index)),
            },
        }
    }

    pub fn to_json(&self) -> (r: JsonValue)
        ensures
            r@ == qubit_to_json(*self),
    {
        match self {
            Qubit::Wildcard => JsonValue::String(wildcard_token()),
            Qubit::Index(i) => JsonValue::Number(Number::PosInt(*i as u64)),
        }
    }
}

impl Argument {
    pub fn from_json(v: &JsonValue) -> (r: Result<Argument, DecodeError>)
        ensures
            r == argument_from_json(v@),
    {
        match v {
            JsonValue::String(s) => if *s == wildcard_token() {
                Ok(Argument::Wildcard)
            } else {
                Err(DecodeError::NotWildcard)
            },
            _ => match index_of(v) {
                Some(i) => Ok(Argument::Index(i)),
                None => Err(DecodeError::TypeMismatch(JsonKind::Index)),
            },
        }
    }

    pub fn to_json(&self) -> (r: JsonValue)
        ensures
            r@ == argument_to_json(*self),
    {
        match self {
            Argument::Wildcard => JsonValue::String(wildcard_token()),
            Argument::Index(i) => JsonValue::Number(Number::PosInt(*i as u64)),
        }
    }
}

impl Parameter {
    pub fn from_json(v: &JsonValue) -> (r: Result<Parameter, DecodeError>)
        ensures
            r == parameter_from_json(v@),
    {
        match v {
            JsonValue::String(s) => if *s == wildcard_token() {
                Ok(Parameter::Wildcard)
            } else {
                Err(DecodeError::NotWildcard)
            },
            JsonValue::Number(n) => Ok(Parameter::Numeric(*n)),
            _ => Err(DecodeError::TypeMismatch(JsonKind::Number)),
        }
    }

    pub fn to_json(&self) -> (r: JsonValue)
        ensures
            r@ == parameter_to_json(*self),
    {
        match self {
            Parameter::Wildcard => JsonValue::String(wildcard_token()),
            Parameter::Numeric(n) => JsonValue::Number(*n),
        }
    }
}

impl MeasurementTarget {
    pub fn from_json(v: &JsonValue) -> (r: Result<MeasurementTarget, DecodeError>)
        ensures
            match r {
                Ok(t) => target_from_json(v@) == Ok::<MeasurementTargetModel, DecodeError>(t@),
                Err(e) => target_from_json(v@) == Err::<MeasurementTargetModel, DecodeError>(e),
            },
    {
        match v {
            JsonValue::String(s) => if *s == wildcard_token() {
                Ok(MeasurementTarget::Wildcard)
            } else {
                Ok(MeasurementTarget::MemoryReference(s.clone()))
            },
            _ => Err(DecodeError::TypeMismatch(JsonKind::String)),
        }
    }

    pub fn to_json(&self) -> (r: JsonValue)
        ensures
            r@ == target_to_json(self@),
    {
        match self {
            MeasurementTarget::Wildcard => JsonValue::String(wildcard_token()),
            MeasurementTarget::MemoryReference(m) => JsonValue::String(m.clone()),
        }
    }
}

} // verus!
