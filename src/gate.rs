//! Gates that a hardware object supports, and their codec.
//!
//! A gate whose operator is `"MEASURE"` is a measurement and must have the
//! fields of one; any other operator names a quantum operation.

use vstd::prelude::*;
use crate::error::{lemma_keys_differ, DecodeError, Field, JsonKind};
use crate::fields::{
    field, member, number_field, number_in, optional, optional_field, required, required_field,
};
use crate::json::{
    decode_items, items_of, keys_distinct, lemma_decode_items_each, lemma_decode_items_error,
    lemma_decode_items_step, lemma_items_of, lemma_lookup_found, lemma_members_of, members_of,
    Json, JsonValue, Number,
};
use crate::operand::{
    argument_from_json, argument_to_json, parameter_from_json, parameter_to_json, qubit_from_json,
    qubit_to_json, target_from_json, target_to_json, Argument, MeasurementTarget,
    MeasurementTargetModel, Parameter, Qubit,
};

verus! {

/// A gate, with the time it takes and how faithfully it is carried out.
#[derive(Debug, PartialEq)]
pub enum Gate {
    Measure {
        qubit: Qubit,
        target: Option<MeasurementTarget>,
        duration: Number,
        fidelity: Number,
    },
    Quantum {
        operator: String,
        parameters: Vec<Parameter>,
        arguments: Vec<Argument>,
        duration: Number,
        fidelity: Number,
    },
}

/// The mathematical value of a [`Gate`].
pub enum GateModel {
    Measure {
        qubit: Qubit,
        target: Option<MeasurementTargetModel>,
        duration: Number,
        fidelity: Number,
    },
    Quantum {
        operator: Seq<char>,
        parameters: Seq<Parameter>,
        arguments: Seq<Argument>,
        duration: Number,
        fidelity: Number,
    },
}

pub open spec fn target_model(t: Option<MeasurementTarget>) -> Option<MeasurementTargetModel> {
    match t {
        Some(t) => Some(t@),
        None => None,
    }
}

impl View for Gate {
    type V = GateModel;

    open spec fn view(&self) -> GateModel {
        match self {
            Gate::Measure { qubit, target, duration, fidelity } => GateModel::Measure {
                qubit: *qubit,
                target: target_model(*target),
                duration: *duration,
                fidelity: *fidelity,
            },
            Gate::Quantum { operator, parameters, arguments, duration, fidelity } => GateModel::Quantum {
                operator: operator@,
                parameters: parameters@,
                arguments: arguments@,
                duration: *duration,
                fidelity: *fidelity,
            },
        }
    }
}

/// The operator that marks a measurement.
pub open spec fn measure_operator() -> Seq<char> {
    "MEASURE"@
}

fn measure_token() -> (r: String)
    ensures
        r@ == measure_operator(),
{
    "MEASURE".to_owned()
}

pub open spec fn parameter_decoder() -> spec_fn(Json) -> Result<Parameter, DecodeError> {
    |j: Json| parameter_from_json(j)
}

pub open spec fn argument_decoder() -> spec_fn(Json) -> Result<Argument, DecodeError> {
    |j: Json| argument_from_json(j)
}

pub open spec fn parameters_to_json(ps: Seq<Parameter>) -> Seq<Json> {
    ps.map_values(|p: Parameter| parameter_to_json(p))
}

pub open spec fn arguments_to_json(args: Seq<Argument>) -> Seq<Json> {
    args.map_values(|a: Argument| argument_to_json(a))
}

/// A member that must be an array, each item of which `dec` decodes.
pub open spec fn items_in<T>(
    fields: Seq<(Seq<char>, Json)>,
    f: Field,
    dec: spec_fn(Json) -> Result<T, DecodeError>,
) -> Result<Seq<T>, DecodeError> {
    match member(fields, f) {
        None => Err(DecodeError::MissingField(f)),
        Some(Json::Arr(items)) => decode_items(items, dec),
        Some(_) => Err(DecodeError::TypeMismatch(JsonKind::Array)),
    }
}

/// The optional target of a measurement.
pub open spec fn target_in(fields: Seq<(Seq<char>, Json)>) -> Result<
    Option<MeasurementTargetModel>,
    DecodeError,
> {
    match optional(fields, Field::Target) {
        None => Ok(None),
        Some(j) => match target_from_json(j) {
            Ok(t) => Ok(Some(t)),
            Err(e) => Err(e),
        },
    }
}

pub open spec fn measure_from_fields(fields: Seq<(Seq<char>, Json)>) -> Result<
    GateModel,
    DecodeError,
> {
    match required(fields, Field::Qubit) {
        Err(e) => Err(e),
        Ok(qj) => match qubit_from_json(qj) {
            Err(e) => Err(e),
            Ok(qubit) => match target_in(fields) {
                Err(e) => Err(e),
                Ok(target) => match number_in(fields, Field::Duration) {
                    Err(e) => Err(e),
                    Ok(duration) => match number_in(fields, Field::Fidelity) {
                        Err(e) => Err(e),
                        Ok(fidelity) => Ok(GateModel::Measure { qubit, target, duration, fidelity }),
                    },
                },
            },
        },
    }
}

pub open spec fn quantum_from_fields(operator: Seq<char>, fields: Seq<(Seq<char>, Json)>) -> Result<
    GateModel,
    DecodeError,
> {
    match items_in(fields, Field::Parameters, parameter_decoder()) {
        Err(e) => Err(e),
        Ok(parameters) => match items_in(fields, Field::Arguments, argument_decoder()) {
            Err(e) => Err(e),
            Ok(arguments) => match number_in(fields, Field::Duration) {
                Err(e) => Err(e),
                Ok(duration) => match number_in(fields, Field::Fidelity) {
                    Err(e) => Err(e),
                    Ok(fidelity) => Ok(
                        GateModel::Quantum { operator, parameters, arguments, duration, fidelity },
                    ),
                },
            },
        },
    }
}

/// What a JSON value decodes to as a gate. The operator decides the shape:
/// `"MEASURE"` asks for a measurement and nothing else.
pub open spec fn gate_from_json(j: Json) -> Result<GateModel, DecodeError> {
    match j {
        Json::Obj(fields) => match member(fields, Field::Operator) {
            None => Err(DecodeError::MissingField(Field::Operator)),
            Some(Json::Str(op)) => if op == measure_operator() {
                measure_from_fields(fields)
            } else {
                quantum_from_fields(op, fields)
            },
            Some(_) => Err(DecodeError::TypeMismatch(JsonKind::String)),
        },
        _ => Err(DecodeError::TypeMismatch(JsonKind::Object)),
    }
}

pub open spec fn optional_target_to_json(t: Option<MeasurementTargetModel>) -> Json {
    match t {
        None => Json::Null,
        Some(t) => target_to_json(t),
    }
}

/// The JSON encoding of a gate.
pub open spec fn gate_to_json(g: GateModel) -> Json {
    Json::Obj(gate_members(g))
}

/// The members of a gate's encoding, in the order of its fields.
pub open spec fn gate_members(g: GateModel) -> Seq<(Seq<char>, Json)> {
    match g {
        GateModel::Measure { qubit, target, duration, fidelity } => seq![
            (Field::Operator.spec_key(), Json::Str(measure_operator())),
            (Field::Qubit.spec_key(), qubit_to_json(qubit)),
            (Field::Target.spec_key(), optional_target_to_json(target)),
            (Field::Duration.spec_key(), Json::Num(duration)),
            (Field::Fidelity.spec_key(), Json::Num(fidelity)),
        ],
        GateModel::Quantum { operator, parameters, arguments, duration, fidelity } => seq![
            (Field::Operator.spec_key(), Json::Str(operator)),
            (Field::Parameters.spec_key(), Json::Arr(parameters_to_json(parameters))),
            (Field::Arguments.spec_key(), Json::Arr(arguments_to_json(arguments))),
            (Field::Duration.spec_key(), Json::Num(duration)),
            (Field::Fidelity.spec_key(), Json::Num(fidelity)),
        ],
    }
}

/// A gate that its encoding describes without ambiguity: a quantum operation
/// is not named `"MEASURE"`, and a memory reference is not the wildcard.
pub open spec fn gate_wf(g: GateModel) -> bool {
    match g {
        GateModel::Measure { target, .. } => match target {
            Some(MeasurementTargetModel::MemoryReference(r)) => r != crate::json::wildcard(),
            _ => true,
        },
        GateModel::Quantum { operator, .. } => operator != measure_operator(),
    }
}

fn parameters_of(items: &Vec<JsonValue>) -> (r: Result<Vec<Parameter>, DecodeError>)
    ensures
        match r {
            Ok(ps) => decode_items(items_of(items@), parameter_decoder()) == Ok::<
                Seq<Parameter>,
                DecodeError,
            >(ps@),
            Err(e) => decode_items(items_of(items@), parameter_decoder()) == Err::<
                Seq<Parameter>,
                DecodeError,
            >(e),
        },
{
    let ghost s = items_of(items@);
    proof {
        lemma_items_of(items@);
    }
    let mut out: Vec<Parameter> = Vec::new();
    let mut i: usize = 0;
    while i < items.len()
        invariant
            i <= items.len(),
            s == items_of(items@),
            s.len() == items@.len(),
            forall|k: int| 0 <= k < items@.len() ==> #[trigger] s[k] == items@[k]@,
            decode_items(s.subrange(0, i as int), parameter_decoder()) == Ok::<
                Seq<Parameter>,
                DecodeError,
            >(out@),
        decreases items.len() - i,
    {
        proof {
            lemma_decode_items_step(s, parameter_decoder(), i as int);
        }
        match Parameter::from_json(&items[i]) {
            Err(e) => {
                proof {
                    lemma_decode_items_error(s, parameter_decoder(), i + 1, s.len() as int);
                    assert(s.subrange(0, s.len() as int) =~= s);
                }
                return Err(e);
            },
            Ok(p) => {
                out.push(p);
            },
        }
        i = i + 1;
    }
    proof {
        assert(s.subrange(0, s.len() as int) =~= s);
    }
    Ok(out)
}

fn arguments_of(items: &Vec<JsonValue>) -> (r: Result<Vec<Argument>, DecodeError>)
    ensures
        match r {
            Ok(args) => decode_items(items_of(items@), argument_decoder()) == Ok::<
                Seq<Argument>,
                DecodeError,
            >(args@),
            Err(e) => decode_items(items_of(items@), argument_decoder()) == Err::<
                Seq<Argument>,
                DecodeError,
            >(e),
        },
{
    let ghost s = items_of(items@);
    proof {
        lemma_items_of(items@);
    }
    let mut out: Vec<Argument> = Vec::new();
    let mut i: usize = 0;
    while i < items.len()
        invariant
            i <= items.len(),
            s == items_of(items@),
            s.len() == items@.len(),
            forall|k: int| 0 <= k < items@.len() ==> #[trigger] s[k] == items@[k]@,
            decode_items(s.subrange(0, i as int), argument_decoder()) == Ok::<
                Seq<Argument>,
                DecodeError,
            >(out@),
        decreases items.len() - i,
    {
        proof {
            lemma_decode_items_step(s, argument_decoder(), i as int);
        }
        match Argument::from_json(&items[i]) {
            Err(e) => {
                proof {
                    lemma_decode_items_error(s, argument_decoder(), i + 1, s.len() as int);
                    assert(s.subrange(0, s.len() as int) =~= s);
                }
                return Err(e);
            },
            Ok(a) => {
                out.push(a);
            },
        }
        i = i + 1;
    }
    proof {
        assert(s.subrange(0, s.len() as int) =~= s);
    }
    Ok(out)
}

fn target_field(fields: &Vec<(String, JsonValue)>) -> (r: Result<
    Option<MeasurementTarget>,
    DecodeError,
>)
    ensures
        match r {
            Ok(t) => target_in(members_of(fields@)) == Ok::<
                Option<MeasurementTargetModel>,
                DecodeError,
            >(target_model(t)),
            Err(e) => target_in(members_of(fields@)) == Err::<
                Option<MeasurementTargetModel>,
                DecodeError,
            >(e),
        },
{
    match optional_field(fields, Field::Target) {
        None => Ok(None),
        Some(v) => match MeasurementTarget::from_json(v) {
            Ok(t) => Ok(Some(t)),
            Err(e) => Err(e),
        },
    }
}

fn parameters_to_values(ps: &Vec<Parameter>) -> (r: Vec<JsonValue>)
    ensures
        items_of(r@) == parameters_to_json(ps@),
{
    let mut out: Vec<JsonValue> = Vec::new();
    let mut i: usize = 0;
    while i < ps.len()
        invariant
            i <= ps.len(),
            out@.len() == i,
            forall|k: int| 0 <= k < i ==> (#[trigger] out@[k])@ == parameter_to_json(ps@[k]),
        decreases ps.len() - i,
    {
        out.push(ps[i].to_json());
        i = i + 1;
    }
    proof {
        lemma_items_of(out@);
        assert(items_of(out@) =~= parameters_to_json(ps@));
    }
    out
}

fn arguments_to_values(args: &Vec<Argument>) -> (r: Vec<JsonValue>)
    ensures
        items_of(r@) == arguments_to_json(args@),
{
    let mut out: Vec<JsonValue> = Vec::new();
    let mut i: usize = 0;
    while i < args.len()
        invariant
            i <= args.len(),
            out@.len() == i,
            forall|k: int| 0 <= k < i ==> (#[trigger] out@[k])@ == argument_to_json(args@[k]),
        decreases args.len() - i,
    {
        out.push(args[i].to_json());
        i = i + 1;
    }
    proof {
        lemma_items_of(out@);
        assert(items_of(out@) =~= arguments_to_json(args@));
    }
    out
}

impl Gate {
    /// Decodes a gate: an object whose operator decides between a
    /// measurement and a quantum operation.
    pub fn from_json(v: &JsonValue) -> (r: Result<Gate, DecodeError>)
        ensures
            match r {
                Ok(g) => gate_from_json(v@) == Ok::<GateModel, DecodeError>(g@),
                Err(e) => gate_from_json(v@) == Err::<GateModel, DecodeError>(e),
            },
    {
        match v {
            JsonValue::Object(fields) => match field(fields, Field::Operator) {
                None => Err(DecodeError::MissingField(Field::Operator)),
                Some(JsonValue::String(op)) => if *op == measure_token() {
                    Gate::measure_from(fields)
                } else {
                    Gate::quantum_from(op, fields)
                },
                Some(_) => Err(DecodeError::TypeMismatch(JsonKind::String)),
            },
            _ => Err(DecodeError::TypeMismatch(JsonKind::Object)),
        }
    }

    fn measure_from(fields: &Vec<(String, JsonValue)>) -> (r: Result<Gate, DecodeError>)
        ensures
            match r {
                Ok(g) => measure_from_fields(members_of(fields@)) == Ok::<GateModel, DecodeError>(
                    g@,
                ),
                Err(e) => measure_from_fields(members_of(fields@)) == Err::<GateModel, DecodeError>(
                    e,
                ),
            },
    {
        let qj = match required_field(fields, Field::Qubit) {
            Ok(q) => q,
            Err(e) => return Err(e),
        };
        let qubit = match Qubit::from_json(qj) {
            Ok(q) => q,
            Err(e) => return Err(e),
        };
        let target = match target_field(fields) {
            Ok(t) => t,
            Err(e) => return Err(e),
        };
        let duration = match number_field(fields, Field::Duration) {
            Ok(d) => d,
            Err(e) => return Err(e),
        };
        let fidelity = match number_field(fields, Field::Fidelity) {
            Ok(f) => f,
            Err(e) => return Err(e),
        };
        Ok(Gate::Measure { qubit, target, duration, fidelity })
    }

    fn quantum_from(operator: &String, fields: &Vec<(String, JsonValue)>) -> (r: Result<
        Gate,
        DecodeError,
    >)
        ensures
            match r {
                Ok(g) => quantum_from_fields(operator@, members_of(fields@)) == Ok::<
                    GateModel,
                    DecodeError,
                >(g@),
                Err(e) => quantum_from_fields(operator@, members_of(fields@)) == Err::<
                    GateModel,
                    DecodeError,
                >(e),
            },
    {
        let parameters = match field(fields, Field::Parameters) {
            None => return Err(DecodeError::MissingField(Field::Parameters)),
            Some(JsonValue::Array(items)) => match parameters_of(items) {
                Ok(ps) => ps,
                Err(e) => return Err(e),
            },
            Some(_) => return Err(DecodeError::TypeMismatch(JsonKind::Array)),
        };
        let arguments = match field(fields, Field::Arguments) {
            None => return Err(DecodeError::MissingField(Field::Arguments)),
            Some(JsonValue::Array(items)) => match arguments_of(items) {
                Ok(args) => args,
                Err(e) => return Err(e),
            },
            Some(_) => return Err(DecodeError::TypeMismatch(JsonKind::Array)),
        };
        let duration = match number_field(fields, Field::Duration) {
            Ok(d) => d,
            Err(e) => return Err(e),
        };
        let fidelity = match number_field(fields, Field::Fidelity) {
            Ok(f) => f,
            Err(e) => return Err(e),
        };
        Ok(Gate::Quantum { operator: operator.clone(), parameters, arguments, duration, fidelity })
    }

    /// Encodes a gate as an object with one member per field.
    pub fn to_json(&self) -> (r: JsonValue)
        ensures
            r@ == gate_to_json(self@),
    {
        match self {
            Gate::Measure { qubit, target, duration, fidelity } => {
                let t = match target {
                    None => JsonValue::Null,
                    Some(t) => t.to_json(),
                };
                let fields = vec![
                    (Field::Operator.key(), JsonValue::String(measure_token())),
                    (Field::Qubit.key(), qubit.to_json()),
                    (Field::Target.key(), t),
                    (Field::Duration.key(), JsonValue::Number(*duration)),
                    (Field::Fidelity.key(), JsonValue::Number(*fidelity)),
                ];
                proof {
                    lemma_members_of(fields@);
                    assert(members_of(fields@) =~= gate_members(self@));
                }
                JsonValue::Object(fields)
            },
            Gate::Quantum { operator, parameters, arguments, duration, fidelity } => {
                let fields = vec![
                    (Field::Operator.key(), JsonValue::String(operator.clone())),
                    (Field::Parameters.key(), JsonValue::Array(parameters_to_values(parameters))),
                    (Field::Arguments.key(), JsonValue::Array(arguments_to_values(arguments))),
                    (Field::Duration.key(), JsonValue::Number(*duration)),
                    (Field::Fidelity.key(), JsonValue::Number(*fidelity)),
                ];
                proof {
                    lemma_members_of(fields@);
                    assert(members_of(fields@) =~= gate_members(self@));
                }
                JsonValue::Object(fields)
            },
        }
    }
}

/// The members of a gate's encoding carry distinct keys.
proof fn lemma_gate_members(g: GateModel)
    ensures
        keys_distinct(gate_members(g)),
        gate_members(g).len() == 5,
{
    lemma_keys_differ();
    assert(keys_distinct(gate_members(g)));
}

/// The JSON form of a well-formed gate reads back as that gate.
pub proof fn lemma_gate_round_trip(g: GateModel)
    requires
        gate_wf(g),
    ensures
        gate_from_json(gate_to_json(g)) == Ok::<GateModel, DecodeError>(g),
{
    lemma_gate_members(g);
    let m = gate_members(g);
    lemma_lookup_found(m, 0);
    lemma_lookup_found(m, 1);
    lemma_lookup_found(m, 2);
    lemma_lookup_found(m, 3);
    lemma_lookup_found(m, 4);
    match g {
        GateModel::Measure { qubit, target, duration, fidelity } => {
            assert(qubit_from_json(qubit_to_json(qubit)) == Ok::<Qubit, DecodeError>(qubit));
        },
        GateModel::Quantum { operator, parameters, arguments, duration, fidelity } => {
            let pj = parameters_to_json(parameters);
            assert forall|i: int| 0 <= i < pj.len() implies (parameter_decoder())(#[trigger] pj[i])
                == Ok::<Parameter, DecodeError>(parameters[i]) by {
                assert(pj[i] == parameter_to_json(parameters[i]));
            }
            lemma_decode_items_each(pj, parameters, parameter_decoder());
            let aj = arguments_to_json(arguments);
            assert forall|i: int| 0 <= i < aj.len() implies (argument_decoder())(#[trigger] aj[i])
                == Ok::<Argument, DecodeError>(arguments[i]) by {
                assert(aj[i] == argument_to_json(arguments[i]));
            }
            lemma_decode_items_each(aj, arguments, argument_decoder());
        },
    }
}

/// A decoded gate is one that its encoding describes without ambiguity.
pub proof fn lemma_decoded_gate_wf(j: Json)
    requires
        gate_from_json(j) is Ok,
    ensures
        gate_wf(gate_from_json(j)->Ok_0),
{
}

} // verus!
