//! What each hardware object supports, and the codec of its entry.
//!
//! The entry of a hardware object carries no tag. Its shape is found by
//! trying, in order, gates, a gate-set type, characteristics and the dead
//! flag; an empty object asks for the default gates.

use vstd::prelude::*;
use crate::error::{lemma_keys_differ, DecodeError, Field, JsonKind};
use crate::fields::{field, member};
use crate::gate::{
    gate_from_json, gate_to_json, gate_wf, lemma_decoded_gate_wf, lemma_gate_round_trip, Gate,
    GateModel,
};
use crate::json::{
    decode_items, items_of, keys_distinct, lemma_decode_items_each, lemma_decode_items_error,
    lemma_decode_items_ok, lemma_decode_items_step, lemma_items_of, lemma_lookup_absent,
    lemma_members_of, members_of, Json, JsonValue, Number,
};
use crate::specs::{
    lemma_decoded_specs_map_distinct, lemma_specs_map_round_trip, specs_map_from_json,
    specs_map_to_json, SpecsMap,
};

verus! {

/// What a single-qubit hardware object supports.
#[derive(Debug, PartialEq)]
pub enum OneQ {
    /// The gates it supports.
    Gates { gates: Vec<Gate> },
    /// A gate set known to the compiler by name (a deprecated form).
    Ty { ty: String },
    /// Gates given by their characteristics (a deprecated form).
    Specs { specs: SpecsMap },
    /// Whether the qubit is present but unusable for computation.
    Dead { dead: bool },
    /// The compiler's default gates.
    Defaults,
}

/// What a two-qubit hardware object supports.
#[derive(Debug, PartialEq)]
pub enum TwoQ {
    /// The gates it supports.
    Gates { gates: Vec<Gate> },
    /// Gate sets known to the compiler by name (a deprecated form).
    Ty { ty: Vec<String> },
    /// Gates given by their characteristics (a deprecated form).
    Specs { specs: SpecsMap },
    /// Whether the pair is present but unusable for computation.
    Dead { dead: bool },
    /// The compiler's default gates.
    Defaults,
}

/// The mathematical value of a [`OneQ`].
pub enum OneQModel {
    Gates(Seq<GateModel>),
    Ty(Seq<char>),
    Specs(Seq<(Seq<char>, Number)>),
    Dead(bool),
    Defaults,
}

/// The mathematical value of a [`TwoQ`].
pub enum TwoQModel {
    Gates(Seq<GateModel>),
    Ty(Seq<Seq<char>>),
    Specs(Seq<(Seq<char>, Number)>),
    Dead(bool),
    Defaults,
}

pub open spec fn gates_model(v: Seq<Gate>) -> Seq<GateModel> {
    v.map_values(|g: Gate| g@)
}

pub open spec fn strings_model(v: Seq<String>) -> Seq<Seq<char>> {
    v.map_values(|s: String| s@)
}

impl View for OneQ {
    type V = OneQModel;

    open spec fn view(&self) -> OneQModel {
        match self {
            OneQ::Gates { gates } => OneQModel::Gates(gates_model(gates@)),
            OneQ::Ty { ty } => OneQModel::Ty(ty@),
            OneQ::Specs { specs } => OneQModel::Specs(specs@),
            OneQ::Dead { dead } => OneQModel::Dead(*dead),
            OneQ::Defaults => OneQModel::Defaults,
        }
    }
}

impl View for TwoQ {
    type V = TwoQModel;

    open spec fn view(&self) -> TwoQModel {
        match self {
            TwoQ::Gates { gates } => TwoQModel::Gates(gates_model(gates@)),
            TwoQ::Ty { ty } => TwoQModel::Ty(strings_model(ty@)),
            TwoQ::Specs { specs } => TwoQModel::Specs(specs@),
            TwoQ::Dead { dead } => TwoQModel::Dead(*dead),
            TwoQ::Defaults => TwoQModel::Defaults,
        }
    }
}

pub open spec fn gate_decoder() -> spec_fn(Json) -> Result<GateModel, DecodeError> {
    |j: Json| gate_from_json(j)
}

pub open spec fn string_from_json(j: Json) -> Result<Seq<char>, DecodeError> {
    match j {
        Json::Str(s) => Ok(s),
        _ => Err(DecodeError::TypeMismatch(JsonKind::String)),
    }
}

pub open spec fn string_decoder() -> spec_fn(Json) -> Result<Seq<char>, DecodeError> {
    |j: Json| string_from_json(j)
}

/// The gates shape: `gates` holds an array of gates.
pub open spec fn gates_candidate(fields: Seq<(Seq<char>, Json)>) -> Option<Seq<GateModel>> {
    match member(fields, Field::Gates) {
        Some(Json::Arr(items)) => match decode_items(items, gate_decoder()) {
            Ok(gs) => Some(gs),
            Err(_) => None,
        },
        _ => None,
    }
}

/// The type shape of a single qubit: `type` holds a string.
pub open spec fn one_q_type_candidate(fields: Seq<(Seq<char>, Json)>) -> Option<Seq<char>> {
    match member(fields, Field::Type) {
        Some(Json::Str(s)) => Some(s),
        _ => None,
    }
}

/// The type shape of a qubit pair: `type` holds an array of strings.
pub open spec fn two_q_type_candidate(fields: Seq<(Seq<char>, Json)>) -> Option<Seq<Seq<char>>> {
    match member(fields, Field::Type) {
        Some(Json::Arr(items)) => match decode_items(items, string_decoder()) {
            Ok(ts) => Some(ts),
            Err(_) => None,
        },
        _ => None,
    }
}

/// The characteristics shape: `specs` holds a map of characteristics.
pub open spec fn specs_candidate(fields: Seq<(Seq<char>, Json)>) -> Option<
    Seq<(Seq<char>, Number)>,
> {
    match member(fields, Field::Specs) {
        Some(j) => match specs_map_from_json(j) {
            Ok(m) => Some(m),
            Err(_) => None,
        },
        None => None,
    }
}

/// The dead shape: `dead` holds a boolean.
pub open spec fn dead_candidate(fields: Seq<(Seq<char>, Json)>) -> Option<bool> {
    match member(fields, Field::Dead) {
        Some(Json::Bool(b)) => Some(b),
        _ => None,
    }
}

/// What a JSON value decodes to as the entry of a single qubit: the first
/// shape that matches, or the defaults for an empty object.
pub open spec fn one_q_from_json(j: Json) -> Result<OneQModel, DecodeError> {
    match j {
        Json::Obj(fields) => match gates_candidate(fields) {
            Some(gs) => Ok(OneQModel::Gates(gs)),
            None => match one_q_type_candidate(fields) {
                Some(t) => Ok(OneQModel::Ty(t)),
                None => match specs_candidate(fields) {
                    Some(m) => Ok(OneQModel::Specs(m)),
                    None => match dead_candidate(fields) {
                        Some(b) => Ok(OneQModel::Dead(b)),
                        None => if fields.len() == 0 {
                            Ok(OneQModel::Defaults)
                        } else {
                            Err(DecodeError::NoMatchingShape(Field::OneQ))
                        },
                    },
                },
            },
        },
        _ => Err(DecodeError::NoMatchingShape(Field::OneQ)),
    }
}

/// What a JSON value decodes to as the entry of a qubit pair.
pub open spec fn two_q_from_json(j: Json) -> Result<TwoQModel, DecodeError> {
    match j {
        Json::Obj(fields) => match gates_candidate(fields) {
            Some(gs) => Ok(TwoQModel::Gates(gs)),
            None => match two_q_type_candidate(fields) {
                Some(t) => Ok(TwoQModel::Ty(t)),
                None => match specs_candidate(fields) {
                    Some(m) => Ok(TwoQModel::Specs(m)),
                    None => match dead_candidate(fields) {
                        Some(b) => Ok(TwoQModel::Dead(b)),
                        None => if fields.len() == 0 {
                            Ok(TwoQModel::Defaults)
                        } else {
                            Err(DecodeError::NoMatchingShape(Field::TwoQ))
                        },
                    },
                },
            },
        },
        _ => Err(DecodeError::NoMatchingShape(Field::TwoQ)),
    }
}

pub open spec fn gates_to_json(gs: Seq<GateModel>) -> Seq<Json> {
    gs.map_values(|g: GateModel| gate_to_json(g))
}

pub open spec fn strings_to_json(ts: Seq<Seq<char>>) -> Seq<Json> {
    ts.map_values(|t: Seq<char>| Json::Str(t))
}

pub open spec fn one_q_members(e: OneQModel) -> Seq<(Seq<char>, Json)> {
    match e {
        OneQModel::Gates(gs) => seq![(Field::Gates.spec_key(), Json::Arr(gates_to_json(gs)))],
        OneQModel::Ty(t) => seq![(Field::Type.spec_key(), Json::Str(t))],
        OneQModel::Specs(m) => seq![(Field::Specs.spec_key(), specs_map_to_json(m))],
        OneQModel::Dead(b) => seq![(Field::Dead.spec_key(), Json::Bool(b))],
        OneQModel::Defaults => Seq::empty(),
    }
}

pub open spec fn two_q_members(e: TwoQModel) -> Seq<(Seq<char>, Json)> {
    match e {
        TwoQModel::Gates(gs) => seq![(Field::Gates.spec_key(), Json::Arr(gates_to_json(gs)))],
        TwoQModel::Ty(ts) => seq![(Field::Type.spec_key(), Json::Arr(strings_to_json(ts)))],
        TwoQModel::Specs(m) => seq![(Field::Specs.spec_key(), specs_map_to_json(m))],
        TwoQModel::Dead(b) => seq![(Field::Dead.spec_key(), Json::Bool(b))],
        TwoQModel::Defaults => Seq::empty(),
    }
}

/// The encoding of a single qubit's entry: one member for its shape, none
/// for the defaults.
pub open spec fn one_q_to_json(e: OneQModel) -> Json {
    Json::Obj(one_q_members(e))
}

/// The encoding of a qubit pair's entry.
pub open spec fn two_q_to_json(e: TwoQModel) -> Json {
    Json::Obj(two_q_members(e))
}

pub open spec fn one_q_wf(e: OneQModel) -> bool {
    match e {
        OneQModel::Gates(gs) => forall|i: int| 0 <= i < gs.len() ==> gate_wf(#[trigger] gs[i]),
        OneQModel::Specs(m) => keys_distinct(m),
        _ => true,
    }
}

pub open spec fn two_q_wf(e: TwoQModel) -> bool {
    match e {
        TwoQModel::Gates(gs) => forall|i: int| 0 <= i < gs.len() ==> gate_wf(#[trigger] gs[i]),
        TwoQModel::Specs(m) => keys_distinct(m),
        _ => true,
    }
}

fn gates_of(items: &Vec<JsonValue>) -> (r: Result<Vec<Gate>, DecodeError>)
    ensures
        match r {
            Ok(gs) => decode_items(items_of(items@), gate_decoder()) == Ok::<
                Seq<GateModel>,
                DecodeError,
            >(gates_model(gs@)),
            Err(e) => decode_items(items_of(items@), gate_decoder()) == Err::<
                Seq<GateModel>,
                DecodeError,
            >(e),
        },
{
    let ghost s = items_of(items@);
    proof {
        lemma_items_of(items@);
    }
    let mut out: Vec<Gate> = Vec::new();
    proof {
        assert(gates_model(out@) =~= Seq::<GateModel>::empty());
    }
    let mut i: usize = 0;
    while i < items.len()
        invariant
            i <= items.len(),
            s == items_of(items@),
            s.len() == items@.len(),
            forall|k: int| 0 <= k < items@.len() ==> #[trigger] s[k] == items@[k]@,
            decode_items(s.subrange(0, i as int), gate_decoder()) == Ok::<
                Seq<GateModel>,
                DecodeError,
            >(gates_model(out@)),
        decreases items.len() - i,
    {
        proof {
            lemma_decode_items_step(s, gate_decoder(), i as int);
        }
        match Gate::from_json(&items[i]) {
            Err(e) => {
                proof {
                    lemma_decode_items_error(s, gate_decoder(), i + 1, s.len() as int);
                    assert(s.subrange(0, s.len() as int) =~= s);
                }
                return Err(e);
            },
            Ok(g) => {
                let ghost before = out@;
                out.push(g);
                proof {
                    assert(gates_model(out@) =~= gates_model(before).push(g@));
                }
            },
        }
        i = i + 1;
    }
    proof {
        assert(s.subrange(0, s.len() as int) =~= s);
    }
    Ok(out)
}

fn strings_of(items: &Vec<JsonValue>) -> (r: Result<Vec<String>, DecodeError>)
    ensures
        match r {
            Ok(ts) => decode_items(items_of(items@), string_decoder()) == Ok::<
                Seq<Seq<char>>,
                DecodeError,
            >(strings_model(ts@)),
            Err(e) => decode_items(items_of(items@), string_decoder()) == Err::<
                Seq<Seq<char>>,
                DecodeError,
            >(e),
        },
{
    let ghost s = items_of(items@);
    proof {
        lemma_items_of(items@);
    }
    let mut out: Vec<String> = Vec::new();
    proof {
        assert(strings_model(out@) =~= Seq::<Seq<char>>::empty());
    }
    let mut i: usize = 0;
    while i < items.len()
        invariant
            i <= items.len(),
            s == items_of(items@),
            s.len() == items@.len(),
            forall|k: int| 0 <= k < items@.len() ==> #[trigger] s[k] == items@[k]@,
            decode_items(s.subrange(0, i as int), string_decoder()) == Ok::<
                Seq<Seq<char>>,
                DecodeError,
            >(strings_model(out@)),
        decreases items.len() - i,
    {
        proof {
            lemma_decode_items_step(s, string_decoder(), i as int);
        }
        match &items[i] {
            JsonValue::String(t) => {
                let ghost before = out@;
                out.push(t.clone());
                proof {
                    assert(strings_model(out@) =~= strings_model(before).push(t@));
                }
            },
            _ => {
                proof {
                    lemma_decode_items_error(s, string_decoder(), i + 1, s.len() as int);
                    assert(s.subrange(0, s.len() as int) =~= s);
                }
                return Err(DecodeError::TypeMismatch(JsonKind::String));
            },
        }
        i = i + 1;
    }
    proof {
        assert(s.subrange(0, s.len() as int) =~= s);
    }
    Ok(out)
}

fn gates_to_values(gs: &Vec<Gate>) -> (r: Vec<JsonValue>)
    ensures
        items_of(r@) == gates_to_json(gates_model(gs@)),
{
    let mut out: Vec<JsonValue> = Vec::new();
    let mut i: usize = 0;
    while i < gs.len()
        invariant
            i <= gs.len(),
            out@.len() == i,
            forall|k: int| 0 <= k < i ==> (#[trigger] out@[k])@ == gate_to_json(gs@[k]@),
        decreases gs.len() - i,
    {
        out.push(gs[i].to_json());
        i = i + 1;
    }
    proof {
        lemma_items_of(out@);
        assert(items_of(out@) =~= gates_to_json(gates_model(gs@)));
    }
    out
}

fn strings_to_values(ts: &Vec<String>) -> (r: Vec<JsonValue>)
    ensures
        items_of(r@) == strings_to_json(strings_model(ts@)),
{
    let mut out: Vec<JsonValue> = Vec::new();
    let mut i: usize = 0;
    while i < ts.len()
        invariant
            i <= ts.len(),
            out@.len() == i,
            forall|k: int| 0 <= k < i ==> (#[trigger] out@[k])@ == Json::Str(ts@[k]@),
        decreases ts.len() - i,
    {
        out.push(JsonValue::String(ts[i].clone()));
        i = i + 1;
    }
    proof {
        lemma_items_of(out@);
        assert(items_of(out@) =~= strings_to_json(strings_model(ts@)));
    }
    out
}

/// Tries the gates shape.
fn gates_in(fields: &Vec<(String, JsonValue)>) -> (r: Option<Vec<Gate>>)
    ensures
        match r {
            Some(gs) => gates_candidate(members_of(fields@)) == Some(gates_model(gs@)),
            None => gates_candidate(members_of(fields@)) is None,
        },
{
    match field(fields, Field::Gates) {
        Some(JsonValue::Array(items)) => match gates_of(items) {
            Ok(gs) => Some(gs),
            Err(_) => None,
        },
        _ => None,
    }
}

/// Tries the characteristics shape.
fn specs_in(fields: &Vec<(String, JsonValue)>) -> (r: Option<SpecsMap>)
    ensures
        match r {
            Some(m) => specs_candidate(members_of(fields@)) == Some(m@),
            None => specs_candidate(members_of(fields@)) is None,
        },
{
    match field(fields, Field::Specs) {
        Some(v) => match SpecsMap::from_json(v) {
            Ok(m) => Some(m),
            Err(_) => None,
        },
        None => None,
    }
}

/// Tries the dead shape.
fn dead_in(fields: &Vec<(String, JsonValue)>) -> (r: Option<bool>)
    ensures
        r == dead_candidate(members_of(fields@)),
{
    match field(fields, Field::Dead) {
        Some(JsonValue::Bool(b)) => Some(*b),
        _ => None,
    }
}

impl OneQ {
    /// Decodes the entry of a single qubit by trying its shapes in order.
    pub fn from_json(v: &JsonValue) -> (r: Result<OneQ, DecodeError>)
        ensures
            match r {
                Ok(e) => one_q_from_json(v@) == Ok::<OneQModel, DecodeError>(e@),
                Err(e) => one_q_from_json(v@) == Err::<OneQModel, DecodeError>(e),
            },
    {
        let fields = match v {
            JsonValue::Object(fields) => fields,
            _ => return Err(DecodeError::NoMatchingShape(Field::OneQ)),
        };
        proof {
            lemma_members_of(fields@);
        }
        match gates_in(fields) {
            Some(gates) => return Ok(OneQ::Gates { gates }),
            None => {},
        }
        match field(fields, Field::Type) {
            Some(JsonValue::String(t)) => return Ok(OneQ::Ty { ty: t.clone() }),
            _ => {},
        }
        match specs_in(fields) {
            Some(specs) => return Ok(OneQ::Specs { specs }),
            None => {},
        }
        match dead_in(fields) {
            Some(dead) => return Ok(OneQ::Dead { dead }),
            None => {},
        }
        if fields.len() == 0 {
            Ok(OneQ::Defaults)
        } else {
            Err(DecodeError::NoMatchingShape(Field::OneQ))
        }
    }

    /// Encodes the entry as an object with one member for its shape.
    pub fn to_json(&self) -> (r: JsonValue)
        ensures
            r@ == one_q_to_json(self@),
    {
        let fields = match self {
            OneQ::Gates { gates } => vec![
                (Field::Gates.key(), JsonValue::Array(gates_to_values(gates))),
            ],
            OneQ::Ty { ty } => vec![(Field::Type.key(), JsonValue::String(ty.clone()))],
            OneQ::Specs { specs } => vec![(Field::Specs.key(), specs.to_json())],
            OneQ::Dead { dead } => vec![(Field::Dead.key(), JsonValue::Bool(*dead))],
            OneQ::Defaults => Vec::new(),
        };
        proof {
            lemma_members_of(fields@);
            assert(members_of(fields@) =~= one_q_members(self@));
        }
        JsonValue::Object(fields)
    }
}

impl TwoQ {
    /// Decodes the entry of a qubit pair by trying its shapes in order.
    pub fn from_json(v: &JsonValue) -> (r: Result<TwoQ, DecodeError>)
        ensures
            match r {
                Ok(e) => two_q_from_json(v@) == Ok::<TwoQModel, DecodeError>(e@),
                Err(e) => two_q_from_json(v@) == Err::<TwoQModel, DecodeError>(e),
            },
    {
        let fields = match v {
            JsonValue::Object(fields) => fields,
            _ => return Err(DecodeError::NoMatchingShape(Field::TwoQ)),
        };
        proof {
            lemma_members_of(fields@);
        }
        match gates_in(fields) {
            Some(gates) => return Ok(TwoQ::Gates { gates }),
            None => {},
        }
        match field(fields, Field::Type) {
            Some(JsonValue::Array(items)) => match strings_of(items) {
                Ok(ty) => return Ok(TwoQ::Ty { ty }),
                Err(_) => {},
            },
            _ => {},
        }
        match specs_in(fields) {
            Some(specs) => return Ok(TwoQ::Specs { specs }),
            None => {},
        }
        match dead_in(fields) {
            Some(dead) => return Ok(TwoQ::Dead { dead }),
            None => {},
        }
        if fields.len() == 0 {
            Ok(TwoQ::Defaults)
        } else {
            Err(DecodeError::NoMatchingShape(Field::TwoQ))
        }
    }

    /// Encodes the entry as an object with one member for its shape.
    pub fn to_json(&self) -> (r: JsonValue)
        ensures
            r@ == two_q_to_json(self@),
    {
        let fields = match self {
            TwoQ::Gates { gates } => vec![
                (Field::Gates.key(), JsonValue::Array(gates_to_values(gates))),
            ],
            TwoQ::Ty { ty } => vec![(Field::Type.key(), JsonValue::Array(strings_to_values(ty)))],
            TwoQ::Specs { specs } => vec![(Field::Specs.key(), specs.to_json())],
            TwoQ::Dead { dead } => vec![(Field::Dead.key(), JsonValue::Bool(*dead))],
            TwoQ::Defaults => Vec::new(),
        };
        proof {
            lemma_members_of(fields@);
            assert(members_of(fields@) =~= two_q_members(self@));
        }
        JsonValue::Object(fields)
    }
}

/// The encoded gates of well-formed gates decode back to them.
proof fn lemma_gates_round_trip(gs: Seq<GateModel>)
    requires
        forall|i: int| 0 <= i < gs.len() ==> gate_wf(#[trigger] gs[i]),
    ensures
        decode_items(gates_to_json(gs), gate_decoder()) == Ok::<Seq<GateModel>, DecodeError>(gs),
{
    let ys = gates_to_json(gs);
    assert forall|i: int| 0 <= i < ys.len() implies (gate_decoder())(#[trigger] ys[i]) == Ok::<
        GateModel,
        DecodeError,
    >(gs[i]) by {
        lemma_gate_round_trip(gs[i]);
    }
    lemma_decode_items_each(ys, gs, gate_decoder());
}

/// In the encoding of an entry, only the member of its shape is found.
proof fn lemma_single_member(m: Seq<(Seq<char>, Json)>, f: Field)
    requires
        m.len() == 1,
        m[0].0 == f.spec_key(),
    ensures
        member(m, f) == Some(m[0].1),
        forall|g: Field| g != f ==> #[trigger] member(m, g) is None,
{
    lemma_keys_differ();
    assert forall|g: Field| g != f implies #[trigger] member(m, g) is None by {
        lemma_lookup_absent(m, g.spec_key());
    }
}

/// Decoding the encoding of a single qubit's entry gives the entry back.
pub proof fn lemma_one_q_round_trip(e: OneQModel)
    requires
        one_q_wf(e),
    ensures
        one_q_from_json(one_q_to_json(e)) == Ok::<OneQModel, DecodeError>(e),
{
    let m = one_q_members(e);
    match e {
        OneQModel::Gates(gs) => {
            lemma_single_member(m, Field::Gates);
            lemma_gates_round_trip(gs);
        },
        OneQModel::Ty(t) => {
            lemma_single_member(m, Field::Type);
        },
        OneQModel::Specs(sm) => {
            lemma_single_member(m, Field::Specs);
            lemma_specs_map_round_trip(sm);
        },
        OneQModel::Dead(b) => {
            lemma_single_member(m, Field::Dead);
        },
        OneQModel::Defaults => {
            lemma_lookup_absent(m, Field::Gates.spec_key());
            lemma_lookup_absent(m, Field::Type.spec_key());
            lemma_lookup_absent(m, Field::Specs.spec_key());
            lemma_lookup_absent(m, Field::Dead.spec_key());
        },
    }
}

/// Decoding the encoding of a qubit pair's entry gives the entry back.
pub proof fn lemma_two_q_round_trip(e: TwoQModel)
    requires
        two_q_wf(e),
    ensures
        two_q_from_json(two_q_to_json(e)) == Ok::<TwoQModel, DecodeError>(e),
{
    let m = two_q_members(e);
    match e {
        TwoQModel::Gates(gs) => {
            lemma_single_member(m, Field::Gates);
            lemma_gates_round_trip(gs);
        },
        TwoQModel::Ty(ts) => {
            lemma_single_member(m, Field::Type);
            let ys = strings_to_json(ts);
            assert forall|i: int| 0 <= i < ys.len() implies (string_decoder())(#[trigger] ys[i])
                == Ok::<Seq<char>, DecodeError>(ts[i]) by {}
            lemma_decode_items_each(ys, ts, string_decoder());
            assert(gates_candidate(m) is None);
        },
        TwoQModel::Specs(sm) => {
            lemma_single_member(m, Field::Specs);
            lemma_specs_map_round_trip(sm);
        },
        TwoQModel::Dead(b) => {
            lemma_single_member(m, Field::Dead);
        },
        TwoQModel::Defaults => {
            lemma_lookup_absent(m, Field::Gates.spec_key());
            lemma_lookup_absent(m, Field::Type.spec_key());
            lemma_lookup_absent(m, Field::Specs.spec_key());
            lemma_lookup_absent(m, Field::Dead.spec_key());
        },
    }
}

proof fn lemma_decoded_gates_wf(items: Seq<Json>)
    requires
        decode_items(items, gate_decoder()) is Ok,
    ensures
        forall|i: int|
            0 <= i < decode_items(items, gate_decoder())->Ok_0.len() ==> gate_wf(
                #[trigger] decode_items(items, gate_decoder())->Ok_0[i],
            ),
{
    lemma_decode_items_ok(items, gate_decoder());
    let gs = decode_items(items, gate_decoder())->Ok_0;
    assert forall|i: int| 0 <= i < gs.len() implies gate_wf(#[trigger] gs[i]) by {
        assert((gate_decoder())(items[i]) == Ok::<GateModel, DecodeError>(gs[i]));
        lemma_decoded_gate_wf(items[i]);
    }
}

/// A decoded single-qubit entry is well formed.
pub proof fn lemma_decoded_one_q_wf(j: Json)
    requires
        one_q_from_json(j) is Ok,
    ensures
        one_q_wf(one_q_from_json(j)->Ok_0),
{
    if let Json::Obj(fields) = j {
        if let Some(Json::Arr(items)) = member(fields, Field::Gates) {
            if decode_items(items, gate_decoder()) is Ok {
                lemma_decoded_gates_wf(items);
            }
        }
        if let Some(sj) = member(fields, Field::Specs) {
            if specs_map_from_json(sj) is Ok {
                lemma_decoded_specs_map_distinct(sj);
            }
        }
    }
}

/// A decoded qubit-pair entry is well formed.
pub proof fn lemma_decoded_two_q_wf(j: Json)
    requires
        two_q_from_json(j) is Ok,
    ensures
        two_q_wf(two_q_from_json(j)->Ok_0),
{
    if let Json::Obj(fields) = j {
        if let Some(Json::Arr(items)) = member(fields, Field::Gates) {
            if decode_items(items, gate_decoder()) is Ok {
                lemma_decoded_gates_wf(items);
            }
        }
        if let Some(sj) = member(fields, Field::Specs) {
            if specs_map_from_json(sj) is Ok {
                lemma_decoded_specs_map_distinct(sj);
            }
        }
    }
}

/// An entry whose members all carry keys that name no shape matches no
/// shape, unless it has no members at all: it is refused, never read as the
/// defaults.
pub proof fn lemma_unknown_keys_refused(fields: Seq<(Seq<char>, Json)>)
    requires
        fields.len() > 0,
        forall|i: int|
            0 <= i < fields.len() ==> {
                let k = #[trigger] fields[i].0;
                &&& k != Field::Gates.spec_key()
                &&& k != Field::Type.spec_key()
                &&& k != Field::Specs.spec_key()
                &&& k != Field::Dead.spec_key()
            },
    ensures
        one_q_from_json(Json::Obj(fields)) == Err::<OneQModel, DecodeError>(
            DecodeError::NoMatchingShape(Field::OneQ),
        ),
        two_q_from_json(Json::Obj(fields)) == Err::<TwoQModel, DecodeError>(
            DecodeError::NoMatchingShape(Field::TwoQ),
        ),
{
    lemma_lookup_absent(fields, Field::Gates.spec_key());
    lemma_lookup_absent(fields, Field::Type.spec_key());
    lemma_lookup_absent(fields, Field::Specs.spec_key());
    lemma_lookup_absent(fields, Field::Dead.spec_key());
}

} // verus!
