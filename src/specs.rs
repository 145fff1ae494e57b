//! The operating characteristics of a chip's hardware objects.

use vstd::prelude::*;
use crate::error::{lemma_keys_differ, DecodeError, Field, JsonKind};
use crate::fields::{optional, optional_field};
use crate::json::{
    decode_members, has_distinct_keys, keys_distinct, lemma_decode_members_each,
    lemma_decode_members_error, lemma_decode_members_keys, lemma_decode_members_step,
    lemma_lookup_absent, lemma_lookup_found, lemma_members_of, members_of, Json, JsonValue,
    Number,
};

verus! {

/// Maps the name of a characteristic to its value (such as `"T1"` to
/// `1e-5`). Names are distinct; unknown names are kept as they are.
#[derive(Debug, PartialEq)]
pub struct SpecsMap(pub Vec<(String, Number)>);

/// A table of characteristics: one map for each hardware object.
pub open spec fn entries_model(v: Seq<(String, Number)>) -> Seq<(Seq<char>, Number)> {
    v.map_values(|p: (String, Number)| (p.0@, p.1))
}

impl View for SpecsMap {
    type V = Seq<(Seq<char>, Number)>;

    open spec fn view(&self) -> Seq<(Seq<char>, Number)> {
        entries_model(self.0@)
    }
}

/// The characteristics of the single-qubit and the two-qubit hardware
/// objects, each keyed by the object's identifier.
#[derive(Debug, PartialEq)]
pub struct Specs {
    pub one_q: Option<Vec<(String, SpecsMap)>>,
    pub two_q: Option<Vec<(String, SpecsMap)>>,
}

/// The mathematical value of [`Specs`].
pub struct SpecsModel {
    pub one_q: Option<Seq<(Seq<char>, Seq<(Seq<char>, Number)>)>>,
    pub two_q: Option<Seq<(Seq<char>, Seq<(Seq<char>, Number)>)>>,
}

pub open spec fn table_model(v: Seq<(String, SpecsMap)>) -> Seq<(Seq<char>, Seq<(Seq<char>, Number)>)> {
    v.map_values(|p: (String, SpecsMap)| (p.0@, p.1@))
}

pub open spec fn optional_table_model(t: Option<Vec<(String, SpecsMap)>>) -> Option<
    Seq<(Seq<char>, Seq<(Seq<char>, Number)>)>,
> {
    match t {
        Some(v) => Some(table_model(v@)),
        None => None,
    }
}

impl View for Specs {
    type V = SpecsModel;

    open spec fn view(&self) -> SpecsModel {
        SpecsModel {
            one_q: optional_table_model(self.one_q),
            two_q: optional_table_model(self.two_q),
        }
    }
}

pub open spec fn number_from_json(j: Json) -> Result<Number, DecodeError> {
    match j {
        Json::Num(n) => Ok(n),
        _ => Err(DecodeError::TypeMismatch(JsonKind::Number)),
    }
}

pub open spec fn number_decoder() -> spec_fn(Json) -> Result<Number, DecodeError> {
    |j: Json| number_from_json(j)
}

/// What a JSON value decodes to as a map of characteristics.
pub open spec fn specs_map_from_json(j: Json) -> Result<Seq<(Seq<char>, Number)>, DecodeError> {
    match j {
        Json::Obj(fields) => if keys_distinct(fields) {
            decode_members(fields, number_decoder())
        } else {
            Err(DecodeError::DuplicateKey)
        },
        _ => Err(DecodeError::TypeMismatch(JsonKind::Object)),
    }
}

pub open spec fn specs_map_decoder() -> spec_fn(Json) -> Result<
    Seq<(Seq<char>, Number)>,
    DecodeError,
> {
    |j: Json| specs_map_from_json(j)
}

/// What a JSON value decodes to as a table of characteristics.
pub open spec fn table_from_json(j: Json) -> Result<
    Seq<(Seq<char>, Seq<(Seq<char>, Number)>)>,
    DecodeError,
> {
    match j {
        Json::Obj(fields) => if keys_distinct(fields) {
            decode_members(fields, specs_map_decoder())
        } else {
            Err(DecodeError::DuplicateKey)
        },
        _ => Err(DecodeError::TypeMismatch(JsonKind::Object)),
    }
}

/// An optional table under a key; absent and `null` give `None`.
pub open spec fn optional_table_in(fields: Seq<(Seq<char>, Json)>, f: Field) -> Result<
    Option<Seq<(Seq<char>, Seq<(Seq<char>, Number)>)>>,
    DecodeError,
> {
    match optional(fields, f) {
        None => Ok(None),
        Some(j) => match table_from_json(j) {
            Ok(t) => Ok(Some(t)),
            Err(e) => Err(e),
        },
    }
}

/// What a JSON value decodes to as the characteristics of a chip.
pub open spec fn specs_from_json(j: Json) -> Result<SpecsModel, DecodeError> {
    match j {
        Json::Obj(fields) => match optional_table_in(fields, Field::OneQ) {
            Err(e) => Err(e),
            Ok(one_q) => match optional_table_in(fields, Field::TwoQ) {
                Err(e) => Err(e),
                Ok(two_q) => Ok(SpecsModel { one_q, two_q }),
            },
        },
        _ => Err(DecodeError::TypeMismatch(JsonKind::Object)),
    }
}

pub open spec fn specs_map_to_json(m: Seq<(Seq<char>, Number)>) -> Json {
    Json::Obj(m.map_values(|p: (Seq<char>, Number)| (p.0, Json::Num(p.1))))
}

pub open spec fn table_to_json(t: Seq<(Seq<char>, Seq<(Seq<char>, Number)>)>) -> Json {
    Json::Obj(t.map_values(|p: (Seq<char>, Seq<(Seq<char>, Number)>)| (p.0, specs_map_to_json(p.1))))
}

/// The members of the encoding of [`Specs`]: a table that is absent is left
/// out.
pub open spec fn specs_members(s: SpecsModel) -> Seq<(Seq<char>, Json)> {
    let first: Seq<(Seq<char>, Json)> = match s.one_q {
        Some(t) => seq![(Field::OneQ.spec_key(), table_to_json(t))],
        None => Seq::empty(),
    };
    let second: Seq<(Seq<char>, Json)> = match s.two_q {
        Some(t) => seq![(Field::TwoQ.spec_key(), table_to_json(t))],
        None => Seq::empty(),
    };
    first + second
}

pub open spec fn specs_to_json(s: SpecsModel) -> Json {
    Json::Obj(specs_members(s))
}

/// Names are distinct in a table and in each of its maps.
pub open spec fn table_wf(t: Seq<(Seq<char>, Seq<(Seq<char>, Number)>)>) -> bool {
    &&& keys_distinct(t)
    &&& forall|i: int| 0 <= i < t.len() ==> keys_distinct(#[trigger] t[i].1)
}

pub open spec fn specs_wf(s: SpecsModel) -> bool {
    &&& (s.one_q matches Some(t) ==> table_wf(t))
    &&& (s.two_q matches Some(t) ==> table_wf(t))
}

impl SpecsMap {
    pub fn from_json(v: &JsonValue) -> (r: Result<SpecsMap, DecodeError>)
        ensures
            match r {
                Ok(m) => specs_map_from_json(v@) == Ok::<Seq<(Seq<char>, Number)>, DecodeError>(m@),
                Err(e) => specs_map_from_json(v@) == Err::<Seq<(Seq<char>, Number)>, DecodeError>(e),
            },
    {
        let fields = match v {
            JsonValue::Object(fields) => fields,
            _ => return Err(DecodeError::TypeMismatch(JsonKind::Object)),
        };
        if !has_distinct_keys(fields) {
            return Err(DecodeError::DuplicateKey);
        }
        let ghost s = members_of(fields@);
        proof {
            lemma_members_of(fields@);
        }
        let mut out: Vec<(String, Number)> = Vec::new();
        proof {
            assert(entries_model(out@) =~= Seq::<(Seq<char>, Number)>::empty());
        }
        let mut i: usize = 0;
        while i < fields.len()
            invariant
                i <= fields.len(),
                s == members_of(fields@),
                v@ == Json::Obj(s),
                keys_distinct(s),
                s.len() == fields@.len(),
                forall|k: int| 0 <= k < fields@.len() ==> #[trigger] s[k] == (fields@[k].0@, fields@[k].1@),
                decode_members(s.subrange(0, i as int), number_decoder()) == Ok::<
                    Seq<(Seq<char>, Number)>,
                    DecodeError,
                >(entries_model(out@)),
            decreases fields.len() - i,
        {
            proof {
                lemma_decode_members_step(s, number_decoder(), i as int);
            }
            match &fields[i].1 {
                JsonValue::Number(n) => {
                    let ghost before = out@;
                    out.push((fields[i].0.clone(), *n));
                    proof {
                        assert(entries_model(out@) =~= entries_model(before).push((fields@[i as int].0@, *n)));
                    }
                },
                _ => {
                    proof {
                        assert(number_from_json(s[i as int].1) == Err::<Number, DecodeError>(
                            DecodeError::TypeMismatch(JsonKind::Number),
                        ));
                        lemma_decode_members_error(s, number_decoder(), i + 1, s.len() as int);
                        assert(s.subrange(0, s.len() as int) =~= s);
                    }
                    return Err(DecodeError::TypeMismatch(JsonKind::Number));
                },
            }
            i = i + 1;
        }
        proof {
            assert(s.subrange(0, s.len() as int) =~= s);
        }
        Ok(SpecsMap(out))
    }

    pub fn to_json(&self) -> (r: JsonValue)
        ensures
            r@ == specs_map_to_json(self@),
    {
        let mut out: Vec<(String, JsonValue)> = Vec::new();
        let mut i: usize = 0;
        while i < self.0.len()
            invariant
                i <= self.0.len(),
                out@.len() == i,
                forall|k: int|
                    0 <= k < i ==> (#[trigger] out@[k]).0@ == self.0@[k].0@ && out@[k].1@ == Json::Num(
                        self.0@[k].1,
                    ),
            decreases self.0.len() - i,
        {
            out.push((self.0[i].0.clone(), JsonValue::Number(self.0[i].1)));
            i = i + 1;
        }
        proof {
            lemma_members_of(out@);
            assert(members_of(out@) =~= self@.map_values(
                |p: (Seq<char>, Number)| (p.0, Json::Num(p.1)),
            ));
        }
        JsonValue::Object(out)
    }
}

fn table_of(v: &JsonValue) -> (r: Result<Vec<(String, SpecsMap)>, DecodeError>)
    ensures
        match r {
            Ok(t) => table_from_json(v@) == Ok::<
                Seq<(Seq<char>, Seq<(Seq<char>, Number)>)>,
                DecodeError,
            >(table_model(t@)),
            Err(e) => table_from_json(v@) == Err::<
                Seq<(Seq<char>, Seq<(Seq<char>, Number)>)>,
                DecodeError,
            >(e),
        },
{
    let fields = match v {
        JsonValue::Object(fields) => fields,
        _ => return Err(DecodeError::TypeMismatch(JsonKind::Object)),
    };
    if !has_distinct_keys(fields) {
        return Err(DecodeError::DuplicateKey);
    }
    let ghost s = members_of(fields@);
    proof {
        lemma_members_of(fields@);
    }
    let mut out: Vec<(String, SpecsMap)> = Vec::new();
    proof {
        assert(table_model(out@) =~= Seq::<(Seq<char>, Seq<(Seq<char>, Number)>)>::empty());
    }
    let mut i: usize = 0;
    while i < fields.len()
        invariant
            i <= fields.len(),
            s == members_of(fields@),
            v@ == Json::Obj(s),
            keys_distinct(s),
            s.len() == fields@.len(),
            forall|k: int| 0 <= k < fields@.len() ==> #[trigger] s[k] == (fields@[k].0@, fields@[k].1@),
            decode_members(s.subrange(0, i as int), specs_map_decoder()) == Ok::<
                Seq<(Seq<char>, Seq<(Seq<char>, Number)>)>,
                DecodeError,
            >(table_model(out@)),
        decreases fields.len() - i,
    {
        proof {
            lemma_decode_members_step(s, specs_map_decoder(), i as int);
        }
        match SpecsMap::from_json(&fields[i].1) {
            Ok(m) => {
                let ghost before = out@;
                out.push((fields[i].0.clone(), m));
                proof {
                    assert(table_model(out@) =~= table_model(before).push(
                        (fields@[i as int].0@, m@),
                    ));
                }
            },
            Err(e) => {
                proof {
                    lemma_decode_members_error(s, specs_map_decoder(), i + 1, s.len() as int);
                    assert(s.subrange(0, s.len() as int) =~= s);
                }
                return Err(e);
            },
        }
        i = i + 1;
    }
    proof {
        assert(s.subrange(0, s.len() as int) =~= s);
    }
    Ok(out)
}

fn optional_table_field(fields: &Vec<(String, JsonValue)>, f: Field) -> (r: Result<
    Option<Vec<(String, SpecsMap)>>,
    DecodeError,
>)
    ensures
        match r {
            Ok(t) => optional_table_in(members_of(fields@), f) == Ok::<
                Option<Seq<(Seq<char>, Seq<(Seq<char>, Number)>)>>,
                DecodeError,
            >(optional_table_model(t)),
            Err(e) => optional_table_in(members_of(fields@), f) == Err::<
                Option<Seq<(Seq<char>, Seq<(Seq<char>, Number)>)>>,
                DecodeError,
            >(e),
        },
{
    match optional_field(fields, f) {
        None => Ok(None),
        Some(v) => match table_of(v) {
            Ok(t) => Ok(Some(t)),
            Err(e) => Err(e),
        },
    }
}

fn table_to_value(t: &Vec<(String, SpecsMap)>) -> (r: JsonValue)
    ensures
        r@ == table_to_json(table_model(t@)),
{
    let mut out: Vec<(String, JsonValue)> = Vec::new();
    let mut i: usize = 0;
    while i < t.len()
        invariant
            i <= t.len(),
            out@.len() == i,
            forall|k: int|
                0 <= k < i ==> (#[trigger] out@[k]).0@ == t@[k].0@ && out@[k].1@ == specs_map_to_json(
                    t@[k].1@,
                ),
        decreases t.len() - i,
    {
        out.push((t[i].0.clone(), t[i].1.to_json()));
        i = i + 1;
    }
    proof {
        lemma_members_of(out@);
        assert(members_of(out@) =~= table_model(t@).map_values(
            |p: (Seq<char>, Seq<(Seq<char>, Number)>)| (p.0, specs_map_to_json(p.1)),
        ));
    }
    JsonValue::Object(out)
}

impl Specs {
    pub fn from_json(v: &JsonValue) -> (r: Result<Specs, DecodeError>)
        ensures
            match r {
                Ok(s) => specs_from_json(v@) == Ok::<SpecsModel, DecodeError>(s@),
                Err(e) => specs_from_json(v@) == Err::<SpecsModel, DecodeError>(e),
            },
    {
        match v {
            JsonValue::Object(fields) => {
                let one_q = match optional_table_field(fields, Field::OneQ) {
                    Ok(t) => t,
                    Err(e) => return Err(e),
                };
                let two_q = match optional_table_field(fields, Field::TwoQ) {
                    Ok(t) => t,
                    Err(e) => return Err(e),
                };
                Ok(Specs { one_q, two_q })
            },
            _ => Err(DecodeError::TypeMismatch(JsonKind::Object)),
        }
    }

    pub fn to_json(&self) -> (r: JsonValue)
        ensures
            r@ == specs_to_json(self@),
    {
        let mut out: Vec<(String, JsonValue)> = Vec::new();
        match &self.one_q {
            Some(t) => out.push((Field::OneQ.key(), table_to_value(t))),
            None => {},
        }
        match &self.two_q {
            Some(t) => out.push((Field::TwoQ.key(), table_to_value(t))),
            None => {},
        }
        proof {
            lemma_members_of(out@);
            assert(members_of(out@) =~= specs_members(self@));
        }
        JsonValue::Object(out)
    }
}

/// Decoding the encoding of a map of characteristics gives the map back.
pub proof fn lemma_specs_map_round_trip(m: Seq<(Seq<char>, Number)>)
    requires
        keys_distinct(m),
    ensures
        specs_map_from_json(specs_map_to_json(m)) == Ok::<Seq<(Seq<char>, Number)>, DecodeError>(m),
{
    let ys = m.map_values(|p: (Seq<char>, Number)| (p.0, Json::Num(p.1)));
    assert(keys_distinct(ys)) by {
        assert forall|i: int, j: int| 0 <= i < j < ys.len() implies ys[i].0 != ys[j].0 by {
            assert(ys[i].0 == m[i].0 && ys[j].0 == m[j].0);
        }
    }
    assert forall|i: int| 0 <= i < ys.len() implies (#[trigger] ys[i]).0 == m[i].0 && (
    number_decoder())(ys[i].1) == Ok::<Number, DecodeError>(m[i].1) by {}
    lemma_decode_members_each(ys, m, number_decoder());
}

/// Decoding the encoding of a table of characteristics gives it back.
pub proof fn lemma_table_round_trip(t: Seq<(Seq<char>, Seq<(Seq<char>, Number)>)>)
    requires
        table_wf(t),
    ensures
        table_from_json(table_to_json(t)) == Ok::<
            Seq<(Seq<char>, Seq<(Seq<char>, Number)>)>,
            DecodeError,
        >(t),
{
    let ys = t.map_values(
        |p: (Seq<char>, Seq<(Seq<char>, Number)>)| (p.0, specs_map_to_json(p.1)),
    );
    assert(keys_distinct(ys)) by {
        assert forall|i: int, j: int| 0 <= i < j < ys.len() implies ys[i].0 != ys[j].0 by {
            assert(ys[i].0 == t[i].0 && ys[j].0 == t[j].0);
        }
    }
    assert forall|i: int| 0 <= i < ys.len() implies (#[trigger] ys[i]).0 == t[i].0 && (
    specs_map_decoder())(ys[i].1) == Ok::<Seq<(Seq<char>, Number)>, DecodeError>(t[i].1) by {
        assert(keys_distinct(t[i].1));
        lemma_specs_map_round_trip(t[i].1);
    }
    lemma_decode_members_each(ys, t, specs_map_decoder());
}

/// Decoding the encoding of the characteristics of a chip gives them back.
pub proof fn lemma_specs_round_trip(s: SpecsModel)
    requires
        specs_wf(s),
    ensures
        specs_from_json(specs_to_json(s)) == Ok::<SpecsModel, DecodeError>(s),
{
    lemma_keys_differ();
    let m = specs_members(s);
    assert(keys_distinct(m));
    match s.one_q {
        Some(t) => {
            lemma_lookup_found(m, 0);
            lemma_table_round_trip(t);
        },
        None => {
            lemma_lookup_absent(m, Field::OneQ.spec_key());
        },
    }
    match s.two_q {
        Some(t) => {
            lemma_lookup_found(m, m.len() - 1);
            lemma_table_round_trip(t);
        },
        None => {
            lemma_lookup_absent(m, Field::TwoQ.spec_key());
        },
    }
}

/// A decoded map of characteristics has distinct names.
pub proof fn lemma_decoded_specs_map_distinct(j: Json)
    requires
        specs_map_from_json(j) is Ok,
    ensures
        keys_distinct(specs_map_from_json(j)->Ok_0),
{
    if let Json::Obj(fields) = j {
        lemma_decode_members_keys(fields, number_decoder());
        let m = specs_map_from_json(j)->Ok_0;
        assert forall|a: int, b: int| 0 <= a < b < m.len() implies m[a].0 != m[b].0 by {
            assert(m[a].0 == fields[a].0 && m[b].0 == fields[b].0);
        }
    }
}

proof fn lemma_decoded_table_wf(j: Json)
    requires
        table_from_json(j) is Ok,
    ensures
        table_wf(table_from_json(j)->Ok_0),
{
    if let Json::Obj(fields) = j {
        lemma_decode_members_keys(fields, specs_map_decoder());
        let t = table_from_json(j)->Ok_0;
        assert forall|a: int, b: int| 0 <= a < b < t.len() implies t[a].0 != t[b].0 by {
            assert(t[a].0 == fields[a].0 && t[b].0 == fields[b].0);
        }
        assert forall|k: int| 0 <= k < t.len() implies keys_distinct(#[trigger] t[k].1) by {
            assert((specs_map_decoder())(fields[k].1) == Ok::<Seq<(Seq<char>, Number)>, DecodeError>(
                t[k].1,
            ));
            lemma_decoded_specs_map_distinct(fields[k].1);
        }
    }
}

/// Decoded characteristics are well formed.
pub proof fn lemma_decoded_specs_wf(j: Json)
    requires
        specs_from_json(j) is Ok,
    ensures
        specs_wf(specs_from_json(j)->Ok_0),
{
    if let Json::Obj(fields) = j {
        if let Some(tj) = optional(fields, Field::OneQ) {
            lemma_decoded_table_wf(tj);
        }
        if let Some(tj) = optional(fields, Field::TwoQ) {
            lemma_decoded_table_wf(tj);
        }
    }
}

} // verus!
