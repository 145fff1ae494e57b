//! The instruction set architecture of a chip: the entry of each hardware
//! object, keyed by the object's identifier.

use vstd::prelude::*;
use crate::entry::{
    lemma_decoded_one_q_wf, lemma_decoded_two_q_wf, lemma_one_q_round_trip,
    lemma_two_q_round_trip, one_q_from_json, one_q_to_json, one_q_wf, two_q_from_json,
    two_q_to_json, two_q_wf, OneQ, OneQModel, TwoQ, TwoQModel,
};
use crate::error::{lemma_keys_differ, DecodeError, Field, JsonKind};
use crate::fields::{optional, optional_field, required, required_field};
use crate::json::{
    decode_members, has_distinct_keys, keys_distinct, lemma_decode_members_each,
    lemma_decode_members_error, lemma_decode_members_keys, lemma_decode_members_step,
    lemma_lookup_absent, lemma_lookup_found, lemma_members_of, members_of, Json, JsonValue,
};

verus! {

/// Metadata of an instruction set architecture; it carries no fields.
#[derive(Clone, Copy, Debug, PartialEq, Eq, Structural)]
pub struct Metadata {}

/// The instruction set architecture of a chip: the entry of each
/// single-qubit and each two-qubit hardware object, keyed by the object's
/// identifier. Identifiers are distinct within each section.
#[derive(Debug, PartialEq)]
pub struct Isa {
    pub one_q: Vec<(String, Option<OneQ>)>,
    pub two_q: Vec<(String, Option<TwoQ>)>,
    pub metadata: Option<Metadata>,
}

/// The mathematical value of an [`Isa`].
pub struct IsaModel {
    pub one_q: Seq<(Seq<char>, Option<OneQModel>)>,
    pub two_q: Seq<(Seq<char>, Option<TwoQModel>)>,
    pub metadata: Option<Metadata>,
}

pub open spec fn opt_one_q_model(e: Option<OneQ>) -> Option<OneQModel> {
    match e {
        Some(e) => Some(e@),
        None => None,
    }
}

pub open spec fn opt_two_q_model(e: Option<TwoQ>) -> Option<TwoQModel> {
    match e {
        Some(e) => Some(e@),
        None => None,
    }
}

pub open spec fn one_q_section_model(v: Seq<(String, Option<OneQ>)>) -> Seq<
    (Seq<char>, Option<OneQModel>),
> {
    v.map_values(|p: (String, Option<OneQ>)| (p.0@, opt_one_q_model(p.1)))
}

pub open spec fn two_q_section_model(v: Seq<(String, Option<TwoQ>)>) -> Seq<
    (Seq<char>, Option<TwoQModel>),
> {
    v.map_values(|p: (String, Option<TwoQ>)| (p.0@, opt_two_q_model(p.1)))
}

impl View for Isa {
    type V = IsaModel;

    open spec fn view(&self) -> IsaModel {
        IsaModel {
            one_q: one_q_section_model(self.one_q@),
            two_q: two_q_section_model(self.two_q@),
            metadata: self.metadata,
        }
    }
}

/// An entry that may be `null`.
pub open spec fn opt_one_q_from_json(j: Json) -> Result<Option<OneQModel>, DecodeError> {
    match j {
        Json::Null => Ok(None),
        _ => match one_q_from_json(j) {
            Ok(e) => Ok(Some(e)),
            Err(e) => Err(e),
        },
    }
}

pub open spec fn opt_two_q_from_json(j: Json) -> Result<Option<TwoQModel>, DecodeError> {
    match j {
        Json::Null => Ok(None),
        _ => match two_q_from_json(j) {
            Ok(e) => Ok(Some(e)),
            Err(e) => Err(e),
        },
    }
}

pub open spec fn opt_one_q_decoder() -> spec_fn(Json) -> Result<Option<OneQModel>, DecodeError> {
    |j: Json| opt_one_q_from_json(j)
}

pub open spec fn opt_two_q_decoder() -> spec_fn(Json) -> Result<Option<TwoQModel>, DecodeError> {
    |j: Json| opt_two_q_from_json(j)
}

/// A section of hardware objects: an object with distinct identifiers.
pub open spec fn section_from_json<T>(
    j: Json,
    dec: spec_fn(Json) -> Result<T, DecodeError>,
) -> Result<Seq<(Seq<char>, T)>, DecodeError> {
    match j {
        Json::Obj(es) => if keys_distinct(es) {
            decode_members(es, dec)
        } else {
            Err(DecodeError::DuplicateKey)
        },
        _ => Err(DecodeError::TypeMismatch(JsonKind::Object)),
    }
}

pub open spec fn isa_metadata_in(fields: Seq<(Seq<char>, Json)>) -> Result<
    Option<Metadata>,
    DecodeError,
> {
    match optional(fields, Field::Metadata) {
        None => Ok(None),
        Some(Json::Obj(_)) => Ok(Some(Metadata {  })),
        Some(_) => Err(DecodeError::TypeMismatch(JsonKind::Object)),
    }
}

/// What a JSON value decodes to as an instruction set architecture.
pub open spec fn isa_from_json(j: Json) -> Result<IsaModel, DecodeError> {
    match j {
        Json::Obj(fields) => match required(fields, Field::OneQ) {
            Err(e) => Err(e),
            Ok(oj) => match section_from_json(oj, opt_one_q_decoder()) {
                Err(e) => Err(e),
                Ok(one_q) => match required(fields, Field::TwoQ) {
                    Err(e) => Err(e),
                    Ok(tj) => match section_from_json(tj, opt_two_q_decoder()) {
                        Err(e) => Err(e),
                        Ok(two_q) => match isa_metadata_in(fields) {
                            Err(e) => Err(e),
                            Ok(metadata) => Ok(IsaModel { one_q, two_q, metadata }),
                        },
                    },
                },
            },
        },
        _ => Err(DecodeError::TypeMismatch(JsonKind::Object)),
    }
}

pub open spec fn opt_one_q_to_json(e: Option<OneQModel>) -> Json {
    match e {
        Some(e) => one_q_to_json(e),
        None => Json::Null,
    }
}

pub open spec fn opt_two_q_to_json(e: Option<TwoQModel>) -> Json {
    match e {
        Some(e) => two_q_to_json(e),
        None => Json::Null,
    }
}

pub open spec fn one_q_section_to_json(s: Seq<(Seq<char>, Option<OneQModel>)>) -> Json {
    Json::Obj(s.map_values(|p: (Seq<char>, Option<OneQModel>)| (p.0, opt_one_q_to_json(p.1))))
}

pub open spec fn two_q_section_to_json(s: Seq<(Seq<char>, Option<TwoQModel>)>) -> Json {
    Json::Obj(s.map_values(|p: (Seq<char>, Option<TwoQModel>)| (p.0, opt_two_q_to_json(p.1))))
}

/// The members of an architecture's encoding; absent metadata is left out.
pub open spec fn isa_members(i: IsaModel) -> Seq<(Seq<char>, Json)> {
    let sections = seq![
        (Field::OneQ.spec_key(), one_q_section_to_json(i.one_q)),
        (Field::TwoQ.spec_key(), two_q_section_to_json(i.two_q)),
    ];
    match i.metadata {
        Some(_) => sections.push((Field::Metadata.spec_key(), Json::Obj(Seq::empty()))),
        None => sections,
    }
}

pub open spec fn isa_to_json(i: IsaModel) -> Json {
    Json::Obj(isa_members(i))
}

/// Identifiers are distinct in each section, and each entry is well formed.
pub open spec fn isa_wf(i: IsaModel) -> bool {
    &&& keys_distinct(i.one_q)
    &&& keys_distinct(i.two_q)
    &&& forall|k: int|
        0 <= k < i.one_q.len() ==> ((#[trigger] i.one_q[k]).1 matches Some(e) ==> one_q_wf(e))
    &&& forall|k: int|
        0 <= k < i.two_q.len() ==> ((#[trigger] i.two_q[k]).1 matches Some(e) ==> two_q_wf(e))
}

fn one_q_section_of(v: &JsonValue) -> (r: Result<Vec<(String, Option<OneQ>)>, DecodeError>)
    ensures
        match r {
            Ok(s) => section_from_json(v@, opt_one_q_decoder()) == Ok::<
                Seq<(Seq<char>, Option<OneQModel>)>,
                DecodeError,
            >(one_q_section_model(s@)),
            Err(e) => section_from_json(v@, opt_one_q_decoder()) == Err::<
                Seq<(Seq<char>, Option<OneQModel>)>,
                DecodeError,
            >(e),
        },
{
    let fields = match v {
        JsonValue::Object(fields) => fields,
        _ => return Err(DecodeError::TypeMismatch(JsonKind::Object)),
    };
    if !has_distinct_keys(fields) {
        return Err(DecodeError::DuplicateKey);
    }
    let ghost s = members_of(fields@);
    proof {
        lemma_members_of(fields@);
    }
    let mut out: Vec<(String, Option<OneQ>)> = Vec::new();
    proof {
        assert(one_q_section_model(out@) =~= Seq::<(Seq<char>, Option<OneQModel>)>::empty());
    }
    let mut i: usize = 0;
    while i < fields.len()
        invariant
            i <= fields.len(),
            s == members_of(fields@),
            v@ == Json::Obj(s),
            keys_distinct(s),
            s.len() == fields@.len(),
            forall|k: int| 0 <= k < fields@.len() ==> #[trigger] s[k] == (fields@[k].0@, fields@[k].1@),
            decode_members(s.subrange(0, i as int), opt_one_q_decoder()) == Ok::<
                Seq<(Seq<char>, Option<OneQModel>)>,
                DecodeError,
            >(one_q_section_model(out@)),
        decreases fields.len() - i,
    {
        proof {
            lemma_decode_members_step(s, opt_one_q_decoder(), i as int);
        }
        let entry = match &fields[i].1 {
            JsonValue::Null => None,
            other => match OneQ::from_json(other) {
                Ok(e) => Some(e),
                Err(e) => {
                    proof {
                        lemma_decode_members_error(s, opt_one_q_decoder(), i + 1, s.len() as int);
                        assert(s.subrange(0, s.len() as int) =~= s);
                    }
                    return Err(e);
                },
            },
        };
        let ghost before = out@;
        out.push((fields[i].0.clone(), entry));
        proof {
            assert(one_q_section_model(out@) =~= one_q_section_model(before).push(
                (fields@[i as int].0@, opt_one_q_model(entry)),
            ));
        }
        i = i + 1;
    }
    proof {
        assert(s.subrange(0, s.len() as int) =~= s);
    }
    Ok(out)
}

fn two_q_section_of(v: &JsonValue) -> (r: Result<Vec<(String, Option<TwoQ>)>, DecodeError>)
    ensures
        match r {
            Ok(s) => section_from_json(v@, opt_two_q_decoder()) == Ok::<
                Seq<(Seq<char>, Option<TwoQModel>)>,
                DecodeError,
            >(two_q_section_model(s@)),
            Err(e) => section_from_json(v@, opt_two_q_decoder()) == Err::<
                Seq<(Seq<char>, Option<TwoQModel>)>,
                DecodeError,
            >(e),
        },
{
    let fields = match v {
        JsonValue::Object(fields) => fields,
        _ => return Err(DecodeError::TypeMismatch(JsonKind::Object)),
    };
    if !has_distinct_keys(fields) {
        return Err(DecodeError::DuplicateKey);
    }
    let ghost s = members_of(fields@);
    proof {
        lemma_members_of(fields@);
    }
    let mut out: Vec<(String, Option<TwoQ>)> = Vec::new();
    proof {
        assert(two_q_section_model(out@) =~= Seq::<(Seq<char>, Option<TwoQModel>)>::empty());
    }
    let mut i: usize = 0;
    while i < fields.len()
        invariant
            i <= fields.len(),
            s == members_of(fields@),
            v@ == Json::Obj(s),
            keys_distinct(s),
            s.len() == fields@.len(),
            forall|k: int| 0 <= k < fields@.len() ==> #[trigger] s[k] == (fields@[k].0@, fields@[k].1@),
            decode_members(s.subrange(0, i as int), opt_two_q_decoder()) == Ok::<
                Seq<(Seq<char>, Option<TwoQModel>)>,
                DecodeError,
            >(two_q_section_model(out@)),
        decreases fields.len() - i,
    {
        proof {
            lemma_decode_members_step(s, opt_two_q_decoder(), i as int);
        }
        let entry = match &fields[i].1 {
            JsonValue::Null => None,
            other => match TwoQ::from_json(other) {
                Ok(e) => Some(e),
                Err(e) => {
                    proof {
                        lemma_decode_members_error(s, opt_two_q_decoder(), i + 1, s.len() as int);
                        assert(s.subrange(0, s.len() as int) =~= s);
                    }
                    return Err(e);
                },
            },
        };
        let ghost before = out@;
        out.push((fields[i].0.clone(), entry));
        proof {
            assert(two_q_section_model(out@) =~= two_q_section_model(before).push(
                (fields@[i as int].0@, opt_two_q_model(entry)),
            ));
        }
        i = i + 1;
    }
    proof {
        assert(s.subrange(0, s.len() as int) =~= s);
    }
    Ok(out)
}

fn one_q_section_to_value(s: &Vec<(String, Option<OneQ>)>) -> (r: JsonValue)
    ensures
        r@ == one_q_section_to_json(one_q_section_model(s@)),
{
    let mut out: Vec<(String, JsonValue)> = Vec::new();
    let mut i: usize = 0;
    while i < s.len()
        invariant
            i <= s.len(),
            out@.len() == i,
            forall|k: int|
                0 <= k < i ==> (#[trigger] out@[k]).0@ == s@[k].0@ && out@[k].1@
                    == opt_one_q_to_json(opt_one_q_model(s@[k].1)),
        decreases s.len() - i,
    {
        let value = match &s[i].1 {
            Some(e) => e.to_json(),
            None => JsonValue::Null,
        };
        out.push((s[i].0.clone(), value));
        i = i + 1;
    }
    proof {
        lemma_members_of(out@);
        assert(members_of(out@) =~= one_q_section_model(s@).map_values(
            |p: (Seq<char>, Option<OneQModel>)| (p.0, opt_one_q_to_json(p.1)),
        ));
    }
    JsonValue::Object(out)
}

fn two_q_section_to_value(s: &Vec<(String, Option<TwoQ>)>) -> (r: JsonValue)
    ensures
        r@ == two_q_section_to_json(two_q_section_model(s@)),
{
    let mut out: Vec<(String, JsonValue)> = Vec::new();
    let mut i: usize = 0;
    while i < s.len()
        invariant
            i <= s.len(),
            out@.len() == i,
            forall|k: int|
                0 <= k < i ==> (#[trigger] out@[k]).0@ == s@[k].0@ && out@[k].1@
                    == opt_two_q_to_json(opt_two_q_model(s@[k].1)),
        decreases s.len() - i,
    {
        let value = match &s[i].1 {
            Some(e) => e.to_json(),
            None => JsonValue::Null,
        };
        out.push((s[i].0.clone(), value));
        i = i + 1;
    }
    proof {
        lemma_members_of(out@);
        assert(members_of(out@) =~= two_q_section_model(s@).map_values(
            |p: (Seq<char>, Option<TwoQModel>)| (p.0, opt_two_q_to_json(p.1)),
        ));
    }
    JsonValue::Object(out)
}

impl Isa {
    /// Decodes an architecture; a single malformed entry fails the whole.
    pub fn from_json(v: &JsonValue) -> (r: Result<Isa, DecodeError>)
        ensures
            match r {
                Ok(i) => isa_from_json(v@) == Ok::<IsaModel, DecodeError>(i@),
                Err(e) => isa_from_json(v@) == Err::<IsaModel, DecodeError>(e),
            },
    {
        let fields = match v {
            JsonValue::Object(fields) => fields,
            _ => return Err(DecodeError::TypeMismatch(JsonKind::Object)),
        };
        let oj = match required_field(fields, Field::OneQ) {
            Ok(j) => j,
            Err(e) => return Err(e),
        };
        let one_q = match one_q_section_of(oj) {
            Ok(s) => s,
            Err(e) => return Err(e),
        };
        let tj = match required_field(fields, Field::TwoQ) {
            Ok(j) => j,
            Err(e) => return Err(e),
        };
        let two_q = match two_q_section_of(tj) {
            Ok(s) => s,
            Err(e) => return Err(e),
        };
        let metadata = match optional_field(fields, Field::Metadata) {
            None => None,
            Some(JsonValue::Object(_)) => Some(Metadata {  }),
            Some(_) => return Err(DecodeError::TypeMismatch(JsonKind::Object)),
        };
        Ok(Isa { one_q, two_q, metadata })
    }

    /// Encodes an architecture: both sections, then the metadata if any.
    pub fn to_json(&self) -> (r: JsonValue)
        ensures
            r@ == isa_to_json(self@),
    {
        let mut fields = vec![
            (Field::OneQ.key(), one_q_section_to_value(&self.one_q)),
            (Field::TwoQ.key(), two_q_section_to_value(&self.two_q)),
        ];
        match self.metadata {
            Some(_) => fields.push((Field::Metadata.key(), JsonValue::Object(Vec::new()))),
            None => {},
        }
        proof {
            lemma_members_of(fields@);
            assert(members_of(fields@) =~= isa_members(self@));
        }
        JsonValue::Object(fields)
    }
}

/// Decoding the encoding of an architecture gives it back, for every
/// well-formed architecture.
pub proof fn lemma_isa_round_trip(i: IsaModel)
    requires
        isa_wf(i),
    ensures
        isa_from_json(isa_to_json(i)) == Ok::<IsaModel, DecodeError>(i),
{
    lemma_keys_differ();
    let m = isa_members(i);
    assert(keys_distinct(m));
    lemma_lookup_found(m, 0);
    lemma_lookup_found(m, 1);
    match i.metadata {
        Some(x) => {
            lemma_lookup_found(m, 2);
            assert(x == Metadata {  });
        },
        None => lemma_lookup_absent(m, Field::Metadata.spec_key()),
    }
    let ys = i.one_q.map_values(
        |p: (Seq<char>, Option<OneQModel>)| (p.0, opt_one_q_to_json(p.1)),
    );
    assert(keys_distinct(ys)) by {
        assert forall|a: int, b: int| 0 <= a < b < ys.len() implies ys[a].0 != ys[b].0 by {
            assert(ys[a].0 == i.one_q[a].0 && ys[b].0 == i.one_q[b].0);
        }
    }
    assert forall|k: int| 0 <= k < ys.len() implies (#[trigger] ys[k]).0 == i.one_q[k].0 && (
    opt_one_q_decoder())(ys[k].1) == Ok::<Option<OneQModel>, DecodeError>(i.one_q[k].1) by {
        match i.one_q[k].1 {
            Some(e) => {
                lemma_one_q_round_trip(e);
            },
            None => {},
        }
    }
    lemma_decode_members_each(ys, i.one_q, opt_one_q_decoder());
    let zs = i.two_q.map_values(
        |p: (Seq<char>, Option<TwoQModel>)| (p.0, opt_two_q_to_json(p.1)),
    );
    assert(keys_distinct(zs)) by {
        assert forall|a: int, b: int| 0 <= a < b < zs.len() implies zs[a].0 != zs[b].0 by {
            assert(zs[a].0 == i.two_q[a].0 && zs[b].0 == i.two_q[b].0);
        }
    }
    assert forall|k: int| 0 <= k < zs.len() implies (#[trigger] zs[k]).0 == i.two_q[k].0 && (
    opt_two_q_decoder())(zs[k].1) == Ok::<Option<TwoQModel>, DecodeError>(i.two_q[k].1) by {
        match i.two_q[k].1 {
            Some(e) => {
                lemma_two_q_round_trip(e);
            },
            None => {},
        }
    }
    lemma_decode_members_each(zs, i.two_q, opt_two_q_decoder());
}

/// A decoded architecture is well formed.
pub proof fn lemma_decoded_isa_wf(j: Json)
    requires
        isa_from_json(j) is Ok,
    ensures
        isa_wf(isa_from_json(j)->Ok_0),
{
    let i = isa_from_json(j)->Ok_0;
    if let Json::Obj(fields) = j {
        let oj = required(fields, Field::OneQ)->Ok_0;
        let tj = required(fields, Field::TwoQ)->Ok_0;
        if let Json::Obj(es) = oj {
            lemma_decode_members_keys(es, opt_one_q_decoder());
            assert(i.one_q == decode_members(es, opt_one_q_decoder())->Ok_0);
            assert(keys_distinct(i.one_q)) by {
                assert forall|a: int, b: int| 0 <= a < b < i.one_q.len() implies i.one_q[a].0
                    != i.one_q[b].0 by {
                    assert(i.one_q[a].0 == es[a].0 && i.one_q[b].0 == es[b].0);
                }
            }
            assert forall|k: int| 0 <= k < i.one_q.len() implies ((#[trigger] i.one_q[k]).1 matches Some(
                e,
            ) ==> one_q_wf(e)) by {
                assert((opt_one_q_decoder())(es[k].1) == Ok::<Option<OneQModel>, DecodeError>(
                    i.one_q[k].1,
                ));
                if es[k].1 != Json::Null {
                    lemma_decoded_one_q_wf(es[k].1);
                }
            }
        }
        if let Json::Obj(es) = tj {
            lemma_decode_members_keys(es, opt_two_q_decoder());
            assert(i.two_q == decode_members(es, opt_two_q_decoder())->Ok_0);
            assert(keys_distinct(i.two_q)) by {
                assert forall|a: int, b: int| 0 <= a < b < i.two_q.len() implies i.two_q[a].0
                    != i.two_q[b].0 by {
                    assert(i.two_q[a].0 == es[a].0 && i.two_q[b].0 == es[b].0);
                }
            }
            assert forall|k: int| 0 <= k < i.two_q.len() implies ((#[trigger] i.two_q[k]).1 matches Some(
                e,
            ) ==> two_q_wf(e)) by {
                assert((opt_two_q_decoder())(es[k].1) == Ok::<Option<TwoQModel>, DecodeError>(
                    i.two_q[k].1,
                ));
                if es[k].1 != Json::Null {
                    lemma_decoded_two_q_wf(es[k].1);
                }
            }
        }
    }
}

} // verus!
