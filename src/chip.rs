//! The chip specification handed to the compiler: its architecture, its
//! characteristics and its metadata.

use vstd::prelude::*;
use crate::decimal::{decimal, decimal_string, decimal_u64, lemma_parse_decimal, parse_i32, parse_i32_text};
use crate::error::{lemma_keys_differ, DecodeError, Field, JsonKind};
use crate::fields::{optional, optional_field, required, required_field, string_field, string_in};
use crate::isa::{
    isa_from_json, isa_to_json, isa_wf, lemma_decoded_isa_wf, lemma_isa_round_trip, Isa, IsaModel,
};
use crate::json::{
    keys_distinct, lemma_lookup_absent, lemma_lookup_found, lemma_members_of, members_of,
    Json, JsonValue, Number,
};
use crate::specs::{
    lemma_decoded_specs_wf, lemma_specs_round_trip, specs_from_json, specs_to_json, specs_wf, Specs, SpecsModel,
};

verus! {

/// Who made a chip specification, when, and the version of its format.
#[derive(Debug, PartialEq)]
pub struct Metadata {
    pub name: String,
    pub timestamp: Option<String>,
    /// Held as text whether the document wrote it as a string or an integer.
    pub version: String,
}

/// The mathematical value of [`Metadata`].
pub struct MetadataModel {
    pub name: Seq<char>,
    pub timestamp: Option<Seq<char>>,
    pub version: Seq<char>,
}

pub open spec fn opt_string_model(s: Option<String>) -> Option<Seq<char>> {
    match s {
        Some(s) => Some(s@),
        None => None,
    }
}

impl View for Metadata {
    type V = MetadataModel;

    open spec fn view(&self) -> MetadataModel {
        MetadataModel {
            name: self.name@,
            timestamp: opt_string_model(self.timestamp),
            version: self.version@,
        }
    }
}

/// A chip specification: what the compiler needs to know of a chip.
#[derive(Debug, PartialEq)]
pub struct ChipSpec {
    pub isa: Isa,
    pub specs: Option<Specs>,
    pub metadata: Option<Metadata>,
}

/// The mathematical value of a [`ChipSpec`].
pub struct ChipSpecModel {
    pub isa: IsaModel,
    pub specs: Option<SpecsModel>,
    pub metadata: Option<MetadataModel>,
}

pub open spec fn opt_specs_model(s: Option<Specs>) -> Option<SpecsModel> {
    match s {
        Some(s) => Some(s@),
        None => None,
    }
}

pub open spec fn opt_metadata_model(m: Option<Metadata>) -> Option<MetadataModel> {
    match m {
        Some(m) => Some(m@),
        None => None,
    }
}

impl View for ChipSpec {
    type V = ChipSpecModel;

    open spec fn view(&self) -> ChipSpecModel {
        ChipSpecModel {
            isa: self.isa@,
            specs: opt_specs_model(self.specs),
            metadata: opt_metadata_model(self.metadata),
        }
    }
}

/// The version as text: a string is kept, an integer is written in decimal.
pub open spec fn version_from_json(j: Json) -> Result<Seq<char>, DecodeError> {
    match j {
        Json::Str(s) => Ok(s),
        Json::Num(Number::PosInt(n)) => Ok(decimal(n as int)),
        Json::Num(Number::NegInt(n)) => Ok(decimal(n as int)),
        _ => Err(DecodeError::TypeMismatch(JsonKind::StringOrInteger)),
    }
}

/// The version as a document writes it: a bare integer when the text reads
/// as an `i32`, the text otherwise.
pub open spec fn version_to_json(v: Seq<char>) -> Json {
    match parse_i32(v) {
        Some(n) => if n < 0 {
            Json::Num(Number::NegInt(n as i64))
        } else {
            Json::Num(Number::PosInt(n as u64))
        },
        None => Json::Str(v),
    }
}

/// A version that reads as an `i32` is written as that integer's decimal
/// text, so that writing it as a bare integer loses nothing.
pub open spec fn version_canonical(v: Seq<char>) -> bool {
    match parse_i32(v) {
        Some(n) => decimal(n as int) == v,
        None => true,
    }
}

pub open spec fn timestamp_in(fields: Seq<(Seq<char>, Json)>) -> Result<
    Option<Seq<char>>,
    DecodeError,
> {
    match optional(fields, Field::Timestamp) {
        None => Ok(None),
        Some(Json::Str(t)) => Ok(Some(t)),
        Some(_) => Err(DecodeError::TypeMismatch(JsonKind::String)),
    }
}

/// What a JSON value decodes to as metadata.
pub open spec fn metadata_from_json(j: Json) -> Result<MetadataModel, DecodeError> {
    match j {
        Json::Obj(fields) => match string_in(fields, Field::Name) {
            Err(e) => Err(e),
            Ok(name) => match timestamp_in(fields) {
                Err(e) => Err(e),
                Ok(timestamp) => match required(fields, Field::Version) {
                    Err(e) => Err(e),
                    Ok(vj) => match version_from_json(vj) {
                        Err(e) => Err(e),
                        Ok(version) => Ok(MetadataModel { name, timestamp, version }),
                    },
                },
            },
        },
        _ => Err(DecodeError::TypeMismatch(JsonKind::Object)),
    }
}

/// The members of the encoding of metadata; an absent timestamp is left out.
pub open spec fn metadata_members(m: MetadataModel) -> Seq<(Seq<char>, Json)> {
    let stamp: Seq<(Seq<char>, Json)> = match m.timestamp {
        Some(t) => seq![(Field::Timestamp.spec_key(), Json::Str(t))],
        None => Seq::empty(),
    };
    seq![(Field::Name.spec_key(), Json::Str(m.name))] + stamp + seq![
        (Field::Version.spec_key(), version_to_json(m.version)),
    ]
}

pub open spec fn metadata_to_json(m: MetadataModel) -> Json {
    Json::Obj(metadata_members(m))
}

/// What a JSON value decodes to as a chip specification.
pub open spec fn chip_from_json(j: Json) -> Result<ChipSpecModel, DecodeError> {
    match j {
        Json::Obj(fields) => match required(fields, Field::Isa) {
            Err(e) => Err(e),
            Ok(ij) => match isa_from_json(ij) {
                Err(e) => Err(e),
                Ok(isa) => match chip_specs_in(fields) {
                    Err(e) => Err(e),
                    Ok(specs) => match chip_metadata_in(fields) {
                        Err(e) => Err(e),
                        Ok(metadata) => Ok(ChipSpecModel { isa, specs, metadata }),
                    },
                },
            },
        },
        _ => Err(DecodeError::TypeMismatch(JsonKind::Object)),
    }
}

pub open spec fn chip_specs_in(fields: Seq<(Seq<char>, Json)>) -> Result<
    Option<SpecsModel>,
    DecodeError,
> {
    match optional(fields, Field::Specs) {
        None => Ok(None),
        Some(j) => match specs_from_json(j) {
            Ok(s) => Ok(Some(s)),
            Err(e) => Err(e),
        },
    }
}

pub open spec fn chip_metadata_in(fields: Seq<(Seq<char>, Json)>) -> Result<
    Option<MetadataModel>,
    DecodeError,
> {
    match optional(fields, Field::Metadata) {
        None => Ok(None),
        Some(j) => match metadata_from_json(j) {
            Ok(m) => Ok(Some(m)),
            Err(e) => Err(e),
        },
    }
}

/// The members of a chip specification's encoding; absent parts are left out.
pub open spec fn chip_members(c: ChipSpecModel) -> Seq<(Seq<char>, Json)> {
    let specs: Seq<(Seq<char>, Json)> = match c.specs {
        Some(s) => seq![(Field::Specs.spec_key(), specs_to_json(s))],
        None => Seq::empty(),
    };
    let metadata: Seq<(Seq<char>, Json)> = match c.metadata {
        Some(m) => seq![(Field::Metadata.spec_key(), metadata_to_json(m))],
        None => Seq::empty(),
    };
    seq![(Field::Isa.spec_key(), isa_to_json(c.isa))] + specs + metadata
}

pub open spec fn chip_to_json(c: ChipSpecModel) -> Json {
    Json::Obj(chip_members(c))
}

/// A chip specification that its encoding describes without ambiguity.
pub open spec fn chip_wf(c: ChipSpecModel) -> bool {
    &&& isa_wf(c.isa)
    &&& (c.specs matches Some(s) ==> specs_wf(s))
    &&& (c.metadata matches Some(m) ==> version_canonical(m.version))
}

/// Reads the version, from a string or an integer.
pub fn version_of(v: &JsonValue) -> (r: Result<String, DecodeError>)
    ensures
        match r {
            Ok(s) => version_from_json(v@) == Ok::<Seq<char>, DecodeError>(s@),
            Err(e) => version_from_json(v@) == Err::<Seq<char>, DecodeError>(e),
        },
{
    match v {
        JsonValue::String(s) => Ok(s.clone()),
        JsonValue::Number(Number::PosInt(n)) => Ok(decimal_u64(*n)),
        JsonValue::Number(Number::NegInt(n)) => Ok(decimal_string(*n)),
        _ => Err(DecodeError::TypeMismatch(JsonKind::StringOrInteger)),
    }
}

/// Writes the version: a bare integer when the text reads as an `i32`.
pub fn version_to_value(v: &String) -> (r: JsonValue)
    ensures
        r@ == version_to_json(v@),
{
    match parse_i32_text(v.as_str()) {
        Some(n) => if n < 0 {
            JsonValue::Number(Number::NegInt(n as i64))
        } else {
            JsonValue::Number(Number::PosInt(n as u64))
        },
        None => JsonValue::String(v.clone()),
    }
}

impl Metadata {
    pub fn from_json(v: &JsonValue) -> (r: Result<Metadata, DecodeError>)
        ensures
            match r {
                Ok(m) => metadata_from_json(v@) == Ok::<MetadataModel, DecodeError>(m@),
                Err(e) => metadata_from_json(v@) == Err::<MetadataModel, DecodeError>(e),
            },
    {
        let fields = match v {
            JsonValue::Object(fields) => fields,
            _ => return Err(DecodeError::TypeMismatch(JsonKind::Object)),
        };
        let name = match string_field(fields, Field::Name) {
            Ok(s) => s,
            Err(e) => return Err(e),
        };
        let timestamp = match optional_field(fields, Field::Timestamp) {
            None => None,
            Some(JsonValue::String(t)) => Some(t.clone()),
            Some(_) => return Err(DecodeError::TypeMismatch(JsonKind::String)),
        };
        let vj = match required_field(fields, Field::Version) {
            Ok(j) => j,
            Err(e) => return Err(e),
        };
        let version = match version_of(vj) {
            Ok(s) => s,
            Err(e) => return Err(e),
        };
        Ok(Metadata { name, timestamp, version })
    }

    pub fn to_json(&self) -> (r: JsonValue)
        ensures
            r@ == metadata_to_json(self@),
    {
        let mut fields = vec![(Field::Name.key(), JsonValue::String(self.name.clone()))];
        match &self.timestamp {
            Some(t) => fields.push((Field::Timestamp.key(), JsonValue::String(t.clone()))),
            None => {},
        }
        fields.push((Field::Version.key(), version_to_value(&self.version)));
        proof {
            lemma_members_of(fields@);
            assert(members_of(fields@) =~= metadata_members(self@));
        }
        JsonValue::Object(fields)
    }
}

impl ChipSpec {
    /// Decodes a chip specification. Decoding is all or nothing: one
    /// malformed entry anywhere fails the whole document.
    pub fn from_json(v: &JsonValue) -> (r: Result<ChipSpec, DecodeError>)
        ensures
            match r {
                Ok(c) => chip_from_json(v@) == Ok::<ChipSpecModel, DecodeError>(c@),
                Err(e) => chip_from_json(v@) == Err::<ChipSpecModel, DecodeError>(e),
            },
    {
        let fields = match v {
            JsonValue::Object(fields) => fields,
            _ => return Err(DecodeError::TypeMismatch(JsonKind::Object)),
        };
        let ij = match required_field(fields, Field::Isa) {
            Ok(j) => j,
            Err(e) => return Err(e),
        };
        let isa = match Isa::from_json(ij) {
            Ok(i) => i,
            Err(e) => return Err(e),
        };
        let specs = match optional_field(fields, Field::Specs) {
            None => None,
            Some(sj) => match Specs::from_json(sj) {
                Ok(s) => Some(s),
                Err(e) => return Err(e),
            },
        };
        let metadata = match optional_field(fields, Field::Metadata) {
            None => None,
            Some(mj) => match Metadata::from_json(mj) {
                Ok(m) => Some(m),
                Err(e) => return Err(e),
            },
        };
        Ok(ChipSpec { isa, specs, metadata })
    }

    /// Encodes a chip specification; absent parts are left out.
    pub fn to_json(&self) -> (r: JsonValue)
        ensures
            r@ == chip_to_json(self@),
    {
        let mut fields = vec![(Field::Isa.key(), self.isa.to_json())];
        match &self.specs {
            Some(s) => fields.push((Field::Specs.key(), s.to_json())),
            None => {},
        }
        match &self.metadata {
            Some(m) => fields.push((Field::Metadata.key(), m.to_json())),
            None => {},
        }
        proof {
            lemma_members_of(fields@);
            assert(members_of(fields@) =~= chip_members(self@));
        }
        JsonValue::Object(fields)
    }
}

/// Decoding the encoding of metadata gives it back when its version is
/// written canonically.
pub proof fn lemma_metadata_round_trip(m: MetadataModel)
    requires
        version_canonical(m.version),
    ensures
        metadata_from_json(metadata_to_json(m)) == Ok::<MetadataModel, DecodeError>(m),
{
    lemma_keys_differ();
    let ms = metadata_members(m);
    assert(keys_distinct(ms));
    lemma_lookup_found(ms, 0);
    lemma_lookup_found(ms, ms.len() - 1);
    match m.timestamp {
        Some(_) => lemma_lookup_found(ms, 1),
        None => lemma_lookup_absent(ms, Field::Timestamp.spec_key()),
    }
}

/// Decoding the encoding of a chip specification gives it back, for every
/// chip specification that its encoding describes without ambiguity.
pub proof fn lemma_chip_round_trip(c: ChipSpecModel)
    requires
        chip_wf(c),
    ensures
        chip_from_json(chip_to_json(c)) == Ok::<ChipSpecModel, DecodeError>(c),
{
    lemma_keys_differ();
    let ms = chip_members(c);
    assert(keys_distinct(ms));
    lemma_lookup_found(ms, 0);
    lemma_isa_round_trip(c.isa);
    match c.specs {
        Some(s) => {
            lemma_lookup_found(ms, 1);
            lemma_specs_round_trip(s);
        },
        None => lemma_lookup_absent(ms, Field::Specs.spec_key()),
    }
    match c.metadata {
        Some(m) => {
            lemma_lookup_found(ms, ms.len() - 1);
            lemma_metadata_round_trip(m);
        },
        None => lemma_lookup_absent(ms, Field::Metadata.spec_key()),
    }
}

/// A decoded chip specification is well formed but for its version, which
/// is kept as the document wrote it.
proof fn lemma_decoded_chip_wf(j: Json)
    requires
        chip_from_json(j) is Ok,
        chip_from_json(j)->Ok_0.metadata matches Some(m) ==> version_canonical(m.version),
    ensures
        chip_wf(chip_from_json(j)->Ok_0),
{
    if let Json::Obj(fields) = j {
        lemma_decoded_isa_wf(required(fields, Field::Isa)->Ok_0);
        if let Some(sj) = optional(fields, Field::Specs) {
            lemma_decoded_specs_wf(sj);
        }
    }
}

/// Parsing a chip document, serializing what was parsed and parsing the
/// result gives what the first parse gave. The one exception is a version
/// that reads as an `i32` but is not written as that integer's decimal text
/// (such as `"007"`): it is serialized as the bare integer, and the text is
/// not kept.
pub proof fn lemma_parse_serialize_parse(j: Json)
    requires
        chip_from_json(j) is Ok,
        chip_from_json(j)->Ok_0.metadata matches Some(m) ==> version_canonical(m.version),
    ensures
        chip_from_json(chip_to_json(chip_from_json(j)->Ok_0)) == chip_from_json(j),
{
    lemma_decoded_chip_wf(j);
    lemma_chip_round_trip(chip_from_json(j)->Ok_0);
}

/// The JSON integer for an `i32`.
pub open spec fn i32_to_json(n: i32) -> Json {
    if n < 0 {
        Json::Num(Number::NegInt(n as i64))
    } else {
        Json::Num(Number::PosInt(n as u64))
    }
}

/// A version given as an `i32` and the same version given as that integer's
/// decimal text both read as the text, and both are written back as the bare
/// integer.
pub proof fn lemma_version_forms(n: i32)
    ensures
        version_from_json(i32_to_json(n)) == Ok::<Seq<char>, DecodeError>(decimal(n as int)),
        version_from_json(Json::Str(decimal(n as int))) == Ok::<Seq<char>, DecodeError>(
            decimal(n as int),
        ),
        version_to_json(decimal(n as int)) == i32_to_json(n),
{
    lemma_parse_decimal(n);
}

} // verus!
