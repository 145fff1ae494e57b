//! Keys of the chip document format and the ways in which decoding fails.

use vstd::prelude::*;

verus! {

/// A key of the chip document format.
#[derive(Clone, Copy, Debug, PartialEq, Eq, Structural)]
pub enum Field {
    Isa,
    Specs,
    Metadata,
    OneQ,
    TwoQ,
    Gates,
    Type,
    Dead,
    Operator,
    Qubit,
    Target,
    Parameters,
    Arguments,
    Duration,
    Fidelity,
    Name,
    Timestamp,
    Version,
}

impl Field {
    /// The key as it is written in a document.
    pub open spec fn spec_key(self) -> Seq<char> {
        match self {
            Field::Isa => "isa"@,
            Field::Specs => "specs"@,
            Field::Metadata => "metadata"@,
            Field::OneQ => "1Q"@,
            Field::TwoQ => "2Q"@,
            Field::Gates => "gates"@,
            Field::Type => "type"@,
            Field::Dead => "dead"@,
            Field::Operator => "operator"@,
            Field::Qubit => "qubit"@,
            Field::Target => "target"@,
            Field::Parameters => "parameters"@,
            Field::Arguments => "arguments"@,
            Field::Duration => "duration"@,
            Field::Fidelity => "fidelity"@,
            Field::Name => "name"@,
            Field::Timestamp => "timestamp"@,
            Field::Version => "version"@,
        }
    }

    /// The key as it is written in a document.
    pub fn key(self) -> (r: String)
        ensures
            r@ == self.spec_key(),
    {
        match self {
            Field::Isa => "isa".to_owned(),
            Field::Specs => "specs".to_owned(),
            Field::Metadata => "metadata".to_owned(),
            Field::OneQ => "1Q".to_owned(),
            Field::TwoQ => "2Q".to_owned(),
            Field::Gates => "gates".to_owned(),
            Field::Type => "type".to_owned(),
            Field::Dead => "dead".to_owned(),
            Field::Operator => "operator".to_owned(),
            Field::Qubit => "qubit".to_owned(),
            Field::Target => "target".to_owned(),
            Field::Parameters => "parameters".to_owned(),
            Field::Arguments => "arguments".to_owned(),
            Field::Duration => "duration".to_owned(),
            Field::Fidelity => "fidelity".to_owned(),
            Field::Name => "name".to_owned(),
            Field::Timestamp => "timestamp".to_owned(),
            Field::Version => "version".to_owned(),
        }
    }
}

/// No two keys of the format are written alike.
pub proof fn lemma_keys_differ()
    ensures
        forall|a: Field, b: Field| a != b ==> #[trigger] a.spec_key() != #[trigger] b.spec_key(),
{
    reveal_strlit("isa");
    reveal_strlit("specs");
    reveal_strlit("metadata");
    reveal_strlit("1Q");
    reveal_strlit("2Q");
    reveal_strlit("gates");
    reveal_strlit("type");
    reveal_strlit("dead");
    reveal_strlit("operator");
    reveal_strlit("qubit");
    reveal_strlit("target");
    reveal_strlit("parameters");
    reveal_strlit("arguments");
    reveal_strlit("duration");
    reveal_strlit("fidelity");
    reveal_strlit("name");
    reveal_strlit("timestamp");
    reveal_strlit("version");
    assert forall|a: Field, b: Field| a != b implies #[trigger] a.spec_key()
        != #[trigger] b.spec_key() by {
        if a.spec_key().len() == b.spec_key().len() {
            assert(a.spec_key()[0] != b.spec_key()[0]);
        }
    }
}

/// The kind of JSON value that a position of the format expects.
#[derive(Clone, Copy, Debug, PartialEq, Eq, Structural)]
pub enum JsonKind {
    Bool,
    Number,
    /// A non-negative integer that fits a `usize`.
    Index,
    /// A string or an integer.
    StringOrInteger,
    String,
    Array,
    Object,
}

/// A shape that the entry of a hardware object may take.
#[derive(Clone, Copy, Debug, PartialEq, Eq, Structural)]
pub enum Shape {
    Gates,
    Type,
    Specs,
    Dead,
    Defaults,
}

/// Why a document could not be decoded.
#[derive(Clone, Copy, Debug, PartialEq, Eq, Structural)]
pub enum DecodeError {
    /// The entry of a hardware object, in the section named by the field,
    /// matched none of the shapes that such an entry may take.
    NoMatchingShape(Field),
    /// A required key is absent.
    MissingField(Field),
    /// A value is of another kind than its position expects.
    TypeMismatch(JsonKind),
    /// A wildcard position holds a string other than `"_"`.
    NotWildcard,
    /// Two members of an object that lists hardware objects or
    /// characteristics share a name.
    DuplicateKey,
}

/// The shapes that the entry of a hardware object is tried against, in order.
pub open spec fn entry_shapes() -> Seq<Shape> {
    seq![Shape::Gates, Shape::Type, Shape::Specs, Shape::Dead, Shape::Defaults]
}

impl DecodeError {
    /// The shapes that were tried before the error was raised, in the order
    /// in which they were tried.
    pub fn attempted_shapes(&self) -> (r: Vec<Shape>)
        ensures
            self is NoMatchingShape ==> r@ == entry_shapes(),
            !(self is NoMatchingShape) ==> r@.len() == 0,
    {
        match self {
            DecodeError::NoMatchingShape(_) => {
                let r = vec![Shape::Gates, Shape::Type, Shape::Specs, Shape::Dead, Shape::Defaults];
                assert(r@ =~= entry_shapes());
                r
            },
            _ => Vec::new(),
        }
    }
}

} // verus!
