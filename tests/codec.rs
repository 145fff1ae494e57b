use libquil_sys::chip::{ChipSpec, Metadata};
use libquil_sys::decimal::{decimal_string, decimal_u64, parse_i32_text};
use libquil_sys::error::{DecodeError, Field, JsonKind, Shape};
use libquil_sys::gate::Gate;
use libquil_sys::entry::{OneQ, TwoQ};
use libquil_sys::isa::Isa;
use libquil_sys::json::{JsonValue, Number};
use libquil_sys::operand::{Argument, MeasurementTarget, Parameter, Qubit};
use libquil_sys::specs::{Specs, SpecsMap};

fn text(s: &str) -> JsonValue {
    JsonValue::String(s.to_string())
}

fn uint(n: u64) -> JsonValue {
    JsonValue::Number(Number::PosInt(n))
}

fn float(x: f64) -> JsonValue {
    JsonValue::Number(Number::Float(x.to_bits()))
}

fn obj(members: Vec<(&str, JsonValue)>) -> JsonValue {
    JsonValue::Object(members.into_iter().map(|(k, v)| (k.to_string(), v)).collect())
}

/// Deep equality of JSON trees, with the order of object members ignored.
fn same_tree(a: &JsonValue, b: &JsonValue) -> bool {
    match (a, b) {
        (JsonValue::Null, JsonValue::Null) => true,
        (JsonValue::Bool(x), JsonValue::Bool(y)) => x == y,
        (JsonValue::Number(x), JsonValue::Number(y)) => x == y,
        (JsonValue::String(x), JsonValue::String(y)) => x == y,
        (JsonValue::Array(xs), JsonValue::Array(ys)) => {
            xs.len() == ys.len() && xs.iter().zip(ys.iter()).all(|(x, y)| same_tree(x, y))
        }
        (JsonValue::Object(xs), JsonValue::Object(ys)) => {
            xs.len() == ys.len()
                && xs.iter().all(|(k, x)| {
                    ys.iter().any(|(l, y)| k == l && same_tree(x, y))
                })
        }
        _ => false,
    }
}

fn measure_gate() -> JsonValue {
    obj(vec![
        ("operator", text("MEASURE")),
        ("qubit", uint(0)),
        ("target", text("_")),
        ("duration", float(2000.0)),
        ("fidelity", float(0.95)),
    ])
}

fn rx_gate() -> JsonValue {
    obj(vec![
        ("operator", text("RX")),
        ("parameters", JsonValue::Array(vec![float(1.5707963267948966)])),
        ("arguments", JsonValue::Array(vec![uint(0)])),
        ("duration", float(50.0)),
        ("fidelity", float(0.99)),
    ])
}

fn sample_chip() -> JsonValue {
    obj(vec![
        (
            "isa",
            obj(vec![
                (
                    "1Q",
                    obj(vec![
                        ("0", obj(vec![("gates", JsonValue::Array(vec![measure_gate(), rx_gate()]))])),
                        ("1", obj(vec![])),
                        ("2", obj(vec![("dead", JsonValue::Bool(true))])),
                        ("3", obj(vec![("type", text("Xhalves"))])),
                        ("4", JsonValue::Null),
                    ]),
                ),
                (
                    "2Q",
                    obj(vec![
                        ("0-1", obj(vec![("type", JsonValue::Array(vec![text("ISWAP"), text("CZ")]))])),
                        (
                            "1-2",
                            obj(vec![(
                                "gates",
                                JsonValue::Array(vec![obj(vec![
                                    ("operator", text("CZ")),
                                    ("parameters", JsonValue::Array(vec![])),
                                    ("arguments", JsonValue::Array(vec![text("_"), text("_")])),
                                    ("duration", float(200.0)),
                                    ("fidelity", float(0.9)),
                                ])]),
                            )]),
                        ),
                        ("2-3", obj(vec![("specs", obj(vec![("fCZ", float(0.92))]))])),
                    ]),
                ),
            ]),
        ),
        (
            "specs",
            obj(vec![
                ("1Q", obj(vec![("0", obj(vec![("T1", float(1e-5)), ("f1QRB", float(0.99))]))])),
                ("2Q", obj(vec![("0-1", obj(vec![("fCZ", float(0.9))]))])),
            ]),
        ),
        (
            "metadata",
            obj(vec![
                ("name", text("Aspen-9")),
                ("timestamp", text("2021-06-01")),
                ("version", uint(42)),
            ]),
        ),
    ])
}

#[test]
fn chip_document_round_trips() {
    let doc = sample_chip();
    let chip = ChipSpec::from_json(&doc).unwrap();
    let written = chip.to_json();
    assert!(same_tree(&written, &doc));
    let again = ChipSpec::from_json(&written).unwrap();
    assert_eq!(again, chip);
}

#[test]
fn chip_document_reads_every_shape() {
    let chip = ChipSpec::from_json(&sample_chip()).unwrap();
    assert_eq!(chip.isa.one_q.len(), 5);
    assert_eq!(chip.isa.one_q[1], ("1".to_string(), Some(OneQ::Defaults)));
    assert_eq!(chip.isa.one_q[2], ("2".to_string(), Some(OneQ::Dead { dead: true })));
    assert_eq!(chip.isa.one_q[3], ("3".to_string(), Some(OneQ::Ty { ty: "Xhalves".to_string() })));
    assert_eq!(chip.isa.one_q[4], ("4".to_string(), None));
    assert_eq!(
        chip.isa.two_q[0].1,
        Some(TwoQ::Ty { ty: vec!["ISWAP".to_string(), "CZ".to_string()] })
    );
    assert_eq!(
        chip.isa.two_q[2].1,
        Some(TwoQ::Specs {
            specs: SpecsMap(vec![("fCZ".to_string(), Number::Float(0.92f64.to_bits()))])
        })
    );
    let metadata = chip.metadata.unwrap();
    assert_eq!(metadata.version, "42".to_string());
    assert_eq!(metadata.timestamp, Some("2021-06-01".to_string()));
}

#[test]
fn defaults_entry_reads_and_writes_empty_object() {
    let entry = OneQ::from_json(&obj(vec![])).unwrap();
    assert_eq!(entry, OneQ::Defaults);
    assert!(same_tree(&OneQ::Defaults.to_json(), &obj(vec![])));
}

#[test]
fn empty_gates_entry_round_trips() {
    let input = obj(vec![("gates", JsonValue::Array(vec![]))]);
    let entry = OneQ::from_json(&input).unwrap();
    assert_eq!(entry, OneQ::Gates { gates: vec![] });
    let written = entry.to_json();
    assert!(same_tree(&written, &input));
    assert_eq!(OneQ::from_json(&written).unwrap(), entry);
}

#[test]
fn qubit_wildcard_codec() {
    assert_eq!(Qubit::from_json(&text("_")), Ok(Qubit::Wildcard));
    assert!(same_tree(&Qubit::Wildcard.to_json(), &text("_")));
    assert_eq!(Qubit::from_json(&text("__")), Err(DecodeError::NotWildcard));
    assert_eq!(Qubit::from_json(&text("")), Err(DecodeError::NotWildcard));
    assert_eq!(Qubit::from_json(&text("*")), Err(DecodeError::NotWildcard));
    assert_eq!(Qubit::from_json(&JsonValue::Bool(true)), Err(DecodeError::TypeMismatch(JsonKind::Index)));
    assert!(same_tree(&Qubit::Index(7).to_json(), &uint(7)));
}

#[test]
fn operand_wildcards_at_each_position() {
    assert_eq!(Argument::from_json(&text("__")), Err(DecodeError::NotWildcard));
    assert_eq!(Parameter::from_json(&text("x")), Err(DecodeError::NotWildcard));
    assert_eq!(
        MeasurementTarget::from_json(&text("__")),
        Ok(MeasurementTarget::MemoryReference("__".to_string()))
    );
    assert!(same_tree(&Argument::Wildcard.to_json(), &text("_")));
    assert!(same_tree(&Parameter::Wildcard.to_json(), &text("_")));
    assert!(same_tree(&MeasurementTarget::Wildcard.to_json(), &text("_")));
    assert_eq!(Argument::from_json(&JsonValue::Number(Number::NegInt(-1))), Err(DecodeError::TypeMismatch(JsonKind::Index)));
}

#[test]
fn measure_gate_with_target_reads() {
    let input = obj(vec![
        ("operator", text("MEASURE")),
        ("qubit", uint(42)),
        ("target", text("ro")),
        ("duration", float(0.1)),
        ("fidelity", float(0.9)),
    ]);
    let gate = Gate::from_json(&input).unwrap();
    assert_eq!(
        gate,
        Gate::Measure {
            qubit: Qubit::Index(42),
            target: Some(MeasurementTarget::MemoryReference("ro".to_string())),
            duration: Number::Float(0.1f64.to_bits()),
            fidelity: Number::Float(0.9f64.to_bits()),
        }
    );
}

#[test]
fn measure_gate_without_target_writes_null() {
    let input = obj(vec![
        ("operator", text("MEASURE")),
        ("qubit", text("_")),
        ("duration", float(1.0)),
        ("fidelity", float(1.0)),
    ]);
    let gate = Gate::from_json(&input).unwrap();
    assert_eq!(
        gate,
        Gate::Measure {
            qubit: Qubit::Wildcard,
            target: None,
            duration: Number::Float(1.0f64.to_bits()),
            fidelity: Number::Float(1.0f64.to_bits()),
        }
    );
    let written = gate.to_json();
    let expected = obj(vec![
        ("operator", text("MEASURE")),
        ("qubit", text("_")),
        ("target", JsonValue::Null),
        ("duration", float(1.0)),
        ("fidelity", float(1.0)),
    ]);
    assert!(same_tree(&written, &expected));
}

#[test]
fn quantum_gate_reads() {
    let input = obj(vec![
        ("operator", text("RX")),
        ("parameters", JsonValue::Array(vec![float(1.5)])),
        ("arguments", JsonValue::Array(vec![uint(42)])),
        ("duration", float(0.1)),
        ("fidelity", float(0.9)),
    ]);
    let gate = Gate::from_json(&input).unwrap();
    assert_eq!(
        gate,
        Gate::Quantum {
            operator: "RX".to_string(),
            parameters: vec![Parameter::Numeric(Number::Float(1.5f64.to_bits()))],
            arguments: vec![Argument::Index(42)],
            duration: Number::Float(0.1f64.to_bits()),
            fidelity: Number::Float(0.9f64.to_bits()),
        }
    );
    assert!(same_tree(&gate.to_json(), &input));
}

#[test]
fn measure_operator_never_falls_through() {
    let input = obj(vec![
        ("operator", text("MEASURE")),
        ("parameters", JsonValue::Array(vec![])),
        ("arguments", JsonValue::Array(vec![uint(0)])),
        ("duration", float(0.1)),
        ("fidelity", float(0.9)),
    ]);
    assert_eq!(Gate::from_json(&input), Err(DecodeError::MissingField(Field::Qubit)));
}

#[test]
fn gate_errors() {
    assert_eq!(Gate::from_json(&uint(1)), Err(DecodeError::TypeMismatch(JsonKind::Object)));
    assert_eq!(
        Gate::from_json(&obj(vec![("qubit", uint(0))])),
        Err(DecodeError::MissingField(Field::Operator))
    );
    assert_eq!(
        Gate::from_json(&obj(vec![("operator", uint(0))])),
        Err(DecodeError::TypeMismatch(JsonKind::String))
    );
    let no_parameters = obj(vec![
        ("operator", text("RZ")),
        ("arguments", JsonValue::Array(vec![])),
        ("duration", float(0.1)),
        ("fidelity", float(0.9)),
    ]);
    assert_eq!(Gate::from_json(&no_parameters), Err(DecodeError::MissingField(Field::Parameters)));
    let text_duration = obj(vec![
        ("operator", text("RZ")),
        ("parameters", JsonValue::Array(vec![])),
        ("arguments", JsonValue::Array(vec![])),
        ("duration", text("long")),
        ("fidelity", float(0.9)),
    ]);
    assert_eq!(Gate::from_json(&text_duration), Err(DecodeError::TypeMismatch(JsonKind::Number)));
    let parameters_not_array = obj(vec![
        ("operator", text("RZ")),
        ("parameters", float(1.0)),
        ("arguments", JsonValue::Array(vec![])),
        ("duration", float(0.1)),
        ("fidelity", float(0.9)),
    ]);
    assert_eq!(Gate::from_json(&parameters_not_array), Err(DecodeError::TypeMismatch(JsonKind::Array)));
}

#[test]
fn unknown_entry_shape_names_the_shapes_tried() {
    let err = OneQ::from_json(&obj(vec![("foo", uint(1))])).unwrap_err();
    assert_eq!(err, DecodeError::NoMatchingShape(Field::OneQ));
    assert_eq!(
        err.attempted_shapes(),
        vec![Shape::Gates, Shape::Type, Shape::Specs, Shape::Dead, Shape::Defaults]
    );
    let err = TwoQ::from_json(&obj(vec![("foo", uint(1))])).unwrap_err();
    assert_eq!(err, DecodeError::NoMatchingShape(Field::TwoQ));
    assert_eq!(DecodeError::NotWildcard.attempted_shapes(), vec![]);
}

#[test]
fn entry_shapes_are_tried_in_order() {
    // a malformed gate list gives way to a later shape that matches
    let input = obj(vec![
        ("gates", JsonValue::Array(vec![uint(3)])),
        ("dead", JsonValue::Bool(false)),
    ]);
    assert_eq!(OneQ::from_json(&input), Ok(OneQ::Dead { dead: false }));
    // and fails when none does
    let input = obj(vec![("gates", JsonValue::Array(vec![uint(3)]))]);
    assert_eq!(OneQ::from_json(&input), Err(DecodeError::NoMatchingShape(Field::OneQ)));
    // a string type is a single qubit's; a pair's is a list of strings
    assert_eq!(
        TwoQ::from_json(&obj(vec![("type", text("Xhalves"))])),
        Err(DecodeError::NoMatchingShape(Field::TwoQ))
    );
    assert_eq!(
        OneQ::from_json(&text("gates")),
        Err(DecodeError::NoMatchingShape(Field::OneQ))
    );
}

#[test]
fn specs_map_entry_round_trips() {
    let input = obj(vec![("specs", obj(vec![("T1", float(1e-5)), ("unknown", uint(3))]))]);
    let entry = OneQ::from_json(&input).unwrap();
    assert_eq!(
        entry,
        OneQ::Specs {
            specs: SpecsMap(vec![
                ("T1".to_string(), Number::Float(1e-5f64.to_bits())),
                ("unknown".to_string(), Number::PosInt(3)),
            ])
        }
    );
    assert!(same_tree(&entry.to_json(), &input));
}

#[test]
fn duplicate_names_are_refused() {
    let map = obj(vec![("T1", float(1.0)), ("T1", float(2.0))]);
    assert_eq!(SpecsMap::from_json(&map), Err(DecodeError::DuplicateKey));
    let isa = obj(vec![
        ("1Q", obj(vec![("0", obj(vec![])), ("0", obj(vec![]))])),
        ("2Q", obj(vec![])),
    ]);
    assert_eq!(Isa::from_json(&isa), Err(DecodeError::DuplicateKey));
}

#[test]
fn isa_sections_are_required() {
    let isa = obj(vec![("1Q", obj(vec![]))]);
    assert_eq!(Isa::from_json(&isa), Err(DecodeError::MissingField(Field::TwoQ)));
    let isa = obj(vec![("1Q", JsonValue::Array(vec![])), ("2Q", obj(vec![]))]);
    assert_eq!(Isa::from_json(&isa), Err(DecodeError::TypeMismatch(JsonKind::Object)));
    let chip = obj(vec![("specs", obj(vec![]))]);
    assert_eq!(ChipSpec::from_json(&chip), Err(DecodeError::MissingField(Field::Isa)));
}

#[test]
fn one_bad_entry_fails_the_whole_document() {
    let chip = obj(vec![(
        "isa",
        obj(vec![
            ("1Q", obj(vec![("0", obj(vec![])), ("1", obj(vec![("foo", uint(1))]))])),
            ("2Q", obj(vec![])),
        ]),
    )]);
    assert_eq!(ChipSpec::from_json(&chip), Err(DecodeError::NoMatchingShape(Field::OneQ)));
}

#[test]
fn isa_metadata_and_empty_specs() {
    let isa = obj(vec![("1Q", obj(vec![])), ("2Q", obj(vec![])), ("metadata", obj(vec![]))]);
    let decoded = Isa::from_json(&isa).unwrap();
    assert!(decoded.metadata.is_some());
    assert!(same_tree(&decoded.to_json(), &isa));
    let specs = Specs::from_json(&obj(vec![])).unwrap();
    assert_eq!(specs, Specs { one_q: None, two_q: None });
    assert!(same_tree(&specs.to_json(), &obj(vec![])));
}

fn metadata_with_version(version: JsonValue) -> JsonValue {
    obj(vec![("name", text("chip")), ("version", version)])
}

#[test]
fn version_string_and_integer_agree() {
    let from_text = Metadata::from_json(&metadata_with_version(text("42"))).unwrap();
    let from_integer = Metadata::from_json(&metadata_with_version(uint(42))).unwrap();
    assert_eq!(from_text.version, "42".to_string());
    assert_eq!(from_integer.version, "42".to_string());
    let expected = metadata_with_version(uint(42));
    assert!(same_tree(&from_text.to_json(), &expected));
    assert!(same_tree(&from_integer.to_json(), &expected));
}

#[test]
fn version_written_as_integer_only_when_it_reads_as_i32() {
    let negative = Metadata::from_json(&metadata_with_version(JsonValue::Number(Number::NegInt(-5)))).unwrap();
    assert_eq!(negative.version, "-5".to_string());
    assert!(same_tree(&negative.to_json(), &metadata_with_version(JsonValue::Number(Number::NegInt(-5)))));
    let word = Metadata::from_json(&metadata_with_version(text("v2"))).unwrap();
    assert!(same_tree(&word.to_json(), &metadata_with_version(text("v2"))));
    let leading_zero = Metadata::from_json(&metadata_with_version(text("007"))).unwrap();
    assert!(same_tree(&leading_zero.to_json(), &metadata_with_version(uint(7))));
    let large = Metadata::from_json(&metadata_with_version(uint(3000000000))).unwrap();
    assert_eq!(large.version, "3000000000".to_string());
    assert!(same_tree(&large.to_json(), &metadata_with_version(text("3000000000"))));
    assert_eq!(
        Metadata::from_json(&metadata_with_version(float(1.5))).unwrap_err(),
        DecodeError::TypeMismatch(JsonKind::StringOrInteger)
    );
    assert_eq!(
        Metadata::from_json(&obj(vec![("version", uint(1))])).unwrap_err(),
        DecodeError::MissingField(Field::Name)
    );
}

#[test]
fn timestamp_is_optional() {
    let with = obj(vec![("name", text("n")), ("timestamp", text("t")), ("version", text("1.0"))]);
    let m = Metadata::from_json(&with).unwrap();
    assert_eq!(m.timestamp, Some("t".to_string()));
    assert!(same_tree(&m.to_json(), &with));
    let null_stamp = obj(vec![("name", text("n")), ("timestamp", JsonValue::Null), ("version", text("1.0"))]);
    let m = Metadata::from_json(&null_stamp).unwrap();
    assert_eq!(m.timestamp, None);
    assert!(same_tree(&m.to_json(), &obj(vec![("name", text("n")), ("version", text("1.0"))])));
}

#[test]
fn reading_i32_text() {
    assert_eq!(parse_i32_text("42"), Some(42));
    assert_eq!(parse_i32_text("+5"), Some(5));
    assert_eq!(parse_i32_text("-0"), Some(0));
    assert_eq!(parse_i32_text("007"), Some(7));
    assert_eq!(parse_i32_text("2147483647"), Some(i32::MAX));
    assert_eq!(parse_i32_text("2147483648"), None);
    assert_eq!(parse_i32_text("-2147483648"), Some(i32::MIN));
    assert_eq!(parse_i32_text("-2147483649"), None);
    assert_eq!(parse_i32_text(""), None);
    assert_eq!(parse_i32_text("-"), None);
    assert_eq!(parse_i32_text("+"), None);
    assert_eq!(parse_i32_text("1a"), None);
    assert_eq!(parse_i32_text(" 1"), None);
    assert_eq!(parse_i32_text("99999999999999999999"), None);
}

#[test]
fn writing_decimal_text() {
    assert_eq!(decimal_string(0), "0".to_string());
    assert_eq!(decimal_string(-42), "-42".to_string());
    assert_eq!(decimal_string(i64::MIN), "-9223372036854775808".to_string());
    assert_eq!(decimal_u64(u64::MAX), "18446744073709551615".to_string());
    assert_eq!(decimal_u64(1200), "1200".to_string());
}
