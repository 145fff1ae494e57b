use libquil_sys::gate::Gate;
use libquil_sys::entry::OneQ;
use libquil_sys::json::{JsonValue, Number};
use libquil_sys::operand::{Argument, MeasurementTarget, Parameter, Qubit};

fn text(s: &str) -> JsonValue {
    JsonValue::String(s.to_string())
}

fn uint(n: u64) -> JsonValue {
    JsonValue::Number(Number::PosInt(n))
}

fn float(x: f64) -> JsonValue {
    JsonValue::Number(Number::Float(x.to_bits()))
}

fn num(x: f64) -> Number {
    Number::Float(x.to_bits())
}

fn obj(members: Vec<(&str, JsonValue)>) -> JsonValue {
    JsonValue::Object(members.into_iter().map(|(k, v)| (k.to_string(), v)).collect())
}

#[test]
fn deserialize_oneq() {
    let tests = [
        (obj(vec![]), OneQ::Defaults),
        (obj(vec![("gates", JsonValue::Array(vec![]))]), OneQ::Gates { gates: vec![] }),
    ];
    for (input, expected) in tests {
        let actual = OneQ::from_json(&input).unwrap();
        assert_eq!(actual, expected);
    }
}

#[test]
fn deserialize_gate() {
    let tests = [
        (
            obj(vec![
                ("operator", text("MEASURE")),
                ("qubit", uint(42)),
                ("target", text("ro")),
                ("duration", float(0.1)),
                ("fidelity", float(0.9)),
            ]),
            Gate::Measure {
                qubit: Qubit::Index(42),
                target: Some(MeasurementTarget::MemoryReference("ro".to_string())),
                duration: num(0.1),
                fidelity: num(0.9),
            },
        ),
        (
            obj(vec![
                ("operator", text("RX")),
                ("parameters", JsonValue::Array(vec![float(1.5)])),
                ("arguments", JsonValue::Array(vec![uint(42)])),
                ("duration", float(0.1)),
                ("fidelity", float(0.9)),
            ]),
            Gate::Quantum {
                operator: "RX".to_string(),
                parameters: vec![Parameter::Numeric(num(1.5))],
                arguments: vec![Argument::Index(42)],
                duration: num(0.1),
                fidelity: num(0.9),
            },
        ),
    ];
    for (input, expected) in tests {
        let actual = Gate::from_json(&input).unwrap();
        assert_eq!(actual, expected);
    }
}

#[test]
fn deserialize_qubit() {
    let tests = [(text("_"), Qubit::Wildcard), (uint(42), Qubit::Index(42))];
    for (input, expected) in tests {
        let actual = Qubit::from_json(&input).unwrap();
        assert_eq!(actual, expected);
    }
}

#[test]
fn deserialize_argument() {
    let tests = [(text("_"), Argument::Wildcard), (uint(42), Argument::Index(42))];
    for (input, expected) in tests {
        let actual = Argument::from_json(&input).unwrap();
        assert_eq!(actual, expected);
    }
}

#[test]
fn deserialize_parameter() {
    let tests = [(text("_"), Parameter::Wildcard), (float(1.5), Parameter::Numeric(num(1.5)))];
    for (input, expected) in tests {
        let actual = Parameter::from_json(&input).unwrap();
        assert_eq!(actual, expected);
    }
}

#[test]
fn deserialize_measurement_target() {
    let tests = [
        (text("_"), MeasurementTarget::Wildcard),
        (text("ro"), MeasurementTarget::MemoryReference("ro".to_string())),
    ];
    for (input, expected) in tests {
        let actual = MeasurementTarget::from_json(&input).unwrap();
        assert_eq!(actual, expected);
    }
}
