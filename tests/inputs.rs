use nova_cli::inputs::{read_circuit_inputs, read_start_input, InputError};

#[test]
fn circuit_inputs_in_order() {
    let text = r#"[{"a": 1, "b": [2, 3]}, {"a": "x"}, {}]"#;
    let recs = read_circuit_inputs(text).unwrap();
    assert_eq!(recs.len(), 3);
    assert_eq!(recs[0].len(), 2);
    let a0 = recs[0].iter().find(|(k, _)| k == "a").unwrap();
    assert_eq!(a0.1, serde_json::Value::from(1));
    let b0 = recs[0].iter().find(|(k, _)| k == "b").unwrap();
    assert_eq!(b0.1, serde_json::Value::from(vec![2, 3]));
    assert_eq!(recs[1], vec![("a".to_string(), serde_json::Value::from("x"))]);
    assert!(recs[2].is_empty());
}

#[test]
fn circuit_inputs_empty_array() {
    assert_eq!(read_circuit_inputs("[]").unwrap().len(), 0);
}

#[test]
fn circuit_inputs_errors() {
    assert_eq!(read_circuit_inputs("[{"), Err(InputError::NotJson));
    assert_eq!(read_circuit_inputs(r#"{"a": 1}"#), Err(InputError::NotAnArray));
    assert_eq!(read_circuit_inputs(r#"[{}, 3, "s"]"#), Err(InputError::RecordNotAnObject(1)));
}

#[test]
fn start_input_strings() {
    let text = r#"{"step_in": ["0x1", "0x2a"], "other": 5}"#;
    assert_eq!(read_start_input(text).unwrap(), vec!["0x1".to_string(), "0x2a".to_string()]);
}

#[test]
fn start_input_errors() {
    assert_eq!(read_start_input("nope"), Err(InputError::NotJson));
    assert_eq!(read_start_input(r#"{"step": []}"#), Err(InputError::MissingField));
    assert_eq!(read_start_input(r#"["0x1"]"#), Err(InputError::MissingField));
    assert_eq!(read_start_input(r#"{"step_in": "0x1"}"#), Err(InputError::FieldNotAnArray));
    assert_eq!(read_start_input(r#"{"step_in": ["0x1", 2]}"#), Err(InputError::ElementNotAString(1)));
}
