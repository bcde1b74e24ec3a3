use fm_tester::json_schema::{jsonschema_validate, render_schema_answer, SchemaOutcome};
use serde_json::Value;

fn answer(entries: Vec<(&str, Value)>) -> String {
    let mut m = serde_json::Map::new();
    for (k, v) in entries {
        m.insert(k.to_string(), v);
    }
    Value::Object(m).to_string()
}

#[test]
fn schema_validation_answers() {
    let schema = r#"{"type":"object","required":["id"],"properties":{"id":{"type":"integer"}}}"#;
    assert_eq!(jsonschema_validate(r#"{"id":3}"#, schema), r#"{"valid":true}"#);

    let bad = jsonschema_validate(r#"{"id":"x"}"#, schema);
    let v: Value = serde_json::from_str(&bad).unwrap();
    assert_eq!(v["valid"], Value::Bool(false));
    assert_eq!(v["errors"].as_array().unwrap().len(), 1);
    assert!(bad.starts_with(r#"{"errors":["#));

    assert!(jsonschema_validate("{", schema).starts_with(r#"{"error":"Invalid data JSON: "#));
    assert!(jsonschema_validate("{}", "[").starts_with(r#"{"error":"Invalid schema JSON: "#));
    assert!(jsonschema_validate("{}", r#"{"type":"nonsense"}"#).starts_with(r#"{"error":"Schema compile error: "#));
}

#[test]
fn schema_answers_are_written_as_serde_json_writes_them() {
    let tricky = "say \"hi\"\\ \u{8}\t\n\u{c}\r\u{1}\u{1f} é/";
    let o = SchemaOutcome::Checked(vec![tricky.to_string(), "b".to_string()]);
    let expected = answer(vec![
        ("valid", Value::Bool(false)),
        ("errors", Value::Array(vec![Value::String(tricky.to_string()), Value::String("b".to_string())])),
    ]);
    assert_eq!(render_schema_answer(&o), expected);
    let o = SchemaOutcome::BadData(tricky.to_string());
    let expected = answer(vec![
        ("valid", Value::Bool(false)),
        ("error", Value::String(format!("Invalid data JSON: {}", tricky))),
    ]);
    assert_eq!(render_schema_answer(&o), expected);
    assert_eq!(render_schema_answer(&SchemaOutcome::Checked(vec![])), answer(vec![("valid", Value::Bool(true))]));
}
