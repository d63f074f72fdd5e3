use n8n_lint::json::{JsonNumber, JsonValue};
use n8n_lint::model::Workflow;
use n8n_lint::text::{decimal_string, signed_decimal_string, str_contains, trim_str};

fn convert(v: serde_json::Value) -> JsonValue {
    match v {
        serde_json::Value::Null => JsonValue::Null,
        serde_json::Value::Bool(b) => JsonValue::Bool(b),
        serde_json::Value::Number(n) => match n.as_u64() {
            Some(u) => JsonValue::Number(JsonNumber::PosInt(u)),
            None => match n.as_i64() {
                Some(i) => JsonValue::Number(JsonNumber::NegInt(i)),
                None => panic!("floats are not used in these tests"),
            },
        },
        serde_json::Value::String(s) => JsonValue::String(s),
        serde_json::Value::Array(a) => JsonValue::Array(a.into_iter().map(convert).collect()),
        serde_json::Value::Object(m) => {
            JsonValue::Object(m.into_iter().map(|(k, v)| (k, convert(v))).collect())
        }
    }
}

fn read(text: &str) -> Result<Workflow, String> {
    Workflow::from_json(convert(serde_json::from_str(text).unwrap()))
}

#[test]
fn reads_all_node_fields() {
    let w = read(r#"{"name": "W", "connections": {}, "settings": null, "nodes": [{
        "id": "1", "name": "N", "type": "n8n-nodes-base.code", "typeVersion": 2,
        "parameters": {"jsCode": "x", "n": 1}, "position": [1, 2],
        "credentials": {}, "onError": "stop", "notes": "hi", "unknown": true
    }]}"#)
    .unwrap();
    assert_eq!(w.name.as_deref(), Some("W"));
    assert!(w.connections.is_some());
    assert!(w.settings.is_none());
    assert!(w.tags.is_none());
    let n = &w.nodes.as_ref().unwrap()[0];
    assert_eq!(n.id_str(), Some("1"));
    assert_eq!(n.name_str(), Some("N"));
    assert_eq!(n.type_str(), "n8n-nodes-base.code");
    assert!(n.is_code());
    assert!(!n.is_http_request());
    assert!(n.type_version.is_some());
    assert_eq!(n.param_str("jsCode"), Some("x"));
    assert_eq!(n.param_str("n"), None);
    assert_eq!(n.param_str("missing"), None);
    assert!(n.params().is_some());
    assert_eq!(n.on_error.as_deref(), Some("stop"));
    assert_eq!(n.notes.as_deref(), Some("hi"));
}

#[test]
fn node_without_type_has_empty_type() {
    let w = read(r#"{"nodes": [{"name": "N"}]}"#).unwrap();
    let n = &w.nodes.as_ref().unwrap()[0];
    assert_eq!(n.type_str(), "");
    assert!(!n.is_ssh() && !n.is_schedule_trigger() && !n.is_manual_trigger() && !n.is_error_trigger());
    assert!(n.params().is_none());
    assert!(n.all_param_strings().is_empty());
}

#[test]
fn node_type_predicates() {
    let w = read(r#"{"nodes": [
        {"type": "n8n-nodes-base.ssh"}, {"type": "n8n-nodes-base.httpRequest"},
        {"type": "n8n-nodes-base.scheduleTrigger"}, {"type": "n8n-nodes-base.manualTrigger"},
        {"type": "n8n-nodes-base.errorTrigger"}, {"type": "n8n-nodes-base.extractFromFile"}
    ]}"#)
    .unwrap();
    let ns = w.nodes.unwrap();
    assert!(ns[0].is_ssh());
    assert!(ns[1].is_http_request());
    assert!(ns[2].is_schedule_trigger());
    assert!(ns[3].is_manual_trigger());
    assert!(ns[4].is_error_trigger());
    assert!(ns[5].is_extract_from_file());
}

#[test]
fn param_strings_in_document_order() {
    let w = read(r#"{"nodes": [{"parameters": {"b": ["x", {"z": "y", "a": "w"}], "a": "v", "n": 3}}]}"#).unwrap();
    let n = &w.nodes.as_ref().unwrap()[0];
    // Object members come in the map's order, which sorts the keys.
    assert_eq!(n.all_param_strings(), vec!["v", "x", "w", "y"]);
}

#[test]
fn wrong_types_are_refused() {
    assert_eq!(read(r#"{"nodes": 3}"#).err().unwrap(), "invalid type: integer `3`, expected a sequence");
    assert_eq!(read(r#"{"nodes": [{"onError": -2}]}"#).err().unwrap(), "invalid type: integer `-2`, expected a string");
    assert_eq!(read(r#"{"nodes": [[1]]}"#).err().unwrap(), "invalid type: integer `1`, expected a string");
    assert_eq!(read(r#"{"nodes": [{"notes": {}}]}"#).err().unwrap(), "invalid type: map, expected a string");
    assert_eq!(read(r#"{"nodes": [{"id": []}]}"#).err().unwrap(), "invalid type: sequence, expected a string");
    assert_eq!(read(r#"{"nodes": [false]}"#).err().unwrap(), "invalid type: boolean `false`, expected struct Node");
    assert_eq!(read(r#""text""#).err().unwrap(), "invalid type: string \"text\", expected struct Workflow");
    assert_eq!(read(r#"null"#).err().unwrap(), "invalid type: unit value, expected struct Workflow");
}

#[test]
fn workflow_as_an_array() {
    let w = read(r#"["W", [], null, null, ["t"]]"#).unwrap();
    assert_eq!(w.name.as_deref(), Some("W"));
    assert_eq!(w.nodes.as_ref().unwrap().len(), 0);
    assert!(w.tags.is_some());
    assert_eq!(read(r#"["W"]"#).err().unwrap(), "invalid length 1, expected struct Workflow with 5 elements");
    assert_eq!(
        read(r#"["W", [], null, null, null, 1]"#).err().unwrap(),
        "invalid length 6, expected fewer elements in array"
    );
}

#[test]
fn null_fields_are_absent() {
    let w = read(r#"{"name": null, "nodes": null}"#).unwrap();
    assert!(w.name.is_none());
    assert!(w.nodes.is_none());
}

#[test]
fn decimal_numerals() {
    assert_eq!(decimal_string(0), "0");
    assert_eq!(decimal_string(300000), "300000");
    assert_eq!(decimal_string(u64::MAX), "18446744073709551615");
    assert_eq!(signed_decimal_string(-42), "-42");
    assert_eq!(signed_decimal_string(i64::MIN), "-9223372036854775808");
    assert_eq!(signed_decimal_string(7), "7");
}

#[test]
fn trimming_unicode_white_space() {
    assert_eq!(trim_str(" \u{3000}a b\t\n"), "a b");
    assert_eq!(trim_str("   "), "");
    assert!(str_contains("hello world", "o w"));
    assert!(str_contains("abc", ""));
    assert!(!str_contains("abc", "abcd"));
}

#[test]
fn json_string_literal_matches_serde_json() {
    for s in ["", "plain", "q\"uote", "back\\slash", "\u{8}\t\n\u{c}\r", "\u{1}\u{1f}\u{7f}", "\u{e9}\u{2014}x"] {
        assert_eq!(n8n_lint::json::json_string_literal(s), serde_json::to_string(s).unwrap());
    }
    assert_eq!(n8n_lint::json::json_string_literal("\u{1b}"), "\"\\u001b\"");
}
