use n8n_lint::json::JsonValue;
use n8n_lint::model::{Node, Workflow};
use n8n_lint::rules::extract_from_file::{check_all, check_operation, find_suggestion};

fn convert(v: serde_json::Value) -> JsonValue {
    match v {
        serde_json::Value::Null => JsonValue::Null,
        serde_json::Value::Bool(b) => JsonValue::Bool(b),
        serde_json::Value::Number(n) => match n.as_u64() {
            Some(u) => JsonValue::Number(n8n_lint::json::JsonNumber::PosInt(u)),
            None => match n.as_i64() {
                Some(i) => JsonValue::Number(n8n_lint::json::JsonNumber::NegInt(i)),
                None => panic!("floats are not used in these tests"),
            },
        },
        serde_json::Value::String(s) => JsonValue::String(s),
        serde_json::Value::Array(a) => JsonValue::Array(a.into_iter().map(convert).collect()),
        serde_json::Value::Object(m) => {
            JsonValue::Object(m.into_iter().map(|(k, v)| (k, convert(v))).collect())
        }
    }
}

fn node(json: &str) -> Node {
    let text = format!("{{\"nodes\": [{}]}}", json);
    let value = convert(serde_json::from_str(&text).unwrap());
    let workflow = Workflow::from_json(value).unwrap();
    workflow.nodes.unwrap().into_iter().next().unwrap()
}

#[test]
fn fuzzy_json_to_from_json() {
    assert_eq!(find_suggestion("json"), Some("fromJson"));
}

#[test]
fn fuzzy_ics_to_from_ics() {
    assert_eq!(find_suggestion("ics"), Some("fromIcs"));
}

#[test]
fn fuzzy_case_insensitive_fromjson() {
    assert_eq!(find_suggestion("FROMJSON"), Some("fromJson"));
}

#[test]
fn fuzzy_binary_to_property_typo() {
    assert_eq!(find_suggestion("binaryToProperty"), Some("binaryToPropery"));
}

#[test]
fn fuzzy_excel_to_xlsx() {
    assert_eq!(find_suggestion("excel"), Some("xlsx"));
}

#[test]
fn fuzzy_no_match_for_garbage() {
    assert_eq!(find_suggestion("notarealformat"), None);
}

#[test]
fn fuzzy_case_insensitive_csv() {
    assert_eq!(find_suggestion("CSV"), Some("csv"));
}

#[test]
fn fuzzy_ical_to_from_ics() {
    assert_eq!(find_suggestion("ical"), Some("fromIcs"));
}

#[test]
fn fuzzy_substring_match() {
    // "jso" is not in the table and matches no operation exactly, but it is
    // held in "fromjson".
    assert_eq!(find_suggestion("jso"), Some("fromJson"));
    // "pdfs" holds "pdf".
    assert_eq!(find_suggestion("pdfs"), Some("pdf"));
}

#[test]
fn fuzzy_suggestion_is_a_valid_operation() {
    let valid = [
        "binaryToPropery", "csv", "html", "fromIcs", "fromJson", "ods", "pdf", "rtf", "text",
        "xls", "xlsx", "xml",
    ];
    for input in ["json", "Excel", "TSV", "rich_text", "spreadsheet", "HTML", "x", "od"] {
        let s = find_suggestion(input).unwrap();
        assert!(valid.contains(&s), "{} gave {}", input, s);
    }
}

#[test]
fn fuzzy_same_lowercase_same_suggestion() {
    assert_eq!(find_suggestion("Ical"), find_suggestion("iCAL"));
    assert_eq!(find_suggestion("RichText"), Some("rtf"));
}

#[test]
fn valid_operation_gives_no_finding() {
    let n = node(r#"{"id": "e1", "name": "Extract", "type": "n8n-nodes-base.extractFromFile",
        "parameters": {"operation": "fromJson"}}"#);
    assert!(n.is_extract_from_file());
    assert!(check_operation(&n).is_empty());
}

#[test]
fn missing_operation_is_an_error() {
    let n = node(r#"{"id": "e1", "name": "Extract", "type": "n8n-nodes-base.extractFromFile",
        "parameters": {}}"#);
    let f = check_operation(&n);
    assert_eq!(f.len(), 1);
    assert_eq!(f[0].rule, "extract-from-file-operation");
    assert_eq!(f[0].message, "extractFromFile node is missing the 'operation' parameter");
    assert_eq!(
        f[0].suggestion.as_deref(),
        Some("Add an 'operation' parameter with one of: binaryToPropery, csv, html, fromIcs, fromJson, ods, pdf, rtf, text, xls, xlsx, xml")
    );
    assert_eq!(f[0].node_id.as_deref(), Some("e1"));
    assert_eq!(f[0].node_name.as_deref(), Some("Extract"));
}

#[test]
fn unknown_operation_suggests_the_likely_one() {
    let n = node(r#"{"id": "e2", "name": "Extract", "type": "n8n-nodes-base.extractFromFile",
        "parameters": {"operation": "json"}}"#);
    let f = check_all(&n);
    assert_eq!(f.len(), 1);
    assert_eq!(
        f[0].message,
        "Unknown extractFromFile operation \"json\". Valid operations are: binaryToPropery, csv, html, fromIcs, fromJson, ods, pdf, rtf, text, xls, xlsx, xml"
    );
    assert_eq!(f[0].suggestion.as_deref(), Some("Did you mean \"fromJson\"?"));
}

#[test]
fn unknown_operation_without_suggestion() {
    let n = node(r#"{"type": "n8n-nodes-base.extractFromFile",
        "parameters": {"operation": "zzzzzzzzzzzz"}}"#);
    let f = check_operation(&n);
    assert_eq!(f.len(), 1);
    assert_eq!(
        f[0].suggestion.as_deref(),
        Some("Use one of: binaryToPropery, csv, html, fromIcs, fromJson, ods, pdf, rtf, text, xls, xlsx, xml")
    );
}

#[test]
fn other_node_types_are_not_checked() {
    let n = node(r#"{"type": "n8n-nodes-base.code", "parameters": {"operation": "json"}}"#);
    assert!(check_operation(&n).is_empty());
}

#[test]
fn fuzzy_valid_operation_maps_to_itself() {
    for op in [
        "binaryToPropery", "csv", "html", "fromIcs", "fromJson", "ods", "pdf", "rtf", "text",
        "xls", "xlsx", "xml",
    ] {
        assert_eq!(find_suggestion(op), Some(op));
    }
}
