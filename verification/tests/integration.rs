use n8n_lint::finding::{Finding, LintResult, Severity};
use n8n_lint::json::{FloatNumber, JsonNumber, JsonValue};

fn described(f: f64) -> String {
    let s = format!("{}", f);
    if f.is_finite() && !s.contains('.') {
        format!("{}.0", s)
    } else {
        s
    }
}

fn convert(v: serde_json::Value) -> JsonValue {
    match v {
        serde_json::Value::Null => JsonValue::Null,
        serde_json::Value::Bool(b) => JsonValue::Bool(b),
        serde_json::Value::Number(n) => {
            if let Some(u) = n.as_u64() {
                JsonValue::Number(JsonNumber::PosInt(u))
            } else if let Some(i) = n.as_i64() {
                JsonValue::Number(JsonNumber::NegInt(i))
            } else {
                let f = n.as_f64().unwrap_or(0.0);
                JsonValue::Number(JsonNumber::Float(FloatNumber {
                    text: n.to_string(),
                    described: described(f),
                    whole: f as u64,
                }))
            }
        }
        serde_json::Value::String(s) => JsonValue::String(s),
        serde_json::Value::Array(a) => JsonValue::Array(a.into_iter().map(convert).collect()),
        serde_json::Value::Object(m) => {
            JsonValue::Object(m.into_iter().map(|(k, v)| (k, convert(v))).collect())
        }
    }
}

fn parse(text: &str) -> Result<JsonValue, String> {
    match serde_json::from_str::<serde_json::Value>(text) {
        Ok(v) => Ok(convert(v)),
        Err(e) => Err(e.to_string()),
    }
}

fn lint(text: &str) -> LintResult {
    n8n_lint::lint(parse(text))
}

fn rules_of(result: &LintResult) -> Vec<&str> {
    result.findings.iter().map(|f| f.rule.as_str()).collect()
}

// ── JSON & Schema ─────────────────────────────────────────────────

#[test]
fn invalid_json() {
    let result = lint("this is not json {{{");
    assert!(!result.valid);
    assert!(result.findings.iter().any(|f| f.rule == "invalid-json"));
}

#[test]
fn missing_nodes_field() {
    let result = lint(r#"{"name": "test"}"#);
    assert!(!result.valid);
    assert!(result.findings.iter().any(|f| f.rule == "missing-nodes"));
}

#[test]
fn nodes_not_array() {
    let result = lint(r#"{"name": "test", "nodes": "not an array"}"#);
    assert!(!result.valid);
    assert!(result.findings.iter().any(|f| f.rule == "invalid-nodes"));
}

// ── SSH Rules ────────────────────────────────────────────────────

#[test]
fn ssh_with_bash_wrapper_ok() {
    // A properly wrapped SSH command should not trigger the rule
    let json = r#"{
        "name": "test",
        "nodes": [{
            "id": "ssh-ok",
            "name": "Good SSH",
            "type": "n8n-nodes-base.ssh",
            "typeVersion": 1,
            "parameters": {
                "resource": "command",
                "operation": "execute",
                "command": "bash -c 'export PATH=/usr/local/bin:$PATH && gh run download'"
            },
            "position": [0, 0]
        }]
    }"#;
    let result = lint(json);
    let ssh_findings: Vec<_> = result
        .findings
        .iter()
        .filter(|f| f.rule == "ssh-bash-wrapper" || f.rule == "ssh-resource-operation")
        .collect();
    assert!(
        ssh_findings.is_empty(),
        "Properly wrapped SSH command should not trigger: {:?}",
        ssh_findings
    );
}

// ── ntfy Rules ───────────────────────────────────────────────────

#[test]
fn ntfy_ascii_headers() {
    // ntfy node with non-ASCII characters in header values
    let json = r#"{
        "name": "test",
        "nodes": [{
            "id": "ntfy-bad",
            "name": "Notify ntfy",
            "type": "n8n-nodes-base.httpRequest",
            "typeVersion": 4.1,
            "parameters": {
                "url": "http://172.17.0.1:8080",
                "method": "POST",
                "sendHeaders": true,
                "headerParameters": {
                    "parameters": [
                        {"name": "Authorization", "value": "Basic YWRtaW46MTIzNDU2Nzg="},
                        {"name": "Title", "value": "PR Review \u2014 Complete"}
                    ]
                },
                "body": "={{ JSON.stringify({ topic: 'test', message: 'done' }) }}"
            },
            "position": [0, 0]
        }]
    }"#;
    let result = lint(json);
    let findings: Vec<_> = result
        .findings
        .iter()
        .filter(|f| f.rule == "ntfy-ascii-headers")
        .collect();
    assert!(
        !findings.is_empty(),
        "Expected ntfy-ascii-headers finding for em dash"
    );
}

// ── Gotchas ──────────────────────────────────────────────────────

#[test]
fn expression_syntax_unmatched() {
    let json = r#"{
        "name": "test",
        "nodes": [{
            "id": "bad-expr",
            "name": "Bad Expression",
            "type": "n8n-nodes-base.httpRequest",
            "typeVersion": 4.1,
            "parameters": {
                "url": "http://example.com/{{ $json.id }"
            },
            "position": [0, 0]
        }]
    }"#;
    let result = lint(json);
    let findings: Vec<_> = result
        .findings
        .iter()
        .filter(|f| f.rule == "expression-syntax")
        .collect();
    assert!(
        !findings.is_empty(),
        "Expected expression-syntax finding for unmatched {{ }}"
    );
}

#[test]
fn opencode_timeout_too_low() {
    let json = r#"{
        "name": "test",
        "nodes": [{
            "id": "oc-req",
            "name": "Call OpenCode",
            "type": "n8n-nodes-base.httpRequest",
            "typeVersion": 4.1,
            "parameters": {
                "url": "http://172.17.0.1:4096/session/sess_123/message",
                "method": "POST",
                "timeout": 30000
            },
            "position": [0, 0]
        }]
    }"#;
    let result = lint(json);
    let findings: Vec<_> = result
        .findings
        .iter()
        .filter(|f| f.rule == "opencode-timeout")
        .collect();
    assert!(
        !findings.is_empty(),
        "Expected opencode-timeout finding for 30s timeout"
    );
}

// ── Output Formats ───────────────────────────────────────────────

#[test]
fn human_format_clean_workflow() {
    let empty_result = LintResult::new(vec![]);
    let output = n8n_lint::format_human(&empty_result, "test.json");
    assert!(output.contains("All checks passed"));
}

#[test]
fn human_format_with_findings() {
    let result = lint("not json");
    let output = n8n_lint::format_human(&result, "bad.json");
    assert!(output.contains("invalid-json"));
    assert!(output.contains("Errors"));
}

// ── Own tests: lint ──────────────────────────────────────────────

#[test]
fn invalid_json_exact_finding() {
    let result = lint("not json");
    assert_eq!(result.findings.len(), 1);
    assert_eq!(result.errors, 1);
    assert_eq!(result.warnings, 0);
    let f = &result.findings[0];
    assert_eq!(f.severity, Severity::Error);
    assert_eq!(f.message, "Failed to parse JSON: expected ident at line 1 column 2");
    assert!(f.node_id.is_none() && f.node_name.is_none() && f.suggestion.is_none());
}

#[test]
fn missing_nodes_exact_finding() {
    let result = lint(r#"[1, 2]"#);
    assert_eq!(rules_of(&result), vec!["missing-nodes"]);
    assert_eq!(result.findings[0].message, "Workflow JSON missing required 'nodes' array");
    assert_eq!(
        result.findings[0].suggestion.as_deref(),
        Some("n8n workflows must have a top-level 'nodes' array")
    );
    assert_eq!(result.errors, 1);
}

#[test]
fn nodes_null_is_present_but_not_an_array() {
    let result = lint(r#"{"nodes": null}"#);
    assert_eq!(rules_of(&result), vec!["invalid-nodes"]);
    assert_eq!(
        result.findings[0].suggestion.as_deref(),
        Some("'nodes' must be a JSON array of node objects")
    );
}

#[test]
fn schema_error_for_wrong_field_type() {
    let result = lint(r#"{"name": 5, "nodes": []}"#);
    assert_eq!(rules_of(&result), vec!["schema-error"]);
    assert_eq!(
        result.findings[0].message,
        "Failed to parse workflow structure: invalid type: integer `5`, expected a string"
    );
    assert!(!result.valid);
}

#[test]
fn schema_error_for_wrong_node_field_type() {
    let result = lint(r#"{"nodes": [{"name": "A", "type": true}]}"#);
    assert_eq!(rules_of(&result), vec!["schema-error"]);
    assert_eq!(
        result.findings[0].message,
        "Failed to parse workflow structure: invalid type: boolean `true`, expected a string"
    );
}

#[test]
fn schema_error_for_float_in_string_field() {
    let result = lint(r#"{"nodes": [{"id": 1.5}]}"#);
    assert_eq!(
        result.findings[0].message,
        "Failed to parse workflow structure: invalid type: floating point `1.5`, expected a string"
    );
}

#[test]
fn schema_error_for_string_in_nodes_item() {
    let result = lint(r#"{"nodes": ["x"]}"#);
    assert_eq!(
        result.findings[0].message,
        "Failed to parse workflow structure: invalid type: string \"x\", expected struct Node"
    );
}

#[test]
fn node_missing_type_is_an_error_naming_its_index() {
    let result = lint(r#"{"nodes": [
        {"id": "a", "name": "First", "type": "n8n-nodes-base.errorTrigger"},
        {"id": "b", "name": "Second"}
    ]}"#);
    let f: Vec<&Finding> = result.findings.iter().filter(|f| f.rule == "node-missing-type").collect();
    assert_eq!(f.len(), 1);
    assert_eq!(f[0].message, "Node at index 1 missing 'type' field");
    assert_eq!(f[0].node_id.as_deref(), Some("b"));
    assert_eq!(f[0].node_name.as_deref(), Some("Second"));
    assert!(!result.valid);
    assert!(result.errors >= 1);
}

#[test]
fn empty_workflow_gets_best_practice_findings() {
    let result = lint(r#"{"nodes": []}"#);
    assert_eq!(rules_of(&result), vec!["missing-error-handling", "missing-ntfy-notification"]);
    assert_eq!(result.errors, 0);
    assert_eq!(result.warnings, 2);
    assert_eq!(result.findings[0].severity, Severity::Warning);
    assert!(!result.valid);
}

#[test]
fn clean_workflow_is_valid() {
    let result = lint(r#"{"nodes": [
        {"id": "e", "name": "On Error", "type": "n8n-nodes-base.errorTrigger", "position": [0, 0]},
        {"id": "n", "name": "Notify done", "type": "n8n-nodes-base.httpRequest",
         "parameters": {"url": "http://ntfy.example/topic",
             "headerParameters": {"parameters": [{"name": "Authorization", "value": "Basic x"}]}},
         "position": [200, 0]}
    ]}"#);
    assert!(result.findings.is_empty(), "{:?}", result.findings);
    assert!(result.valid);
    assert_eq!(result.errors, 0);
    assert_eq!(result.warnings, 0);
}

#[test]
fn findings_come_in_rule_order() {
    // Missing types first, then per-node rules node by node, then best
    // practices, then workflow gotchas.
    let result = lint(r#"{"tags": [{"name": "t"}], "nodes": [
        {"id": "s", "name": "Shell", "type": "n8n-nodes-base.ssh",
         "parameters": {"operation": "execute", "command": "export A=1"}, "position": [0, 0]},
        {"id": "x", "name": "Untyped", "position": [0, 0]}
    ]}"#);
    assert_eq!(
        rules_of(&result),
        vec![
            "node-missing-type",
            "ssh-resource-operation",
            "ssh-bash-wrapper",
            "missing-error-handling",
            "missing-ntfy-notification",
            "tags-format",
            "duplicate-node-position",
        ]
    );
    assert_eq!(result.errors + result.warnings, result.findings.len());
}

#[test]
fn per_node_findings_name_their_node() {
    let result = lint(r#"{"nodes": [
        {"id": "c1", "name": "Code A", "type": "n8n-nodes-base.code",
         "parameters": {"jsCode": "const fs = require('fs'); const p = require(\"path/posix\");"}},
        {"id": "x1", "name": "Exec", "type": "n8n-nodes-base.executeCommand"}
    ]}"#);
    for f in &result.findings {
        match f.rule.as_str() {
            "code-forbidden-require" => {
                assert_eq!(f.node_id.as_deref(), Some("c1"));
                assert_eq!(f.node_name.as_deref(), Some("Code A"));
            }
            "invalid-node-type" => {
                assert_eq!(f.node_id.as_deref(), Some("x1"));
                assert_eq!(f.node_name.as_deref(), Some("Exec"));
            }
            _ => {}
        }
    }
    let requires: Vec<&str> = result
        .findings
        .iter()
        .filter(|f| f.rule == "code-forbidden-require")
        .map(|f| f.message.as_str())
        .collect();
    assert_eq!(
        requires,
        vec![
            "Code node uses require('fs') which is blocked in n8n's sandbox",
            "Code node uses require('path') which is blocked in n8n's sandbox",
        ]
    );
}

#[test]
fn lint_checked_quotes_a_cut_comment_of_wide_characters() {
    // The last line is a cut comment of more than 60 bytes whose 57th byte
    // falls inside a multi-byte character: it is quoted up to byte 56.
    let comment = format!("// {}\u{00e9}more words here", "a".repeat(53));
    let code = format!("const x = 1;\nif (x) {{ return [x]; }}\nconst y = 2; const z = 3; const w = 4;\n{}", comment);
    let node = serde_json::to_string(&code).unwrap();
    let text = format!(
        "{{\"nodes\": [{{\"type\": \"n8n-nodes-base.code\", \"parameters\": {{\"jsCode\": {}}}}}]}}",
        node
    );
    let result = n8n_lint::lint_checked(parse(&text)).unwrap();
    let cut: Vec<&Finding> = result.findings.iter().filter(|f| f.rule == "code-truncated").collect();
    assert_eq!(cut.len(), 1);
    assert!(cut[0].message.contains(&format!("\"// {}...\"", "a".repeat(53))));
}

#[test]
fn lint_runs_the_extract_from_file_rules() {
    let result = lint(r#"{"nodes":[{"name":"Extract","type":"n8n-nodes-base.extractFromFile","parameters":{"operation":"json"}}]}"#);
    assert!(result.findings.iter().any(|f| f.rule == "extract-from-file-operation"
        && f.severity == Severity::Error
        && f.suggestion == Some("Did you mean \"fromJson\"?".to_string())));
}

#[test]
fn human_format_exact_text() {
    let result = lint("not json");
    let output = n8n_lint::format_human(&result, "bad.json");
    let expected = format!(
        "bad.json\n========\n\nErrors (1)\n{}\n  invalid-json: Failed to parse JSON: expected ident at line 1 column 2\n\nSummary: 1 error(s), 0 warning(s)\n",
        "-".repeat(40)
    );
    assert_eq!(output, expected);
}

#[test]
fn human_format_groups_by_severity() {
    let findings = vec![
        Finding::warning("w-rule", "msg").with_node(Some("id1"), Some("Name")).with_suggestion("do x"),
        Finding::error("e-rule", "bad").with_node(None, Some("N2")),
        Finding::warning("w2", "m").with_node(Some("i3"), None),
    ];
    let result = LintResult::new(findings);
    assert_eq!(result.errors, 1);
    assert_eq!(result.warnings, 2);
    assert!(!result.valid);
    let output = n8n_lint::format_human(&result, "wf.json");
    let dashes = "-".repeat(40);
    let expected = format!(
        "wf.json\n=======\n\nErrors (1)\n{dashes}\n  e-rule: bad [N2]\n\nWarnings (2)\n{dashes}\n  w-rule: msg [Name] (id1)\n    -> do x\n  w2: m (i3)\n\nSummary: 1 error(s), 2 warning(s)\n"
    );
    assert_eq!(output, expected);
}

#[test]
fn human_format_underline_counts_bytes() {
    let result = LintResult::new(vec![Finding::error("r", "m")]);
    let output = n8n_lint::format_human(&result, "\u{e9}.json");
    assert!(output.starts_with("\u{e9}.json\n=======\n"));
}

#[test]
fn human_format_clean_exact_text() {
    let output = n8n_lint::format_human(&LintResult::new(vec![]), "ok.json");
    assert_eq!(output, "ok.json: All checks passed\n");
}

#[test]
fn format_finding_appends_one_finding() {
    let mut out = String::from("> ");
    let f = Finding::error("r1", "the message").with_suggestion("fix it");
    n8n_lint::format_finding(&mut out, &f);
    assert_eq!(out, ">   r1: the message\n    -> fix it\n");
}

#[test]
fn report_lists_every_finding() {
    let result = lint(r#"{"tags": [{"name": "t"}], "nodes": [
        {"id": "s", "name": "Shell", "type": "n8n-nodes-base.ssh",
         "parameters": {"operation": "execute", "command": "export A=1"}, "position": [0, 0]},
        {"id": "x", "name": "Untyped", "position": [0, 0]}
    ]}"#);
    let output = n8n_lint::format_human(&result, "w.json");
    for f in &result.findings {
        let mut one = String::new();
        n8n_lint::format_finding(&mut one, f);
        assert!(output.contains(&one), "missing {:?}", f);
    }
}

#[test]
fn severity_names() {
    assert_eq!(Severity::Error.as_str(), "error");
    assert_eq!(Severity::Warning.as_str(), "warning");
}

#[test]
fn lint_checked_agrees_with_lint() {
    let text = r#"{"nodes": [{"id": "a", "name": "A"}]}"#;
    let checked = n8n_lint::lint_checked(parse(text)).unwrap();
    let plain = lint(text);
    assert_eq!(rules_of(&checked), rules_of(&plain));
    assert!(n8n_lint::lint_checked(parse("nope")).is_some());
}
