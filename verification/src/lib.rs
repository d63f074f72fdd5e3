//! An opinionated linter for n8n workflow JSON: it reads a workflow, runs
//! per-node and workflow-level rules over it, and reports findings, each with
//! its rule, severity, message, node and suggestion.
pub mod finding;
pub mod foreign;
pub mod json;
pub mod model;
pub mod rules;
pub mod text;

use vstd::prelude::*;
use crate::finding::{
    about_node, count_severity, counts_findings, finding, lemma_count_severity_concat, opt_text,
    views, Finding, FindingView, LintResult, Severity,
};
use crate::json::{get, JsonValue};
use crate::model::{decode_workflow, Node, Workflow};
use crate::rules::best_practices::best_practice_findings;
use crate::rules::code_node::{
    byte_len, code_checkable, code_node_findings, lemma_code_findings_about_node,
};
use crate::rules::extract_from_file::{extract_from_file_findings, lemma_extract_findings_about_node};
use crate::rules::gotchas::{
    lemma_node_gotchas_about_node, node_gotcha_findings, workflow_gotcha_findings,
};
use crate::rules::ntfy::{lemma_ntfy_findings_about_node, ntfy_findings};
use crate::rules::ssh::{lemma_ssh_findings_about_node, ssh_findings};
use crate::text::{contains, decimal, decimal_string, occurs_at};

verus! {

/// The JSON text as it was read: the value, or the parser's error message.
pub open spec fn parsed_text(parsed: Result<JsonValue, String>) -> Result<JsonValue, Seq<char>> {
    match parsed {
        Ok(v) => Ok(v),
        Err(e) => Err(e@),
    }
}

/// One error for each node of `nodes` without a type, naming its index.
pub open spec fn missing_type_findings(nodes: Seq<Node>) -> Seq<FindingView>
    decreases nodes.len(),
{
    if nodes.len() == 0 {
        seq![]
    } else {
        let n = nodes.last();
        missing_type_findings(nodes.drop_last()) + if n.node_type is None {
            seq![
                finding(
                    "node-missing-type"@,
                    Severity::Error,
                    "Node at index "@ + decimal((nodes.len() - 1) as nat) + " missing 'type' field"@,
                ).at_node(opt_text(n.id), opt_text(n.name)),
            ]
        } else {
            seq![]
        }
    }
}

/// The per-node rules on each node in turn: SSH, ntfy, Code node,
/// extractFromFile, gotchas.
pub open spec fn per_node_findings(nodes: Seq<Node>) -> Seq<FindingView>
    decreases nodes.len(),
{
    if nodes.len() == 0 {
        seq![]
    } else {
        per_node_findings(nodes.drop_last()) + node_findings(nodes.last())
    }
}

/// The per-node rules on one node: SSH, ntfy, Code node, gotchas.
#[verifier::opaque]
pub open spec fn node_findings(n: Node) -> Seq<FindingView> {
    ssh_findings(n) + ntfy_findings(n) + code_node_findings(n) + extract_from_file_findings(n)
        + node_gotcha_findings(n)
}

/// What linting finds in a JSON text that was read as `parsed`: a single
/// error when it is not JSON, when it has no `nodes` member, when `nodes` is
/// not an array, or when it is not a workflow; otherwise the nodes without a
/// type, the per-node rules node by node, the best practices and the
/// workflow-level gotchas.
pub open spec fn lint_findings(parsed: Result<JsonValue, Seq<char>>) -> Seq<FindingView> {
    match parsed {
        Err(e) => seq![finding("invalid-json"@, Severity::Error, "Failed to parse JSON: "@ + e)],
        Ok(v) => match get(v, "nodes"@) {
            None => seq![
                finding(
                    "missing-nodes"@,
                    Severity::Error,
                    "Workflow JSON missing required 'nodes' array"@,
                ).suggesting("n8n workflows must have a top-level 'nodes' array"@),
            ],
            Some(nodes) => if !(nodes is Array) {
                seq![
                    finding(
                        "invalid-nodes"@,
                        Severity::Error,
                        "'nodes' field is not an array"@,
                    ).suggesting("'nodes' must be a JSON array of node objects"@),
                ]
            } else {
                match decode_workflow(v) {
                    Err(e) => seq![
                        finding(
                            "schema-error"@,
                            Severity::Error,
                            "Failed to parse workflow structure: "@ + e,
                        ),
                    ],
                    Ok(w) => match w.nodes {
                        None => seq![],
                        Some(ns) => missing_type_findings(ns) + per_node_findings(ns)
                            + best_practice_findings(ns) + workflow_gotcha_findings(w.tags, ns),
                    },
                }
            },
        },
    }
}

/// Linting `parsed` cannot overflow: when it holds a workflow whose nodes are
/// checked, the brace count of every Code node with at least 80 bytes of
/// JavaScript fits its integer types (see `code_checkable`). Every other
/// input, whatever its nodes hold, can be linted.
pub open spec fn lintable(parsed: Result<JsonValue, Seq<char>>) -> bool {
    match parsed {
        Ok(v) => match get(v, "nodes"@) {
            Some(nodes) => nodes is Array ==> match decode_workflow(v) {
                Ok(w) => match w.nodes {
                    Some(ns) => forall|i: int| 0 <= i < ns.len() ==> code_checkable(#[trigger] ns[i]),
                    None => true,
                },
                Err(_) => true,
            },
            None => true,
        },
        Err(_) => true,
    }
}

/// `parsed` is refused before any rule runs: it is not JSON, has no `nodes`
/// member, its `nodes` is not an array, or it does not read as a workflow.
pub open spec fn refused(parsed: Result<JsonValue, Seq<char>>) -> bool {
    match parsed {
        Err(_) => true,
        Ok(v) => match get(v, "nodes"@) {
            None => true,
            Some(nodes) => !(nodes is Array) || decode_workflow(v) is Err,
        },
    }
}

/// A refused input is answered with exactly one finding, an error, so its
/// result is not valid.
pub proof fn lemma_refused_input_is_one_error(parsed: Result<JsonValue, Seq<char>>, r: LintResult)
    requires
        refused(parsed),
        counts_findings(r, lint_findings(parsed)),
    ensures
        r.findings.len() == 1,
        r.findings@[0]@.severity == Severity::Error,
        r.errors == 1,
        r.warnings == 0,
        !r.valid,
{
    let fs = lint_findings(parsed);
    assert(fs.len() == 1);
    assert(fs[0].severity == Severity::Error);
    assert(fs.drop_last() =~= Seq::<FindingView>::empty());
    assert(count_severity(fs.drop_last(), Severity::Error) == 0);
    assert(count_severity(fs.drop_last(), Severity::Warning) == 0);
    assert(fs.last() == fs[0]);
    assert(views(r.findings@)[0] == r.findings@[0]@);
}

/// The nodes that the rules run on, when `parsed` is not refused and its
/// workflow has nodes.
pub open spec fn checked_nodes(parsed: Result<JsonValue, Seq<char>>) -> Option<Seq<Node>> {
    match parsed {
        Ok(v) => match get(v, "nodes"@) {
            Some(nodes) => if nodes is Array {
                match decode_workflow(v) {
                    Ok(w) => w.nodes,
                    Err(_) => None,
                }
            } else {
                None
            },
            None => None,
        },
        Err(_) => None,
    }
}

/// Some node of `nodes` has no type.
pub open spec fn has_untyped_node(nodes: Seq<Node>) -> bool {
    exists|i: int| 0 <= i < nodes.len() && (#[trigger] nodes[i]).node_type is None
}

/// Each node without a type gives an error.
proof fn lemma_untyped_node_error(nodes: Seq<Node>)
    requires
        has_untyped_node(nodes),
    ensures
        count_severity(missing_type_findings(nodes), Severity::Error) >= 1,
    decreases nodes.len(),
{
    let rest = nodes.drop_last();
    let last_part = missing_type_findings(nodes).subrange(
        missing_type_findings(rest).len() as int,
        missing_type_findings(nodes).len() as int,
    );
    assert(missing_type_findings(nodes) =~= missing_type_findings(rest) + last_part);
    lemma_count_severity_concat(missing_type_findings(rest), last_part, Severity::Error);
    if nodes.last().node_type is None {
        assert(last_part.len() == 1);
        assert(last_part.drop_last() =~= Seq::<FindingView>::empty());
    } else {
        let i = choose|i: int| 0 <= i < nodes.len() && (#[trigger] nodes[i]).node_type is None;
        assert(rest[i] == nodes[i]);
        lemma_untyped_node_error(rest);
    }
}

/// A workflow with a node that has no type is not valid: its result counts
/// at least one error.
pub proof fn lemma_untyped_node_is_invalid(parsed: Result<JsonValue, Seq<char>>, r: LintResult)
    requires
        counts_findings(r, lint_findings(parsed)),
        checked_nodes(parsed) matches Some(ns) && has_untyped_node(ns),
    ensures
        r.errors >= 1,
        !r.valid,
{
    let v = parsed->Ok_0;
    let w = decode_workflow(v)->Ok_0;
    let ns = w.nodes->Some_0;
    lemma_untyped_node_error(ns);
    let a = missing_type_findings(ns);
    let b = per_node_findings(ns) + best_practice_findings(ns) + workflow_gotcha_findings(w.tags, ns);
    assert(lint_findings(parsed) =~= a + b);
    lemma_count_severity_concat(a, b, Severity::Error);
}

/// Every finding that the per-node rules make on a node names that node: its
/// id and its name.
pub proof fn lemma_node_findings_name_the_node(n: Node)
    ensures
        about_node(node_findings(n), opt_text(n.id), opt_text(n.name)),
{
    reveal(node_findings);
    lemma_ssh_findings_about_node(n);
    lemma_ntfy_findings_about_node(n);
    lemma_code_findings_about_node(n);
    lemma_node_gotchas_about_node(n);
    lemma_extract_findings_about_node(n);
    let a = ssh_findings(n);
    let b = ntfy_findings(n);
    let c = code_node_findings(n);
    let e = extract_from_file_findings(n);
    let d = node_gotcha_findings(n);
    let all = a + b + c + e + d;
    assert forall|i: int| 0 <= i < all.len() implies (#[trigger] all[i]).node_id == opt_text(n.id)
        && all[i].node_name == opt_text(n.name) by {
        if i < a.len() {
            assert(all[i] == a[i]);
        } else if i < a.len() + b.len() {
            assert(all[i] == b[i - a.len()]);
        } else if i < a.len() + b.len() + c.len() {
            assert(all[i] == c[i - a.len() - b.len()]);
        } else if i < a.len() + b.len() + c.len() + e.len() {
            assert(all[i] == e[i - a.len() - b.len() - c.len()]);
        } else {
            assert(all[i] == d[i - a.len() - b.len() - c.len() - e.len()]);
        }
    }
}

/// The per-node rules on one node.
fn node_checks(node: &Node) -> (r: Vec<Finding>)
    requires
        code_checkable(*node),
    ensures
        views(r@) == node_findings(*node),
{
    reveal(node_findings);
    let mut findings = rules::ssh::check_all(node);
    let mut more = rules::ntfy::check_all(node);
    findings.append(&mut more);
    let mut more = rules::code_node::check_all(node);
    findings.append(&mut more);
    let mut more = rules::extract_from_file::check_all(node);
    findings.append(&mut more);
    let mut more = rules::gotchas::check_node(node);
    findings.append(&mut more);
    assert(views(findings@) =~= ssh_findings(*node) + ntfy_findings(*node) + code_node_findings(
        *node,
    ) + extract_from_file_findings(*node) + node_gotcha_findings(*node));
    findings
}

/// The findings of all rules on the workflow `w` with nodes `nodes`.
fn workflow_checks(w: &Workflow, nodes: &Vec<Node>) -> (r: Vec<Finding>)
    requires
        forall|i: int| 0 <= i < nodes@.len() ==> code_checkable(#[trigger] nodes@[i]),
    ensures
        views(r@) == missing_type_findings(nodes@) + per_node_findings(nodes@)
            + best_practice_findings(nodes@) + workflow_gotcha_findings(w.tags, nodes@),
{
    let mut findings: Vec<Finding> = Vec::new();
    let mut i: usize = 0;
    assert(nodes@.subrange(0, 0) =~= Seq::<Node>::empty());
    while i < nodes.len()
        invariant
            i <= nodes.len(),
            views(findings@) == missing_type_findings(nodes@.subrange(0, i as int)),
        decreases nodes.len() - i,
    {
        let ghost prefix = nodes@.subrange(0, i + 1);
        assert(prefix.drop_last() =~= nodes@.subrange(0, i as int));
        let node = &nodes[i];
        if node.node_type.is_none() {
            let mut msg = String::from_str("Node at index ");
            let d = decimal_string(i as u64);
            msg.append(d.as_str());
            msg.append(" missing 'type' field");
            let f = Finding::error("node-missing-type", msg.as_str()).with_node(
                node.id_str(),
                node.name_str(),
            );
            let ghost before = views(findings@);
            findings.push(f);
            assert(views(findings@) =~= before + seq![f@]);
        } else {
            assert(views(findings@) =~= views(findings@) + Seq::<FindingView>::empty());
        }
        i += 1;
    }
    assert(nodes@.subrange(0, nodes@.len() as int) =~= nodes@);
    let ghost after_types = views(findings@);
    let mut i: usize = 0;
    while i < nodes.len()
        invariant
            i <= nodes.len(),
            forall|j: int| 0 <= j < nodes@.len() ==> code_checkable(#[trigger] nodes@[j]),
            views(findings@) == after_types + per_node_findings(nodes@.subrange(0, i as int)),
        decreases nodes.len() - i,
    {
        let ghost prefix = nodes@.subrange(0, i + 1);
        assert(prefix.drop_last() =~= nodes@.subrange(0, i as int));
        let ghost before = views(findings@);
        assert(prefix.last() == nodes@[i as int]);
        assert(code_checkable(nodes@[i as int]));
        let mut more = node_checks(&nodes[i]);
        let ghost added = views(more@);
        assert(per_node_findings(prefix) == per_node_findings(nodes@.subrange(0, i as int))
            + added);
        findings.append(&mut more);
        assert(views(findings@) =~= before + added);
        assert(views(findings@) =~= after_types + per_node_findings(prefix));
        i += 1;
    }
    let ghost after_nodes = views(findings@);
    let mut more = rules::best_practices::check_all(nodes.as_slice());
    findings.append(&mut more);
    let mut more = rules::gotchas::check_workflow(w, nodes.as_slice());
    findings.append(&mut more);
    assert(views(findings@) =~= missing_type_findings(nodes@) + per_node_findings(nodes@)
        + best_practice_findings(nodes@) + workflow_gotcha_findings(w.tags, nodes@));
    findings
}

/// Lint a JSON text that has been read as `parsed` (the parsed value, or the
/// JSON parser's error message), returning the structured result.
pub fn lint(parsed: Result<JsonValue, String>) -> (r: LintResult)
    requires
        lintable(parsed_text(parsed)),
    ensures
        counts_findings(r, lint_findings(parsed_text(parsed))),
{
    match lint_checked(parsed) {
        Some(r) => r,
        None => {
            assert(false);
            LintResult::new(Vec::new())
        },
    }
}

/// Lint `parsed` as `lint` does when it can be linted without a panic (see
/// `lintable`); `None` when it cannot.
pub fn lint_checked(parsed: Result<JsonValue, String>) -> (r: Option<LintResult>)
    ensures
        r is Some <==> lintable(parsed_text(parsed)),
        r matches Some(res) ==> counts_findings(res, lint_findings(parsed_text(parsed))),
{
    let ghost spec_parsed = parsed_text(parsed);
    let mut findings: Vec<Finding> = Vec::new();
    match parsed {
        Err(e) => {
            let mut msg = String::from_str("Failed to parse JSON: ");
            msg.append(e.as_str());
            let f = Finding::error("invalid-json", msg.as_str());
            findings.push(f);
            assert(views(findings@) =~= lint_findings(spec_parsed));
            Some(LintResult::new(findings))
        },
        Ok(value) => {
            let (has_nodes, is_array) = match value.get("nodes") {
                None => (false, false),
                Some(n) => (
                    true,
                    match n {
                        JsonValue::Array(_) => true,
                        _ => false,
                    },
                ),
            };
            if !has_nodes {
                let f = Finding::error(
                    "missing-nodes",
                    "Workflow JSON missing required 'nodes' array",
                ).with_suggestion("n8n workflows must have a top-level 'nodes' array");
                findings.push(f);
                assert(views(findings@) =~= lint_findings(spec_parsed));
                return Some(LintResult::new(findings));
            }
            if !is_array {
                let f = Finding::error("invalid-nodes", "'nodes' field is not an array").with_suggestion(
                    "'nodes' must be a JSON array of node objects",
                );
                findings.push(f);
                assert(views(findings@) =~= lint_findings(spec_parsed));
                return Some(LintResult::new(findings));
            }
            match Workflow::from_json(value) {
                Err(e) => {
                    let mut msg = String::from_str("Failed to parse workflow structure: ");
                    msg.append(e.as_str());
                    let f = Finding::error("schema-error", msg.as_str());
                    findings.push(f);
                    assert(views(findings@) =~= lint_findings(spec_parsed));
                    Some(LintResult::new(findings))
                },
                Ok(w) => match &w.nodes {
                    None => {
                        assert(views(findings@) =~= lint_findings(spec_parsed));
                        Some(LintResult::new(findings))
                    },
                    Some(nodes) => {
                        assert(lintable(spec_parsed) <==> forall|j: int|
                            0 <= j < nodes@.len() ==> code_checkable(#[trigger] nodes@[j]));
                        let mut i: usize = 0;
                        while i < nodes.len()
                            invariant
                                i <= nodes.len(),
                                forall|j: int| 0 <= j < i ==> code_checkable(#[trigger] nodes@[j]),
                                spec_parsed == parsed_text(parsed),
                                lintable(spec_parsed) <==> forall|j: int|
                                    0 <= j < nodes@.len() ==> code_checkable(#[trigger] nodes@[j]),
                            decreases nodes.len() - i,
                        {
                            if !rules::code_node::is_code_checkable(&nodes[i]) {
                                assert(!code_checkable(nodes@[i as int]));
                                return None;
                            }
                            i += 1;
                        }
                        let found = workflow_checks(&w, nodes);
                        Some(LintResult::new(found))
                    },
                },
            }
        },
    }
}

/// The text that `format_finding` writes for a finding: its rule, message and
/// node on one line, then its suggestion on a line of its own if it has one.
pub open spec fn finding_text(f: FindingView) -> Seq<char> {
    let node_info = match (f.node_name, f.node_id) {
        (Some(name), Some(id)) => " ["@ + name + "] ("@ + id + ")"@,
        (Some(name), None) => " ["@ + name + "]"@,
        (None, Some(id)) => " ("@ + id + ")"@,
        (None, None) => Seq::<char>::empty(),
    };
    "  "@ + f.rule + ": "@ + f.message + node_info + "\n"@ + match f.suggestion {
        Some(s) => "    -> "@ + s + "\n"@,
        None => Seq::<char>::empty(),
    }
}

/// The texts of the findings of `fs` with severity `sev`, in their order.
pub open spec fn severity_texts(fs: Seq<FindingView>, sev: Severity) -> Seq<char>
    decreases fs.len(),
{
    if fs.len() == 0 {
        Seq::<char>::empty()
    } else {
        severity_texts(fs.drop_last(), sev) + if fs.last().severity == sev {
            finding_text(fs.last())
        } else {
            Seq::<char>::empty()
        }
    }
}

/// `n` copies of `c`.
pub open spec fn repeat_char(c: char, n: nat) -> Seq<char> {
    Seq::new(n, |i: int| c)
}

/// The section of the report for the findings of `fs` with severity `sev`,
/// headed `title`: nothing when there are none.
pub open spec fn section_text(fs: Seq<FindingView>, sev: Severity, title: Seq<char>) -> Seq<char> {
    if count_severity(fs, sev) == 0 {
        Seq::<char>::empty()
    } else {
        "\n"@ + title + " ("@ + decimal(count_severity(fs, sev)) + ")\n"@ + repeat_char('-', 40)
            + "\n"@ + severity_texts(fs, sev)
    }
}

/// The human-readable report on the result `r` of linting the file `filename`.
pub open spec fn human_report(r: LintResult, filename: Seq<char>) -> Seq<char> {
    let fs = views(r.findings@);
    if fs.len() == 0 {
        filename + ": All checks passed\n"@
    } else {
        filename + "\n"@ + repeat_char('=', byte_len(filename)) + "\n"@ + section_text(
            fs,
            Severity::Error,
            "Errors"@,
        ) + section_text(fs, Severity::Warning, "Warnings"@) + "\nSummary: "@ + decimal(
            r.errors as nat,
        ) + " error(s), "@ + decimal(r.warnings as nat) + " warning(s)\n"@
    }
}

/// Append `n` copies of `c` (a one-character string) to `out`.
fn append_repeated(out: &mut String, c: &str, n: usize)
    requires
        c@.len() == 1,
    ensures
        final(out)@ == old(out)@ + repeat_char(c@[0], n as nat),
{
    let mut i: usize = 0;
    while i < n
        invariant
            i <= n,
            c@.len() == 1,
            out@ == old(out)@ + repeat_char(c@[0], i as nat),
        decreases n - i,
    {
        out.append(c);
        assert(out@ =~= old(out)@ + repeat_char(c@[0], (i + 1) as nat));
        i += 1;
    }
}

/// Append the text of the finding `f` to `out`: its rule, message and node on
/// one line, then its suggestion on a line of its own if it has one.
pub fn format_finding(out: &mut String, f: &Finding)
    ensures
        final(out)@ == old(out)@ + finding_text(f@),
{
    out.append("  ");
    out.append(f.rule.as_str());
    out.append(": ");
    out.append(f.message.as_str());
    match (&f.node_name, &f.node_id) {
        (Some(name), Some(id)) => {
            out.append(" [");
            out.append(name.as_str());
            out.append("] (");
            out.append(id.as_str());
            out.append(")");
        },
        (Some(name), None) => {
            out.append(" [");
            out.append(name.as_str());
            out.append("]");
        },
        (None, Some(id)) => {
            out.append(" (");
            out.append(id.as_str());
            out.append(")");
        },
        (None, None) => {},
    }
    out.append("\n");
    match &f.suggestion {
        Some(s) => {
            out.append("    -> ");
            out.append(s.as_str());
            out.append("\n");
        },
        None => {},
    }
    assert(out@ =~= old(out)@ + finding_text(f@));
}

/// Append the section for the findings of `findings` with severity `sev`,
/// headed `title`, to `out`.
fn format_section(out: &mut String, findings: &Vec<Finding>, sev: Severity, title: &str)
    ensures
        final(out)@ == old(out)@ + section_text(views(findings@), sev, title@),
{
    let ghost fs = views(findings@);
    let mut count: usize = 0;
    let mut body = String::new();
    let mut i: usize = 0;
    assert(fs.subrange(0, 0) =~= Seq::<FindingView>::empty());
    while i < findings.len()
        invariant
            i <= findings.len(),
            fs == views(findings@),
            count == count_severity(fs.subrange(0, i as int), sev),
            count <= i,
            body@ == severity_texts(fs.subrange(0, i as int), sev),
        decreases findings.len() - i,
    {
        let ghost prefix = fs.subrange(0, i + 1);
        assert(prefix.drop_last() =~= fs.subrange(0, i as int));
        assert(prefix.last() == findings@[i as int]@);
        if findings[i].severity == sev {
            format_finding(&mut body, &findings[i]);
            count += 1;
        }
        i += 1;
    }
    assert(fs.subrange(0, i as int) =~= fs);
    if count > 0 {
        out.append("\n");
        out.append(title);
        out.append(" (");
        let d = decimal_string(count as u64);
        out.append(d.as_str());
        out.append(")\n");
        proof {
            reveal_strlit("-");
        }
        append_repeated(out, "-", 40);
        out.append("\n");
        out.append(body.as_str());
    }
    assert(out@ =~= old(out)@ + section_text(fs, sev, title@));
}

/// Format the result `result` of linting the file `filename` as
/// human-readable text: a one-line pass when it has no findings, else a
/// header, the errors, the warnings and a summary of the counts.
pub fn format_human(result: &LintResult, filename: &str) -> (r: String)
    ensures
        r@ == human_report(*result, filename@),
{
    let mut out = String::new();
    if result.findings.len() == 0 {
        out.append(filename);
        out.append(": All checks passed\n");
        assert(out@ =~= human_report(*result, filename@));
        return out;
    }
    let ghost fs = views(result.findings@);
    out.append(filename);
    out.append("\n");
    proof {
        reveal_strlit("=");
    }
    append_repeated(&mut out, "=", filename.as_bytes().len());
    out.append("\n");
    let ghost head = out@;
    assert(head =~= filename@ + "\n"@ + repeat_char('=', byte_len(filename@)) + "\n"@);
    format_section(&mut out, &result.findings, Severity::Error, "Errors");
    format_section(&mut out, &result.findings, Severity::Warning, "Warnings");
    let ghost body = out@;
    assert(body =~= head + section_text(fs, Severity::Error, "Errors"@) + section_text(
        fs,
        Severity::Warning,
        "Warnings"@,
    ));
    out.append("\nSummary: ");
    let e = decimal_string(result.errors as u64);
    out.append(e.as_str());
    out.append(" error(s), ");
    let w = decimal_string(result.warnings as u64);
    out.append(w.as_str());
    out.append(" warning(s)\n");
    assert(out@ =~= body + "\nSummary: "@ + decimal(result.errors as nat) + " error(s), "@
        + decimal(result.warnings as nat) + " warning(s)\n"@);
    assert(out@ =~= human_report(*result, filename@));
    out
}

/// `p` lies between `a` and `b` in `s`.
pub open spec fn splits_around(s: Seq<char>, a: Seq<char>, p: Seq<char>, b: Seq<char>) -> bool {
    s == a + p + b
}

/// The text of each finding of `fs` with severity `sev` lies within their texts.
proof fn lemma_severity_texts_hold(fs: Seq<FindingView>, sev: Severity, k: int)
    requires
        0 <= k < fs.len(),
        fs[k].severity == sev,
    ensures
        exists|a: Seq<char>, b: Seq<char>|
            #[trigger] splits_around(severity_texts(fs, sev), a, finding_text(fs[k]), b),
        count_severity(fs, sev) >= 1,
    decreases fs.len(),
{
    let rest = fs.drop_last();
    if k == fs.len() - 1 {
        assert(fs.last() == fs[k]);
        assert(splits_around(
            severity_texts(fs, sev),
            severity_texts(rest, sev),
            finding_text(fs[k]),
            Seq::<char>::empty(),
        ));
    } else {
        assert(rest[k] == fs[k]);
        lemma_severity_texts_hold(rest, sev, k);
        let (a, b) = choose|a: Seq<char>, b: Seq<char>|
            #[trigger] splits_around(severity_texts(rest, sev), a, finding_text(fs[k]), b);
        let extra = severity_texts(fs, sev).subrange(
            severity_texts(rest, sev).len() as int,
            severity_texts(fs, sev).len() as int,
        );
        assert(severity_texts(fs, sev) =~= severity_texts(rest, sev) + extra);
        lemma_splits_within(
            severity_texts(fs, sev),
            Seq::<char>::empty(),
            severity_texts(rest, sev),
            extra,
            a,
            finding_text(fs[k]),
            b,
        );
    }
}

/// A text that lies within `m` lies within `x + m + y`.
proof fn lemma_splits_within(
    s: Seq<char>,
    x: Seq<char>,
    m: Seq<char>,
    y: Seq<char>,
    a: Seq<char>,
    t: Seq<char>,
    b: Seq<char>,
)
    requires
        s == x + m + y,
        m == a + t + b,
    ensures
        splits_around(s, x + a, t, b + y),
{
    assert(s =~= (x + a) + t + (b + y));
}

/// The human-readable report lists every finding of the result: the text of
/// each finding appears in it.
#[verifier::spinoff_prover]
#[verifier::rlimit(30)]
pub proof fn lemma_report_lists_every_finding(r: LintResult, filename: Seq<char>, k: int)
    requires
        0 <= k < r.findings@.len(),
    ensures
        contains(human_report(r, filename), finding_text(r.findings@[k]@)),
{
    let fs = views(r.findings@);
    let t = finding_text(fs[k]);
    let sev = fs[k].severity;
    lemma_severity_texts_hold(fs, sev, k);
    let (a, b) = choose|a: Seq<char>, b: Seq<char>|
        #[trigger] splits_around(severity_texts(fs, sev), a, t, b);
    let report = human_report(r, filename);
    let head = filename + "\n"@ + repeat_char('=', byte_len(filename)) + "\n"@;
    let err = section_text(fs, Severity::Error, "Errors"@);
    let warn = section_text(fs, Severity::Warning, "Warnings"@);
    let tail = "\nSummary: "@ + decimal(r.errors as nat) + " error(s), "@ + decimal(
        r.warnings as nat,
    ) + " warning(s)\n"@;
    assert(report == head + err + warn + tail);
    let title = if sev == Severity::Error {
        "Errors"@
    } else {
        "Warnings"@
    };
    let h = "\n"@ + title + " ("@ + decimal(count_severity(fs, sev)) + ")\n"@ + repeat_char(
        '-',
        40,
    ) + "\n"@;
    let sect = section_text(fs, sev, title);
    assert(sect == h + severity_texts(fs, sev));
    lemma_splits_within(sect, h, severity_texts(fs, sev), Seq::<char>::empty(), a, t, b);
    let (x, y) = if sev == Severity::Error {
        (head, warn + tail)
    } else {
        (head + err, tail)
    };
    assert(report =~= x + sect + y);
    lemma_splits_within(report, x, sect, y, h + a, t, b + Seq::<char>::empty());
    let pre = x + (h + a);
    assert(occurs_at(report, t, pre.len() as int)) by {
        assert(report.subrange(pre.len() as int, pre.len() + t.len() as int) =~= t);
    }
}

} // verus!
