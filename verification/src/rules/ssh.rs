//! Rules for SSH nodes: the resource and operation parameters, and commands
//! that need a `bash -c` wrapper.
use vstd::prelude::*;
use crate::finding::{
    about_node, finding, has_finding, lacks_rule, lemma_has_finding_concat, opt_text, views,
    Finding, FindingView, Severity,
};
use crate::json::{get, str_at};
use crate::model::{param_text, ssh_type, type_text, Node};
use crate::text::{
    chars_of, contains, contains_any, contains_any_exec, has_prefix, is_white_space,
    occurs_at_exec, str_texts, trim, trim_bounds, trim_end,
};

verus! {

/// What `check_resource_operation` finds: an error for an SSH node whose
/// parameters have an `operation` but no `resource`.
pub open spec fn resource_operation_findings(n: Node) -> Seq<FindingView> {
    if type_text(n) != ssh_type() {
        seq![]
    } else {
        match n.parameters {
            Some(p) => if get(p, "operation"@) is Some && get(p, "resource"@) is None {
                let op = match str_at(p, "operation"@) {
                    Some(s) => s,
                    None => "unknown"@,
                };
                seq![
                    finding(
                        "ssh-resource-operation"@,
                        Severity::Error,
                        "SSH node uses flat operation '"@ + op
                            + "' without resource field. n8n SSH nodes require both 'resource' and 'operation' parameters"@,
                    ).at_node(opt_text(n.id), opt_text(n.name)).suggesting(
                        "Use {\"resource\": \"command\", \"operation\": \"execute\"} for command execution"@,
                    ),
                ]
            } else {
                seq![]
            },
            None => seq![],
        }
    }
}

/// `s` without one leading `=` (the prefix of an n8n expression).
pub open spec fn strip_expression_prefix(s: Seq<char>) -> Seq<char> {
    if s.len() > 0 && s[0] == '=' {
        s.drop_first()
    } else {
        s
    }
}

/// Texts that only bash understands.
pub open spec fn bash_indicators() -> Seq<Seq<char>> {
    seq!["export "@, "$?"@, "if ["@, "if ["@, "]; then"@, "; then"@, "$("@, "${"@]
}

/// What `check_bash_wrapper` finds: an error for an SSH node whose `command`
/// (without a leading `=`, trimmed) uses bash syntax and does not start with
/// `bash -c`. Compound operators (`&&`, `||`, `; `) alone do not count.
pub open spec fn bash_wrapper_findings(n: Node) -> Seq<FindingView> {
    if type_text(n) != ssh_type() {
        seq![]
    } else {
        match param_text(n, "command"@) {
            Some(command) => {
                let cmd = trim(strip_expression_prefix(command));
                if !has_prefix(cmd, "bash -c"@) && contains_any(cmd, bash_indicators()) {
                    seq![
                        finding(
                            "ssh-bash-wrapper"@,
                            Severity::Error,
                            "SSH command uses bash syntax without bash -c wrapper. The remote host may use fish or another non-POSIX shell, causing silent failures"@,
                        ).at_node(opt_text(n.id), opt_text(n.name)).suggesting(
                            "Wrap in: bash -c '...'"@,
                        ),
                    ]
                } else {
                    seq![]
                }
            },
            None => seq![],
        }
    }
}

/// What `check_all` finds: the resource/operation findings, then the bash wrapper findings.
pub open spec fn ssh_findings(n: Node) -> Seq<FindingView> {
    resource_operation_findings(n) + bash_wrapper_findings(n)
}

/// Every finding of the SSH rules on `n` is about `n`.
pub proof fn lemma_ssh_findings_about_node(n: Node)
    ensures
        about_node(ssh_findings(n), opt_text(n.id), opt_text(n.name)),
{
}

/// The SSH rules find nothing in a node that is not an SSH node.
pub proof fn lemma_ssh_rules_only_on_ssh_nodes(n: Node)
    requires
        type_text(n) != ssh_type(),
    ensures
        ssh_findings(n) == Seq::<FindingView>::empty(),
{
    assert(ssh_findings(n) =~= Seq::<FindingView>::empty());
}

/// A command that, trimmed, starts with `bash -c`, or that is `=` followed by
/// a text that, trimmed, starts with `bash -c`, is already wrapped: the SSH
/// rules give it no bash-wrapper finding.
pub proof fn lemma_wrapped_command_accepted(n: Node)
    requires
        param_text(n, "command"@) matches Some(c) && (has_prefix(trim(c), "bash -c"@) || (c.len()
            > 0 && c[0] == '=' && has_prefix(trim(c.drop_first()), "bash -c"@))),
    ensures
        lacks_rule(ssh_findings(n), "ssh-bash-wrapper"@),
{
    reveal_strlit("ssh-bash-wrapper");
    reveal_strlit("ssh-resource-operation");
    reveal_strlit("bash -c");
    let c = param_text(n, "command"@)->Some_0;
    if c.len() > 0 && c[0] == '=' {
        lemma_trim_keeps_first(c);
        assert(!has_prefix(trim(c), "bash -c"@)) by {
            if has_prefix(trim(c), "bash -c"@) {
                assert(trim(c).subrange(0, 7)[0] == 'b');
            }
        }
        assert(strip_expression_prefix(c) == c.drop_first());
    } else {
        assert(strip_expression_prefix(c) == c);
    }
    assert(has_prefix(trim(strip_expression_prefix(c)), "bash -c"@));
    assert(bash_wrapper_findings(n) =~= Seq::<FindingView>::empty());
    let r = resource_operation_findings(n);
    assert(lacks_rule(r, "ssh-bash-wrapper"@)) by {
        assert forall|j: int| 0 <= j < r.len() implies (#[trigger] r[j]).rule != "ssh-bash-wrapper"@ by {
            assert(r[j].rule == "ssh-resource-operation"@);
            assert(r[j].rule.len() != "ssh-bash-wrapper"@.len());
        }
    }
    assert(ssh_findings(n) =~= r);
}

/// Trimming a text that starts with `=` keeps the `=` first.
proof fn lemma_trim_keeps_first(c: Seq<char>)
    requires
        c.len() > 0,
        c[0] == '=',
    ensures
        trim(c).len() > 0 && trim(c)[0] == '=',
{
    lemma_trim_end_keeps_first(c);
}

/// Trimming the end of a text whose first character is not white space keeps
/// that character first.
proof fn lemma_trim_end_keeps_first(c: Seq<char>)
    requires
        c.len() > 0,
        !is_white_space(c[0]),
    ensures
        trim_end(c).len() > 0 && trim_end(c)[0] == c[0],
    decreases c.len(),
{
    if is_white_space(c.last()) {
        assert(c.len() > 1);
        assert(c.drop_last()[0] == c[0]);
        lemma_trim_end_keeps_first(c.drop_last());
    }
}

/// A command that, after one leading `=` is dropped and the rest trimmed,
/// does not start with `bash -c` and exports a variable is reported as bash
/// syntax without a wrapper.
pub proof fn lemma_unwrapped_export_reported(n: Node)
    requires
        type_text(n) == ssh_type(),
        param_text(n, "command"@) matches Some(c) && !has_prefix(
            trim(strip_expression_prefix(c)),
            "bash -c"@,
        ) && contains(trim(strip_expression_prefix(c)), "export "@),
    ensures
        has_finding(ssh_findings(n), "ssh-bash-wrapper"@, Severity::Error),
{
    let c = param_text(n, "command"@)->Some_0;
    let cmd = trim(strip_expression_prefix(c));
    assert(bash_indicators()[0] == "export "@);
    assert(contains_any(cmd, bash_indicators()));
    let b = bash_wrapper_findings(n);
    assert(b[0].rule == "ssh-bash-wrapper"@);
    lemma_has_finding_concat(resource_operation_findings(n), b, "ssh-bash-wrapper"@, Severity::Error);
}

/// Check SSH nodes for resource+operation structure (must not use a flat operation).
pub fn check_resource_operation(node: &Node) -> (r: Vec<Finding>)
    ensures
        views(r@) == resource_operation_findings(*node),
{
    let mut findings: Vec<Finding> = Vec::new();
    if !node.is_ssh() {
        assert(views(findings@) =~= Seq::<FindingView>::empty());
        return findings;
    }
    match node.params() {
        Some(params) => {
            let has_operation = params.get("operation").is_some();
            let has_resource = params.get("resource").is_some();
            if has_operation && !has_resource {
                let op: &str = match params.str_at("operation") {
                    Some(s) => s.as_str(),
                    None => "unknown",
                };
                let mut msg = String::from_str("SSH node uses flat operation '");
                msg.append(op);
                msg.append(
                    "' without resource field. n8n SSH nodes require both 'resource' and 'operation' parameters",
                );
                let f = Finding::error("ssh-resource-operation", msg.as_str()).with_node(
                    node.id_str(),
                    node.name_str(),
                ).with_suggestion(
                    "Use {\"resource\": \"command\", \"operation\": \"execute\"} for command execution",
                );
                findings.push(f);
                assert(views(findings@) =~= seq![f@]);
            } else {
                assert(views(findings@) =~= Seq::<FindingView>::empty());
            }
        },
        None => {
            assert(views(findings@) =~= Seq::<FindingView>::empty());
        },
    }
    findings
}

/// Check SSH commands for bash syntax without a `bash -c` wrapper.
pub fn check_bash_wrapper(node: &Node) -> (r: Vec<Finding>)
    ensures
        views(r@) == bash_wrapper_findings(*node),
{
    let mut findings: Vec<Finding> = Vec::new();
    if !node.is_ssh() {
        assert(views(findings@) =~= Seq::<FindingView>::empty());
        return findings;
    }
    match node.param_str("command") {
        Some(command) => {
            let cv = chars_of(command);
            let start: usize = if cv.len() > 0 && cv[0] == '=' {
                1
            } else {
                0
            };
            assert(cv@.subrange(start as int, cv.len() as int) =~= strip_expression_prefix(
                command@,
            ));
            let (a, b) = trim_bounds(&cv, start, cv.len());
            let cmd = chars_of(command.substring_char(a, b));
            let prefix = chars_of("bash -c");
            let wrapped = occurs_at_exec(&cmd, &prefix, 0);
            let indicators: Vec<&str> = vec![
                "export ",
                "$?",
                "if [",
                "if [",
                "]; then",
                "; then",
                "$(",
                "${",
            ];
            assert(str_texts(indicators@) =~= bash_indicators());
            if !wrapped && contains_any_exec(&cmd, &indicators) {
                let f = Finding::error(
                    "ssh-bash-wrapper",
                    "SSH command uses bash syntax without bash -c wrapper. The remote host may use fish or another non-POSIX shell, causing silent failures",
                ).with_node(node.id_str(), node.name_str()).with_suggestion(
                    "Wrap in: bash -c '...'",
                );
                findings.push(f);
                assert(views(findings@) =~= seq![f@]);
            } else {
                assert(views(findings@) =~= Seq::<FindingView>::empty());
            }
        },
        None => {
            assert(views(findings@) =~= Seq::<FindingView>::empty());
        },
    }
    findings
}

/// Run all SSH rules.
pub fn check_all(node: &Node) -> (r: Vec<Finding>)
    ensures
        views(r@) == ssh_findings(*node),
{
    let mut findings = check_resource_operation(node);
    let mut more = check_bash_wrapper(node);
    findings.append(&mut more);
    assert(views(findings@) =~= ssh_findings(*node));
    findings
}

} // verus!
