//! Workflow-level best practices: error handling, ntfy notifications, a
//! manual trigger beside a schedule, and OpenCode session permissions.
use vstd::prelude::*;
use crate::finding::{
    finding, has_finding, lemma_has_finding_concat, opt_text, views, Finding, FindingView, Severity,
};
use crate::model::{
    error_trigger_type, http_request_type, manual_trigger_type, param_strings,
    schedule_trigger_type, type_text, Node,
};
use crate::rules::ntfy::{is_ntfy, is_ntfy_node};
use crate::text::{any_contains, any_contains_exec, contains, str_contains, texts};

verus! {

/// Some node of `nodes` has type `t`.
pub open spec fn has_type(nodes: Seq<Node>, t: Seq<char>) -> bool {
    exists|i: int| 0 <= i < nodes.len() && type_text(#[trigger] nodes[i]) == t
}

/// Some node of `nodes` routes its errors (has `onError`).
pub open spec fn has_on_error(nodes: Seq<Node>) -> bool {
    exists|i: int| 0 <= i < nodes.len() && (#[trigger] nodes[i]).on_error is Some
}

/// Some node of `nodes` talks to ntfy.
pub open spec fn has_ntfy(nodes: Seq<Node>) -> bool {
    exists|i: int| 0 <= i < nodes.len() && is_ntfy(#[trigger] nodes[i])
}

/// What `check_error_handling` finds: a warning when no node is an Error
/// Trigger and none has `onError`.
pub open spec fn error_handling_findings(nodes: Seq<Node>) -> Seq<FindingView> {
    if !has_type(nodes, error_trigger_type()) && !has_on_error(nodes) {
        seq![
            finding(
                "missing-error-handling"@,
                Severity::Warning,
                "Workflow has no error handling. Add an Error Trigger node or configure per-node error outputs for reliable operation"@,
            ).suggesting("Add an Error Trigger node connected to an ntfy notification"@),
        ]
    } else {
        seq![]
    }
}

/// What `check_ntfy_presence` finds: a warning when no node talks to ntfy.
pub open spec fn ntfy_presence_findings(nodes: Seq<Node>) -> Seq<FindingView> {
    if !has_ntfy(nodes) {
        seq![
            finding(
                "missing-ntfy-notification"@,
                Severity::Warning,
                "Workflow has no ntfy notification nodes. Every workflow should notify on completion and failure"@,
            ).suggesting("Add HTTP Request nodes posting to ntfy for success and error paths"@),
        ]
    } else {
        seq![]
    }
}

/// What `check_manual_trigger` finds: a warning when there is a Schedule
/// Trigger but no Manual Trigger.
pub open spec fn manual_trigger_findings(nodes: Seq<Node>) -> Seq<FindingView> {
    if has_type(nodes, schedule_trigger_type()) && !has_type(nodes, manual_trigger_type()) {
        seq![
            finding(
                "missing-manual-trigger"@,
                Severity::Warning,
                "Scheduled workflow has no Manual Trigger. Add one for testing without waiting for the schedule"@,
            ).suggesting("Add a Manual Trigger node alongside the Schedule Trigger"@),
        ]
    } else {
        seq![]
    }
}

/// Some string of `ss` holds both `question` and `deny`.
pub open spec fn any_question_deny(ss: Seq<Seq<char>>) -> bool {
    exists|i: int|
        0 <= i < ss.len() && contains(#[trigger] ss[i], "question"@) && contains(ss[i], "deny"@)
}

/// An HTTP Request node that creates an OpenCode session with permissions but
/// does not deny the `question` permission.
pub open spec fn lacks_question_deny(n: Node) -> bool {
    let ss = param_strings(n);
    &&& type_text(n) == http_request_type()
    &&& any_contains(ss, "/session"@)
    &&& any_contains(ss, "permission"@)
    &&& !any_question_deny(ss)
}

/// The warning for node `n` lacking the `question` deny.
pub open spec fn question_deny_finding(n: Node) -> FindingView {
    finding(
        "opencode-missing-question-deny"@,
        Severity::Warning,
        "OpenCode session creation should deny 'question' permission to prevent blocking on user input in automated workflows"@,
    ).at_node(opt_text(n.id), opt_text(n.name)).suggesting(
        "Add {\"permission\": \"question\", \"pattern\": \"*\", \"action\": \"deny\"}"@,
    )
}

/// One warning for each node of `nodes`, in order, that lacks the `question` deny.
pub open spec fn opencode_permission_findings(nodes: Seq<Node>) -> Seq<FindingView>
    decreases nodes.len(),
{
    if nodes.len() == 0 {
        seq![]
    } else {
        opencode_permission_findings(nodes.drop_last()) + if lacks_question_deny(nodes.last()) {
            seq![question_deny_finding(nodes.last())]
        } else {
            seq![]
        }
    }
}

/// What `check_all` finds, check by check in this order: error handling,
/// ntfy presence, manual trigger, hardcoded URLs (none), OpenCode permissions.
pub open spec fn best_practice_findings(nodes: Seq<Node>) -> Seq<FindingView> {
    error_handling_findings(nodes) + ntfy_presence_findings(nodes) + manual_trigger_findings(nodes)
        + opencode_permission_findings(nodes)
}

/// A workflow with an ntfy node gets no warning for lacking ntfy
/// notifications; one without gets that warning.
pub proof fn lemma_ntfy_presence(nodes: Seq<Node>, i: int)
    ensures
        (0 <= i < nodes.len() && is_ntfy(nodes[i])) ==> ntfy_presence_findings(nodes)
            == Seq::<FindingView>::empty(),
        (forall|k: int| 0 <= k < nodes.len() ==> !is_ntfy(#[trigger] nodes[k])) ==> has_finding(
            ntfy_presence_findings(nodes),
            "missing-ntfy-notification"@,
            Severity::Warning,
        ),
{
    if 0 <= i < nodes.len() && is_ntfy(nodes[i]) {
        assert(has_ntfy(nodes));
    }
    if forall|k: int| 0 <= k < nodes.len() ==> !is_ntfy(#[trigger] nodes[k]) {
        assert(ntfy_presence_findings(nodes)[0].rule == "missing-ntfy-notification"@);
    }
}

/// Whether some node of `nodes` has type `t`.
fn has_type_exec(nodes: &[Node], t: &str) -> (r: bool)
    ensures
        r == has_type(nodes@, t@),
{
    let mut i: usize = 0;
    while i < nodes.len()
        invariant
            i <= nodes@.len(),
            forall|j: int| 0 <= j < i ==> type_text(#[trigger] nodes@[j]) != t@,
        decreases nodes@.len() - i,
    {
        if crate::text::str_eq(nodes[i].type_str(), t) {
            assert(type_text(nodes@[i as int]) == t@);
            return true;
        }
        i += 1;
    }
    false
}

/// Check that the workflow has error handling.
pub fn check_error_handling(nodes: &[Node]) -> (r: Vec<Finding>)
    ensures
        views(r@) == error_handling_findings(nodes@),
{
    let has_error_trigger = has_type_exec(nodes, "n8n-nodes-base.errorTrigger");
    let mut has_on_error = false;
    let mut i: usize = 0;
    while i < nodes.len()
        invariant
            i <= nodes@.len(),
            has_on_error == exists|j: int| 0 <= j < i && (#[trigger] nodes@[j]).on_error is Some,
        decreases nodes@.len() - i,
    {
        if nodes[i].on_error.is_some() {
            has_on_error = true;
        }
        i += 1;
    }
    let mut findings: Vec<Finding> = Vec::new();
    if !has_error_trigger && !has_on_error {
        let f = Finding::warning(
            "missing-error-handling",
            "Workflow has no error handling. Add an Error Trigger node or configure per-node error outputs for reliable operation",
        ).with_suggestion("Add an Error Trigger node connected to an ntfy notification");
        findings.push(f);
        assert(views(findings@) =~= seq![f@]);
    } else {
        assert(views(findings@) =~= Seq::<FindingView>::empty());
    }
    findings
}

/// Check that the workflow has ntfy notifications.
pub fn check_ntfy_presence(nodes: &[Node]) -> (r: Vec<Finding>)
    ensures
        views(r@) == ntfy_presence_findings(nodes@),
{
    let mut found = false;
    let mut i: usize = 0;
    while i < nodes.len() && !found
        invariant
            i <= nodes@.len(),
            !found ==> forall|j: int| 0 <= j < i ==> !is_ntfy(#[trigger] nodes@[j]),
            found ==> has_ntfy(nodes@),
        decreases nodes@.len() - i,
    {
        if is_ntfy_node(&nodes[i]) {
            assert(is_ntfy(nodes@[i as int]));
            found = true;
        }
        i += 1;
    }
    let mut findings: Vec<Finding> = Vec::new();
    if !found {
        let f = Finding::warning(
            "missing-ntfy-notification",
            "Workflow has no ntfy notification nodes. Every workflow should notify on completion and failure",
        ).with_suggestion("Add HTTP Request nodes posting to ntfy for success and error paths");
        findings.push(f);
        assert(views(findings@) =~= seq![f@]);
    } else {
        assert(views(findings@) =~= Seq::<FindingView>::empty());
    }
    findings
}

/// Check that scheduled workflows have a manual trigger.
pub fn check_manual_trigger(nodes: &[Node]) -> (r: Vec<Finding>)
    ensures
        views(r@) == manual_trigger_findings(nodes@),
{
    let has_schedule = has_type_exec(nodes, "n8n-nodes-base.scheduleTrigger");
    let has_manual = has_type_exec(nodes, "n8n-nodes-base.manualTrigger");
    let mut findings: Vec<Finding> = Vec::new();
    if has_schedule && !has_manual {
        let f = Finding::warning(
            "missing-manual-trigger",
            "Scheduled workflow has no Manual Trigger. Add one for testing without waiting for the schedule",
        ).with_suggestion("Add a Manual Trigger node alongside the Schedule Trigger");
        findings.push(f);
        assert(views(findings@) =~= seq![f@]);
    } else {
        assert(views(findings@) =~= Seq::<FindingView>::empty());
    }
    findings
}

/// Check for hardcoded Docker bridge service URLs across all nodes. The
/// bridge address 172.17.0.1 is stable and the port mappings are pinned, so
/// this check finds nothing.
pub fn check_hardcoded_urls(nodes: &[Node]) -> (r: Vec<Finding>)
    ensures
        r@.len() == 0,
{
    Vec::new()
}

/// Whether the HTTP Request node `node` lacks the `question` deny.
fn lacks_question_deny_exec(node: &Node) -> (r: bool)
    ensures
        r == lacks_question_deny(*node),
{
    if !node.is_http_request() {
        return false;
    }
    let strings = node.all_param_strings();
    let is_session_create = any_contains_exec(&strings, "/session");
    let has_permission = any_contains_exec(&strings, "permission");
    if !(is_session_create && has_permission) {
        return false;
    }
    let mut has_deny = false;
    let mut i: usize = 0;
    while i < strings.len()
        invariant
            i <= strings.len(),
            !has_deny ==> forall|j: int|
                0 <= j < i ==> !(contains(#[trigger] texts(strings@)[j], "question"@) && contains(
                    texts(strings@)[j],
                    "deny"@,
                )),
            has_deny ==> any_question_deny(texts(strings@)),
        decreases strings.len() - i,
    {
        if str_contains(strings[i].as_str(), "question") && str_contains(
            strings[i].as_str(),
            "deny",
        ) {
            assert(contains(texts(strings@)[i as int], "question"@));
            has_deny = true;
        }
        i += 1;
    }
    !has_deny
}

/// Check that OpenCode session creation denies the `question` permission.
pub fn check_opencode_permissions(nodes: &[Node]) -> (r: Vec<Finding>)
    ensures
        views(r@) == opencode_permission_findings(nodes@),
{
    let mut findings: Vec<Finding> = Vec::new();
    let mut i: usize = 0;
    assert(nodes@.subrange(0, 0) =~= Seq::<Node>::empty());
    while i < nodes.len()
        invariant
            i <= nodes@.len(),
            views(findings@) == opencode_permission_findings(nodes@.subrange(0, i as int)),
        decreases nodes@.len() - i,
    {
        let ghost prefix = nodes@.subrange(0, i + 1);
        assert(prefix.drop_last() =~= nodes@.subrange(0, i as int));
        let node = &nodes[i];
        if lacks_question_deny_exec(node) {
            let f = Finding::warning(
                "opencode-missing-question-deny",
                "OpenCode session creation should deny 'question' permission to prevent blocking on user input in automated workflows",
            ).with_node(node.id_str(), node.name_str()).with_suggestion(
                "Add {\"permission\": \"question\", \"pattern\": \"*\", \"action\": \"deny\"}",
            );
            let ghost before = views(findings@);
            findings.push(f);
            assert(views(findings@) =~= before + seq![f@]);
        } else {
            assert(views(findings@) =~= views(findings@) + Seq::<FindingView>::empty());
        }
        i += 1;
    }
    assert(nodes@.subrange(0, nodes@.len() as int) =~= nodes@);
    findings
}

/// Run all best practice checks (workflow-level).
pub fn check_all(nodes: &[Node]) -> (r: Vec<Finding>)
    ensures
        views(r@) == best_practice_findings(nodes@),
{
    let mut findings = check_error_handling(nodes);
    let mut more = check_ntfy_presence(nodes);
    findings.append(&mut more);
    let mut more = check_manual_trigger(nodes);
    findings.append(&mut more);
    let mut more = check_hardcoded_urls(nodes);
    findings.append(&mut more);
    let mut more = check_opencode_permissions(nodes);
    findings.append(&mut more);
    assert(views(findings@) =~= best_practice_findings(nodes@));
    findings
}

} // verus!
