//! Findings (one problem in a workflow, with its rule, severity and text) and
//! the result of linting a workflow, which counts them.
use vstd::prelude::*;

verus! {

/// How serious a finding is.
#[derive(Debug, Clone, Copy, PartialEq, Eq, Structural)]
pub enum Severity {
    Error,
    Warning,
}

impl Severity {
    /// The lowercase name of the severity, as it is displayed and serialized.
    pub fn as_str(&self) -> (r: &'static str)
        ensures
            r@ == severity_name(*self),
    {
        match self {
            Severity::Error => "error",
            Severity::Warning => "warning",
        }
    }
}

/// The lowercase name of a severity.
pub open spec fn severity_name(s: Severity) -> Seq<char> {
    match s {
        Severity::Error => "error"@,
        Severity::Warning => "warning"@,
    }
}

/// One problem found in a workflow.
#[derive(Debug)]
pub struct Finding {
    pub rule: String,
    pub severity: Severity,
    pub message: String,
    pub node_id: Option<String>,
    pub node_name: Option<String>,
    pub suggestion: Option<String>,
}

/// A finding with its texts as character sequences.
pub struct FindingView {
    pub rule: Seq<char>,
    pub severity: Severity,
    pub message: Seq<char>,
    pub node_id: Option<Seq<char>>,
    pub node_name: Option<Seq<char>>,
    pub suggestion: Option<Seq<char>>,
}

/// The text of an optional string.
pub open spec fn opt_text(o: Option<String>) -> Option<Seq<char>> {
    match o {
        Some(s) => Some(s@),
        None => None,
    }
}

/// The text of an optional string slice.
pub open spec fn opt_str_text(o: Option<&str>) -> Option<Seq<char>> {
    match o {
        Some(s) => Some(s@),
        None => None,
    }
}

impl View for Finding {
    type V = FindingView;

    open spec fn view(&self) -> FindingView {
        FindingView {
            rule: self.rule@,
            severity: self.severity,
            message: self.message@,
            node_id: opt_text(self.node_id),
            node_name: opt_text(self.node_name),
            suggestion: opt_text(self.suggestion),
        }
    }
}

/// A finding of `rule` with `severity` and `message`, about no node, with no suggestion.
pub open spec fn finding(rule: Seq<char>, severity: Severity, message: Seq<char>) -> FindingView {
    FindingView {
        rule,
        severity,
        message,
        node_id: None,
        node_name: None,
        suggestion: None,
    }
}

impl FindingView {
    /// This finding, about the node with `id` and `name`.
    pub open spec fn at_node(self, id: Option<Seq<char>>, name: Option<Seq<char>>) -> FindingView {
        FindingView { node_id: id, node_name: name, ..self }
    }

    /// This finding, with `suggestion`.
    pub open spec fn suggesting(self, suggestion: Seq<char>) -> FindingView {
        FindingView { suggestion: Some(suggestion), ..self }
    }
}

/// The views of a sequence of findings.
pub open spec fn views(fs: Seq<Finding>) -> Seq<FindingView> {
    fs.map_values(|f: Finding| f@)
}

/// Every finding of `fs` is about the node with `id` and `name`.
pub open spec fn about_node(fs: Seq<FindingView>, id: Option<Seq<char>>, name: Option<Seq<char>>) -> bool {
    forall|i: int| 0 <= i < fs.len() ==> (#[trigger] fs[i]).node_id == id && fs[i].node_name == name
}

/// Some finding of `fs` is of `rule` with severity `sev`.
pub open spec fn has_finding(fs: Seq<FindingView>, rule: Seq<char>, sev: Severity) -> bool {
    exists|j: int| 0 <= j < fs.len() && (#[trigger] fs[j]).rule == rule && fs[j].severity == sev
}

/// No finding of `fs` is of `rule`.
pub open spec fn lacks_rule(fs: Seq<FindingView>, rule: Seq<char>) -> bool {
    forall|j: int| 0 <= j < fs.len() ==> (#[trigger] fs[j]).rule != rule
}

/// A finding of a part is a finding of the whole.
pub proof fn lemma_has_finding_concat(a: Seq<FindingView>, b: Seq<FindingView>, rule: Seq<char>, sev: Severity)
    ensures
        has_finding(a, rule, sev) ==> has_finding(a + b, rule, sev),
        has_finding(b, rule, sev) ==> has_finding(a + b, rule, sev),
{
    if has_finding(a, rule, sev) {
        let j = choose|j: int| 0 <= j < a.len() && (#[trigger] a[j]).rule == rule && a[j].severity == sev;
        assert((a + b)[j] == a[j]);
    }
    if has_finding(b, rule, sev) {
        let j = choose|j: int| 0 <= j < b.len() && (#[trigger] b[j]).rule == rule && b[j].severity == sev;
        assert((a + b)[a.len() + j] == b[j]);
    }
}

/// The number of findings in `fs` with severity `sev`.
pub open spec fn count_severity(fs: Seq<FindingView>, sev: Severity) -> nat
    decreases fs.len(),
{
    if fs.len() == 0 {
        0
    } else {
        count_severity(fs.drop_last(), sev) + if fs.last().severity == sev {
            1nat
        } else {
            0nat
        }
    }
}

impl Finding {
    /// An error finding of `rule` with `message`.
    pub fn error(rule: &str, message: &str) -> (f: Finding)
        ensures
            f@ == finding(rule@, Severity::Error, message@),
    {
        Finding {
            rule: rule.to_string(),
            severity: Severity::Error,
            message: message.to_string(),
            node_id: None,
            node_name: None,
            suggestion: None,
        }
    }

    /// A warning finding of `rule` with `message`.
    pub fn warning(rule: &str, message: &str) -> (f: Finding)
        ensures
            f@ == finding(rule@, Severity::Warning, message@),
    {
        Finding {
            rule: rule.to_string(),
            severity: Severity::Warning,
            message: message.to_string(),
            node_id: None,
            node_name: None,
            suggestion: None,
        }
    }

    /// This finding, about the node with `id` and `name`.
    pub fn with_node(self, id: Option<&str>, name: Option<&str>) -> (f: Finding)
        ensures
            f@ == self@.at_node(opt_str_text(id), opt_str_text(name)),
    {
        let mut f = self;
        f.node_id = match id {
            Some(s) => Some(s.to_string()),
            None => None,
        };
        f.node_name = match name {
            Some(s) => Some(s.to_string()),
            None => None,
        };
        f
    }

    /// This finding, with `suggestion`.
    pub fn with_suggestion(self, suggestion: &str) -> (f: Finding)
        ensures
            f@ == self@.suggesting(suggestion@),
    {
        let mut f = self;
        f.suggestion = Some(suggestion.to_string());
        f
    }
}

/// The result of linting one workflow.
#[derive(Debug)]
pub struct LintResult {
    pub valid: bool,
    pub findings: Vec<Finding>,
    pub errors: usize,
    pub warnings: usize,
}

/// `r` holds `findings`, counts their errors and warnings, and is valid when it
/// counts neither.
pub open spec fn counts_findings(r: LintResult, findings: Seq<FindingView>) -> bool {
    &&& views(r.findings@) == findings
    &&& r.errors == count_severity(findings, Severity::Error)
    &&& r.warnings == count_severity(findings, Severity::Warning)
    &&& r.valid == (r.errors == 0 && r.warnings == 0)
}

/// Counting findings of a severity in two sequences one after the other adds
/// the two counts.
pub proof fn lemma_count_severity_concat(a: Seq<FindingView>, b: Seq<FindingView>, sev: Severity)
    ensures
        count_severity(a + b, sev) == count_severity(a, sev) + count_severity(b, sev),
    decreases b.len(),
{
    if b.len() == 0 {
        assert(a + b =~= a);
    } else {
        assert((a + b).drop_last() =~= a + b.drop_last());
        lemma_count_severity_concat(a, b.drop_last(), sev);
    }
}

/// Every finding is an error or a warning: the two counts add up to the
/// number of findings.
pub proof fn lemma_errors_plus_warnings(fs: Seq<FindingView>)
    ensures
        count_severity(fs, Severity::Error) + count_severity(fs, Severity::Warning) == fs.len(),
    decreases fs.len(),
{
    if fs.len() > 0 {
        lemma_errors_plus_warnings(fs.drop_last());
    }
}

impl LintResult {
    /// The result that holds `findings`, with their errors and warnings counted.
    pub fn new(findings: Vec<Finding>) -> (r: LintResult)
        ensures
            counts_findings(r, views(findings@)),
            r.findings@ == findings@,
    {
        let mut errors: usize = 0;
        let mut warnings: usize = 0;
        let mut i: usize = 0;
        while i < findings.len()
            invariant
                i <= findings.len(),
                errors == count_severity(views(findings@).subrange(0, i as int), Severity::Error),
                warnings == count_severity(
                    views(findings@).subrange(0, i as int),
                    Severity::Warning,
                ),
                errors + warnings == i,
            decreases findings.len() - i,
        {
            let ghost prefix = views(findings@).subrange(0, i + 1);
            assert(prefix.drop_last() =~= views(findings@).subrange(0, i as int));
            assert(prefix.last() == findings@[i as int]@);
            match findings[i].severity {
                Severity::Error => errors += 1,
                Severity::Warning => warnings += 1,
            }
            i += 1;
        }
        assert(views(findings@).subrange(0, i as int) =~= views(findings@));
        LintResult { valid: errors == 0 && warnings == 0, findings, errors, warnings }
    }
}

/// A result is valid exactly when it holds no findings.
pub proof fn lemma_valid_iff_no_findings(r: LintResult, findings: Seq<FindingView>)
    requires
        counts_findings(r, findings),
    ensures
        r.valid <==> findings.len() == 0,
        r.errors + r.warnings == findings.len(),
{
    lemma_errors_plus_warnings(findings);
}

} // verus!
