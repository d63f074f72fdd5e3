//! Known pitfalls: OpenCode timeouts, unmatched expression delimiters,
//! placeholder credentials, unpadded base64 in OpenCode URLs, the tags format,
//! `/no_think` in Ollama prompts, second-level polling, and nodes placed on
//! top of each other.
use vstd::prelude::*;
use crate::finding::{
    about_node, finding, has_finding, lemma_has_finding_concat, opt_text, views, Finding,
    FindingView, Severity,
};
use crate::foreign::{
    lower_text, regex_capture, regex_first_group, to_lowercase, to_uppercase, upper_text,
};
use crate::json::{get, is_object, json_text, number_whole, number_whole_exec, to_json_text, JsonValue};
use crate::model::{
    http_request_type, param_strings, param_text, schedule_trigger_type, type_text, Node,
    Workflow,
};
use crate::rules::code_node::byte_len;
use crate::text::{
    any_contains, any_contains_exec, chars_of, contains, contains_any, contains_any_exec,
    count_matches, count_matches_exec, decimal, decimal_string, has_char, has_char_exec,
    has_prefix, has_suffix, join, str_contains, str_ends_with, str_eq, str_starts_with,
    str_texts, texts,
};

verus! {

/// The timeout set for an HTTP call: the `timeout` parameter, or failing that
/// the `timeout` of the `options` parameter.
pub open spec fn timeout_value(p: JsonValue) -> Option<JsonValue> {
    match get(p, "timeout"@) {
        Some(t) => Some(t),
        None => match get(p, "options"@) {
            Some(o) => get(o, "timeout"@),
            None => None,
        },
    }
}

/// A timeout value in milliseconds, as `as_u64` or else `as_f64` cast to
/// `u64` reads it; `None` when it is not a number.
pub open spec fn timeout_ms(t: JsonValue) -> Option<u64> {
    match t {
        JsonValue::Number(n) => Some(number_whole(n)),
        _ => None,
    }
}

/// The error for an OpenCode call with timeout `ms`.
pub open spec fn low_timeout_finding(n: Node, ms: u64) -> FindingView {
    finding(
        "opencode-timeout"@,
        Severity::Error,
        "OpenCode HTTP call has timeout of "@ + decimal(ms as nat)
            + "ms (< 300000ms). Tool-heavy prompts can take minutes"@,
    ).at_node(opt_text(n.id), opt_text(n.name)).suggesting("Set timeout to 300000+ ms"@)
}

/// What `check_opencode_timeout` finds in an HTTP Request node whose `url`
/// holds `/session`: an error when no timeout is set, or when a numeric
/// timeout is below 300000 ms.
pub open spec fn opencode_timeout_findings(n: Node) -> Seq<FindingView> {
    let url = match param_text(n, "url"@) {
        Some(u) => u,
        None => ""@,
    };
    if type_text(n) != http_request_type() || !contains(url, "/session"@) {
        seq![]
    } else {
        match n.parameters {
            None => seq![],
            Some(p) => match timeout_value(p) {
                None => seq![
                    finding(
                        "opencode-timeout"@,
                        Severity::Error,
                        "OpenCode HTTP call has no explicit timeout set. Default timeout is likely too low for tool-heavy prompts"@,
                    ).at_node(opt_text(n.id), opt_text(n.name)).suggesting(
                        "Set timeout to 300000+ ms"@,
                    ),
                ],
                Some(t) => match timeout_ms(t) {
                    Some(ms) => if ms < 300000 {
                        seq![low_timeout_finding(n, ms)]
                    } else {
                        seq![]
                    },
                    None => seq![],
                },
            },
        }
    }
}

/// A string with as many `{{` as `}}` (each counted without overlaps), or an
/// `=` expression, where `{{ }}` is template syntax.
pub open spec fn balanced_or_expression(s: Seq<char>) -> bool {
    has_prefix(s, "="@) || count_matches(s, "{{"@) == count_matches(s, "}}"@)
}

/// The first string of `ss` that is not `balanced_or_expression`.
pub open spec fn first_unbalanced(ss: Seq<Seq<char>>) -> Option<Seq<char>>
    decreases ss.len(),
{
    if ss.len() == 0 {
        None
    } else if !balanced_or_expression(ss[0]) {
        Some(ss[0])
    } else {
        first_unbalanced(ss.drop_first())
    }
}

/// What `check_expression_syntax` finds: one error, for the first parameter
/// string with unmatched `{{` and `}}`.
pub open spec fn expression_syntax_findings(n: Node) -> Seq<FindingView> {
    match first_unbalanced(param_strings(n)) {
        Some(s) => seq![
            finding(
                "expression-syntax"@,
                Severity::Error,
                "Unmatched expression delimiters: "@ + decimal(count_matches(s, "{{"@))
                    + " opening '{{' vs "@ + decimal(count_matches(s, "}}"@))
                    + " closing '}}'"@,
            ).at_node(opt_text(n.id), opt_text(n.name)).suggesting(
                "Fix unmatched {{ or }} delimiters"@,
            ),
        ],
        None => seq![],
    }
}

/// What `check_tags_format` finds: a warning when the workflow's tags are an
/// array that holds an object.
pub open spec fn tags_format_findings(tags: Option<JsonValue>) -> Seq<FindingView> {
    let bad = match tags {
        Some(JsonValue::Array(items)) => exists|i: int|
            0 <= i < items@.len() && is_object(#[trigger] items@[i]),
        _ => false,
    };
    if bad {
        seq![
            finding(
                "tags-format"@,
                Severity::Warning,
                "Workflow tags should be a string array, not an object array. The n8n API expects string arrays for import"@,
            ).suggesting("Flatten tags: [{\"name\": \"foo\"}] -> [\"foo\"]"@),
        ]
    } else {
        seq![]
    }
}

/// Some string of `ss`, lowercased, holds `/no_think` or `/nothink`.
pub open spec fn any_no_think(ss: Seq<Seq<char>>) -> bool {
    exists|i: int|
        0 <= i < ss.len() && contains_any(
            lower_text(#[trigger] ss[i]),
            seq!["/no_think"@, "/nothink"@],
        )
}

/// What `check_ollama_no_think` finds: an error for an HTTP Request node that
/// calls the Ollama generate or chat API with `/no_think` in its prompt.
pub open spec fn ollama_no_think_findings(n: Node) -> Seq<FindingView> {
    let ss = param_strings(n);
    if type_text(n) == http_request_type() && (any_contains(ss, "/api/generate"@) || any_contains(
        ss,
        "/api/chat"@,
    )) && any_no_think(ss) {
        seq![
            finding(
                "ollama-no-think"@,
                Severity::Error,
                "/no_think in the prompt does nothing at the API level. The model still thinks, puts output in the 'thinking' field, and returns an empty 'response' field"@,
            ).at_node(opt_text(n.id), opt_text(n.name)).suggesting(
                "Remove /no_think from prompt and add \"think\": false to the request body"@,
            ),
        ]
    } else {
        seq![]
    }
}

/// What `check_polling_interval` finds: a warning for a Schedule Trigger whose
/// parameters, written as JSON, hold the key or string `"seconds"`.
pub open spec fn polling_interval_findings(n: Node) -> Seq<FindingView> {
    match n.parameters {
        Some(p) => if type_text(n) == schedule_trigger_type() && contains(
            json_text(p),
            "\"seconds\""@,
        ) {
            seq![
                finding(
                    "polling-interval"@,
                    Severity::Warning,
                    "Schedule trigger uses second-level intervals. Polling more than once per minute wastes API quota"@,
                ).at_node(opt_text(n.id), opt_text(n.name)).suggesting(
                    "Use 1-5 minute intervals for external API polling"@,
                ),
            ]
        } else {
            seq![]
        },
        None => seq![],
    }
}

/// Check OpenCode HTTP calls have a sufficient timeout.
pub fn check_opencode_timeout(node: &Node) -> (r: Vec<Finding>)
    ensures
        views(r@) == opencode_timeout_findings(*node),
{
    let mut findings: Vec<Finding> = Vec::new();
    if !node.is_http_request() {
        assert(views(findings@) =~= Seq::<FindingView>::empty());
        return findings;
    }
    let url: &str = match node.param_str("url") {
        Some(u) => u,
        None => "",
    };
    if !str_contains(url, "/session") {
        assert(views(findings@) =~= Seq::<FindingView>::empty());
        return findings;
    }
    match node.params() {
        Some(params) => {
            let timeout = match params.get("timeout") {
                Some(t) => Some(t),
                None => match params.get("options") {
                    Some(o) => o.get("timeout"),
                    None => None,
                },
            };
            match timeout {
                Some(t) => {
                    match t {
                        JsonValue::Number(num) => {
                            let ms = number_whole_exec(num);
                            if ms < 300000 {
                                let mut msg = String::from_str("OpenCode HTTP call has timeout of ");
                                let d = decimal_string(ms);
                                msg.append(d.as_str());
                                msg.append("ms (< 300000ms). Tool-heavy prompts can take minutes");
                                let f = Finding::error("opencode-timeout", msg.as_str()).with_node(
                                    node.id_str(),
                                    node.name_str(),
                                ).with_suggestion("Set timeout to 300000+ ms");
                                findings.push(f);
                                assert(views(findings@) =~= seq![f@]);
                            } else {
                                assert(views(findings@) =~= Seq::<FindingView>::empty());
                            }
                        },
                        _ => {
                            assert(views(findings@) =~= Seq::<FindingView>::empty());
                        },
                    }
                },
                None => {
                    let f = Finding::error(
                        "opencode-timeout",
                        "OpenCode HTTP call has no explicit timeout set. Default timeout is likely too low for tool-heavy prompts",
                    ).with_node(node.id_str(), node.name_str()).with_suggestion(
                        "Set timeout to 300000+ ms",
                    );
                    findings.push(f);
                    assert(views(findings@) =~= seq![f@]);
                },
            }
        },
        None => {
            assert(views(findings@) =~= Seq::<FindingView>::empty());
        },
    }
    findings
}

/// Check for unmatched expression delimiters.
pub fn check_expression_syntax(node: &Node) -> (r: Vec<Finding>)
    ensures
        views(r@) == expression_syntax_findings(*node),
{
    let mut findings: Vec<Finding> = Vec::new();
    let strings = node.all_param_strings();
    let open = chars_of("{{");
    let close = chars_of("}}");
    proof {
        reveal_strlit("{{");
        reveal_strlit("}}");
    }
    let mut i: usize = 0;
    assert(texts(strings@).subrange(0, strings@.len() as int) =~= texts(strings@));
    while i < strings.len()
        invariant
            i <= strings.len(),
            findings@.len() == 0,
            open@ == "{{"@,
            close@ == "}}"@,
            open@.len() == 2,
            close@.len() == 2,
            texts(strings@) == param_strings(*node),
            first_unbalanced(texts(strings@)) == first_unbalanced(
                texts(strings@).subrange(i as int, strings@.len() as int),
            ),
        decreases strings.len() - i,
    {
        let ghost rest = texts(strings@).subrange(i as int, strings@.len() as int);
        assert(rest.drop_first() =~= texts(strings@).subrange(i + 1, strings@.len() as int));
        let s = strings[i].as_str();
        assert(rest[0] == s@);
        if !str_starts_with(s, "=") {
            let sv = chars_of(s);
            let opens = count_matches_exec(&sv, &open);
            let closes = count_matches_exec(&sv, &close);
            if opens != closes {
                let mut msg = String::from_str("Unmatched expression delimiters: ");
                let d = decimal_string(opens as u64);
                msg.append(d.as_str());
                msg.append(" opening '{{' vs ");
                let d = decimal_string(closes as u64);
                msg.append(d.as_str());
                msg.append(" closing '}}'");
                let f = Finding::error("expression-syntax", msg.as_str()).with_node(
                    node.id_str(),
                    node.name_str(),
                ).with_suggestion("Fix unmatched {{ or }} delimiters");
                findings.push(f);
                assert(views(findings@) =~= seq![f@]);
                return findings;
            }
        }
        i += 1;
    }
    assert(texts(strings@).subrange(i as int, strings@.len() as int) =~= Seq::<Seq<char>>::empty());
    assert(views(findings@) =~= Seq::<FindingView>::empty());
    findings
}

/// Check workflow tags are a string array, not an object array.
pub fn check_tags_format(workflow: &Workflow) -> (r: Vec<Finding>)
    ensures
        views(r@) == tags_format_findings(workflow.tags),
{
    let mut findings: Vec<Finding> = Vec::new();
    let mut bad = false;
    match &workflow.tags {
        Some(JsonValue::Array(items)) => {
            let mut i: usize = 0;
            while i < items.len()
                invariant
                    i <= items.len(),
                    !bad ==> forall|j: int| 0 <= j < i ==> !is_object(#[trigger] items@[j]),
                    bad ==> exists|j: int| 0 <= j < items@.len() && is_object(#[trigger] items@[j]),
                decreases items.len() - i,
            {
                if items[i].is_object() {
                    assert(is_object(items@[i as int]));
                    bad = true;
                }
                i += 1;
            }
        },
        _ => {},
    }
    if bad {
        let f = Finding::warning(
            "tags-format",
            "Workflow tags should be a string array, not an object array. The n8n API expects string arrays for import",
        ).with_suggestion("Flatten tags: [{\"name\": \"foo\"}] -> [\"foo\"]");
        findings.push(f);
        assert(views(findings@) =~= seq![f@]);
    } else {
        assert(views(findings@) =~= Seq::<FindingView>::empty());
    }
    findings
}

/// Check for `/no_think` in Ollama API calls (the request should say `"think": false`).
pub fn check_ollama_no_think(node: &Node) -> (r: Vec<Finding>)
    ensures
        views(r@) == ollama_no_think_findings(*node),
{
    let mut findings: Vec<Finding> = Vec::new();
    if !node.is_http_request() {
        assert(views(findings@) =~= Seq::<FindingView>::empty());
        return findings;
    }
    let strings = node.all_param_strings();
    let is_ollama = any_contains_exec(&strings, "/api/generate") || any_contains_exec(
        &strings,
        "/api/chat",
    );
    if !is_ollama {
        assert(views(findings@) =~= Seq::<FindingView>::empty());
        return findings;
    }
    let pats: Vec<&str> = vec!["/no_think", "/nothink"];
    let mut found = false;
    let mut i: usize = 0;
    while i < strings.len() && !found
        invariant
            i <= strings.len(),
            str_texts(pats@) == seq!["/no_think"@, "/nothink"@],
            !found ==> forall|j: int|
                0 <= j < i ==> !contains_any(
                    lower_text(#[trigger] texts(strings@)[j]),
                    seq!["/no_think"@, "/nothink"@],
                ),
            found ==> any_no_think(texts(strings@)),
        decreases strings.len() - i,
    {
        let lower = to_lowercase(strings[i].as_str());
        let lv = chars_of(lower.as_str());
        if contains_any_exec(&lv, &pats) {
            assert(contains_any(lower_text(texts(strings@)[i as int]), seq!["/no_think"@, "/nothink"@]));
            found = true;
        }
        i += 1;
    }
    if found {
        let f = Finding::error(
            "ollama-no-think",
            "/no_think in the prompt does nothing at the API level. The model still thinks, puts output in the 'thinking' field, and returns an empty 'response' field",
        ).with_node(node.id_str(), node.name_str()).with_suggestion(
            "Remove /no_think from prompt and add \"think\": false to the request body",
        );
        findings.push(f);
        assert(views(findings@) =~= seq![f@]);
    } else {
        assert(views(findings@) =~= Seq::<FindingView>::empty());
    }
    findings
}

/// Check for overly frequent polling intervals.
pub fn check_polling_interval(node: &Node) -> (r: Vec<Finding>)
    ensures
        views(r@) == polling_interval_findings(*node),
{
    let mut findings: Vec<Finding> = Vec::new();
    if !node.is_schedule_trigger() {
        assert(views(findings@) =~= Seq::<FindingView>::empty());
        return findings;
    }
    match node.params() {
        Some(params) => {
            let text = to_json_text(params);
            if str_contains(text.as_str(), "\"seconds\"") {
                let f = Finding::warning(
                    "polling-interval",
                    "Schedule trigger uses second-level intervals. Polling more than once per minute wastes API quota",
                ).with_node(node.id_str(), node.name_str()).with_suggestion(
                    "Use 1-5 minute intervals for external API polling",
                );
                findings.push(f);
                assert(views(findings@) =~= seq![f@]);
            } else {
                assert(views(findings@) =~= Seq::<FindingView>::empty());
            }
        },
        None => {
            assert(views(findings@) =~= Seq::<FindingView>::empty());
        },
    }
    findings
}

/// The texts that mark a credential that was never configured.
pub open spec fn placeholder_patterns() -> Seq<Seq<char>> {
    seq![
        "CONFIGURE_ME"@,
        "REPLACE_WITH_"@,
        "PLACEHOLDER"@,
        "TODO"@,
        "CHANGEME"@,
        "INSERT_"@,
        "YOUR_"@,
        "XXX"@,
    ]
}

/// The first text of `ps` that `s` holds.
pub open spec fn first_held(s: Seq<char>, ps: Seq<Seq<char>>) -> Option<Seq<char>>
    decreases ps.len(),
{
    if ps.len() == 0 {
        None
    } else if contains(s, ps[0]) {
        Some(ps[0])
    } else {
        first_held(s, ps.drop_first())
    }
}

/// How credential IDs are explained in the placeholder findings.
pub open spec fn credential_id_note() -> Seq<char> {
    "Credential IDs are opaque strings like 'Fy5DPVPe3GcEl7ZI' assigned by n8n \u{2014} you cannot invent them"@
}

/// The start of the suggestion of the placeholder findings.
pub open spec fn real_id_hint() -> Seq<char> {
    "Get the real credential ID from a working workflow: run n8n_get on a workflow that uses this credential type and copy the {\"id\": \"...\", \"name\": \"...\"} block"@
}

/// An ID that looks written by hand rather than generated by n8n: it holds
/// `_`, `-` or a space, has more than 20 or fewer than 10 bytes, or is all
/// lowercase ASCII letters.
pub open spec fn looks_fabricated(id: Seq<char>) -> bool {
    ||| has_char(id, '_')
    ||| has_char(id, '-')
    ||| has_char(id, ' ')
    ||| byte_len(id) > 20
    ||| byte_len(id) < 10
    ||| forall|i: int| 0 <= i < id.len() ==> 'a' <= #[trigger] id[i] && id[i] <= 'z'
}

/// The findings for the credential of type `key` with value `v` in node `n`:
/// an error for the first placeholder pattern that its JSON text, uppercased,
/// holds; a warning when its `id` looks fabricated; an error when its `id` is empty.
pub open spec fn credential_entry_findings(n: Node, key: Seq<char>, v: JsonValue) -> Seq<
    FindingView,
> {
    let text = json_text(v);
    let at = |f: FindingView| f.at_node(opt_text(n.id), opt_text(n.name));
    let placeholder = match first_held(upper_text(text), placeholder_patterns()) {
        Some(p) => seq![
            at(
                finding(
                    "credential-placeholder"@,
                    Severity::Error,
                    "Credential '"@ + key + "' contains placeholder pattern '"@ + p + "' (value: "@
                        + text + "). "@ + credential_id_note(),
                ),
            ).suggesting(
                real_id_hint()
                    + ". Do NOT rename the placeholder \u{2014} the ID must match an existing credential configured in the n8n UI"@,
            ),
        ],
        None => seq![],
    };
    let id = match get(v, "id"@) {
        Some(JsonValue::String(s)) => Some(s@),
        _ => None,
    };
    let suspicious = match id {
        Some(i) => if i.len() > 0 && looks_fabricated(i) {
            seq![
                at(
                    finding(
                        "credential-suspicious-id"@,
                        Severity::Warning,
                        "Credential '"@ + key + "' has ID '"@ + i
                            + "' which doesn't look like an n8n-generated credential ID. Real IDs are ~16 char mixed-case alphanumeric strings (e.g. 'Fy5DPVPe3GcEl7ZI')"@,
                    ),
                ).suggesting(
                    "Verify this is a real credential ID from n8n, not a fabricated one. Run n8n_get on a working workflow to find valid credential IDs"@,
                ),
            ]
        } else {
            seq![]
        },
        None => seq![],
    };
    let empty = match id {
        Some(i) => if i.len() == 0 {
            seq![
                at(
                    finding(
                        "credential-placeholder"@,
                        Severity::Error,
                        "Credential '"@ + key + "' has empty ID. "@ + credential_id_note(),
                    ),
                ).suggesting(real_id_hint()),
            ]
        } else {
            seq![]
        },
        None => seq![],
    };
    placeholder + suspicious + empty
}

/// The findings for the credentials `entries` of node `n`, entry by entry.
pub open spec fn credential_entries_findings(n: Node, entries: Seq<(String, JsonValue)>) -> Seq<
    FindingView,
>
    decreases entries.len(),
{
    if entries.len() == 0 {
        seq![]
    } else {
        credential_entries_findings(n, entries.drop_last()) + credential_entry_findings(
            n,
            entries.last().0@,
            entries.last().1,
        )
    }
}

/// What `check_credential_placeholder` finds, credential by credential, when
/// the node's credentials are an object.
pub open spec fn credential_placeholder_findings(n: Node) -> Seq<FindingView> {
    match n.credentials {
        Some(JsonValue::Object(entries)) => credential_entries_findings(n, entries@),
        _ => seq![],
    }
}

/// The pattern of an OpenCode PWA URL, whose group 1 is the base64 directory segment.
pub open spec fn pwa_url_pattern() -> Seq<char> {
    "/([A-Za-z0-9+/_-]+)/session/"@
}

/// A base64 segment without padding: its byte length is not a multiple of
/// four and it does not end with `=`.
pub open spec fn unpadded(segment: Seq<char>) -> bool {
    byte_len(segment) % 4 != 0 && !has_suffix(segment, "="@)
}

/// A parameter string with an OpenCode PWA URL whose base64 segment is unpadded.
pub open spec fn unpadded_pwa_url(s: Seq<char>) -> bool {
    &&& contains(s, "/session/"@)
    &&& regex_first_group(pwa_url_pattern(), s) matches Some(g) && unpadded(g)
}

/// What `check_base64_padding` finds: one warning when some parameter string
/// holds an OpenCode PWA URL with an unpadded base64 segment.
pub open spec fn base64_padding_findings(n: Node) -> Seq<FindingView> {
    let ss = param_strings(n);
    if exists|i: int| 0 <= i < ss.len() && unpadded_pwa_url(#[trigger] ss[i]) {
        seq![
            finding(
                "base64-padding"@,
                Severity::Warning,
                "OpenCode PWA URL appears to have unpadded base64 segment. Missing padding can cause client-side routing failures"@,
            ).at_node(opt_text(n.id), opt_text(n.name)).suggesting(
                "Include base64 padding (==) in the directory segment"@,
            ),
        ]
    } else {
        seq![]
    }
}

/// The name a position finding gives a node.
pub open spec fn name_or_unnamed(n: Node) -> Seq<char> {
    match n.name {
        Some(s) => s@,
        None => "unnamed"@,
    }
}

/// The JSON text of the position and the name of each node of `nodes` that
/// has a position, in order.
pub open spec fn position_entries(nodes: Seq<Node>) -> Seq<(Seq<char>, Seq<char>)>
    decreases nodes.len(),
{
    if nodes.len() == 0 {
        seq![]
    } else {
        position_entries(nodes.drop_last()) + match nodes.last().position {
            Some(p) => seq![(json_text(p), name_or_unnamed(nodes.last()))],
            None => seq![],
        }
    }
}

/// The names in `es` at position `key`, in order.
pub open spec fn names_at(es: Seq<(Seq<char>, Seq<char>)>, key: Seq<char>) -> Seq<Seq<char>>
    decreases es.len(),
{
    if es.len() == 0 {
        seq![]
    } else {
        names_at(es.drop_last(), key) + if es.last().0 == key {
            seq![es.last().1]
        } else {
            seq![]
        }
    }
}

/// Entry `i` of `es` is the first at its position.
pub open spec fn first_at_position(es: Seq<(Seq<char>, Seq<char>)>, i: int) -> bool {
    forall|j: int| 0 <= j < i ==> (#[trigger] es[j]).0 != es[i].0
}

/// The warning for the nodes `names` at position `key`.
pub open spec fn duplicate_finding(key: Seq<char>, names: Seq<Seq<char>>) -> FindingView {
    finding(
        "duplicate-node-position"@,
        Severity::Warning,
        "Nodes at same position "@ + key + ": "@ + join(names, ", "@)
            + ". This creates visual overlap in n8n UI"@,
    ).suggesting("Space nodes apart for readability"@)
}

/// One warning for each position held by more than one node, taking the
/// positions of the first `i` entries of `es` in the order they first occur.
pub open spec fn duplicate_findings_upto(es: Seq<(Seq<char>, Seq<char>)>, i: int) -> Seq<
    FindingView,
>
    decreases i,
{
    if i <= 0 {
        seq![]
    } else {
        duplicate_findings_upto(es, i - 1) + if first_at_position(es, i - 1) && names_at(
            es,
            es[i - 1].0,
        ).len() > 1 {
            seq![duplicate_finding(es[i - 1].0, names_at(es, es[i - 1].0))]
        } else {
            seq![]
        }
    }
}

/// What `check_duplicate_positions` finds: one warning for each position held
/// by more than one node, naming those nodes, positions in the order in which
/// they first occur.
pub open spec fn duplicate_position_findings(nodes: Seq<Node>) -> Seq<FindingView> {
    let es = position_entries(nodes);
    duplicate_findings_upto(es, es.len() as int)
}

/// What `check_node` finds: the per-node gotchas in this order: OpenCode
/// timeout, expression syntax, credential placeholders, base64 padding,
/// Ollama `/no_think`, polling interval.
pub open spec fn node_gotcha_findings(n: Node) -> Seq<FindingView> {
    opencode_timeout_findings(n) + expression_syntax_findings(n) + credential_placeholder_findings(
        n,
    ) + base64_padding_findings(n) + ollama_no_think_findings(n) + polling_interval_findings(n)
}

/// Every credential finding on `n` is about `n`.
proof fn lemma_credential_findings_about_node(n: Node, entries: Seq<(String, JsonValue)>)
    ensures
        about_node(credential_entries_findings(n, entries), opt_text(n.id), opt_text(n.name)),
    decreases entries.len(),
{
    if entries.len() > 0 {
        lemma_credential_findings_about_node(n, entries.drop_last());
    }
}

/// Every finding of the per-node gotchas on `n` is about `n`.
pub proof fn lemma_node_gotchas_about_node(n: Node)
    ensures
        about_node(node_gotcha_findings(n), opt_text(n.id), opt_text(n.name)),
{
    if let Some(JsonValue::Object(entries)) = n.credentials {
        lemma_credential_findings_about_node(n, entries@);
    }
}

/// No two entries of `es` share a position.
pub open spec fn distinct_positions(es: Seq<(Seq<char>, Seq<char>)>) -> bool {
    forall|i: int, j: int| 0 <= i < j < es.len() ==> (#[trigger] es[i]).0 != (#[trigger] es[j]).0
}

/// No node is named at a position that no entry has.
proof fn lemma_names_at_absent(es: Seq<(Seq<char>, Seq<char>)>, key: Seq<char>)
    requires
        forall|k: int| 0 <= k < es.len() ==> (#[trigger] es[k]).0 != key,
    ensures
        names_at(es, key).len() == 0,
    decreases es.len(),
{
    if es.len() > 0 {
        assert(forall|k: int| 0 <= k < es.drop_last().len() ==> es.drop_last()[k] == es[k]);
        lemma_names_at_absent(es.drop_last(), key);
        assert(es.last() == es[es.len() - 1]);
    }
}

/// When positions are distinct, exactly one node is named at the position of
/// entry `i`.
proof fn lemma_names_at_single(es: Seq<(Seq<char>, Seq<char>)>, i: int)
    requires
        distinct_positions(es),
        0 <= i < es.len(),
    ensures
        names_at(es, es[i].0).len() == 1,
    decreases es.len(),
{
    let rest = es.drop_last();
    assert(forall|k: int| 0 <= k < rest.len() ==> rest[k] == es[k]);
    if i == es.len() - 1 {
        assert forall|k: int| 0 <= k < rest.len() implies (#[trigger] rest[k]).0 != es[i].0 by {
            assert(es[k].0 != es[i].0);
        }
        lemma_names_at_absent(rest, es[i].0);
    } else {
        assert(distinct_positions(rest)) by {
            assert forall|a: int, b: int| 0 <= a < b < rest.len() implies (#[trigger] rest[a]).0
                != (#[trigger] rest[b]).0 by {
                assert(es[a].0 != es[b].0);
            }
        }
        lemma_names_at_single(rest, i);
        assert(rest[i] == es[i]);
        assert(es.last() == es[es.len() - 1]);
        assert(es[i].0 != es[es.len() - 1].0);
    }
}

/// When positions are distinct, no prefix of the entries gives a warning.
proof fn lemma_no_duplicates_upto(es: Seq<(Seq<char>, Seq<char>)>, i: int)
    requires
        distinct_positions(es),
        0 <= i <= es.len(),
    ensures
        duplicate_findings_upto(es, i) == Seq::<FindingView>::empty(),
    decreases i,
{
    if i > 0 {
        lemma_no_duplicates_upto(es, i - 1);
        lemma_names_at_single(es, i - 1);
        assert(duplicate_findings_upto(es, i) =~= Seq::<FindingView>::empty());
    }
}

/// Nodes at distinct positions get no duplicate-position warning.
pub proof fn lemma_distinct_positions_no_warning(nodes: Seq<Node>)
    requires
        distinct_positions(position_entries(nodes)),
    ensures
        duplicate_position_findings(nodes) == Seq::<FindingView>::empty(),
{
    let es = position_entries(nodes);
    lemma_no_duplicates_upto(es, es.len() as int);
}

/// The first unbalanced string is found exactly when some string is unbalanced.
proof fn lemma_first_unbalanced_none(ss: Seq<Seq<char>>)
    ensures
        first_unbalanced(ss) is None <==> forall|i: int|
            0 <= i < ss.len() ==> balanced_or_expression(#[trigger] ss[i]),
    decreases ss.len(),
{
    if ss.len() > 0 {
        lemma_first_unbalanced_none(ss.drop_first());
        if first_unbalanced(ss) is None {
            assert forall|i: int| 0 <= i < ss.len() implies balanced_or_expression(
                #[trigger] ss[i],
            ) by {
                if i > 0 {
                    assert(ss[i] == ss.drop_first()[i - 1]);
                }
            }
        } else if balanced_or_expression(ss[0]) {
            let i = choose|i: int|
                0 <= i < ss.drop_first().len() && !balanced_or_expression(
                    #[trigger] ss.drop_first()[i],
                );
            assert(ss[i + 1] == ss.drop_first()[i]);
        }
    }
}

/// A node whose parameter strings all have as many `{{` as `}}`, or are `=`
/// expressions, gets no expression-syntax finding; otherwise it gets one.
pub proof fn lemma_expression_syntax_iff_unbalanced(n: Node)
    ensures
        expression_syntax_findings(n) == Seq::<FindingView>::empty() <==> forall|i: int|
            0 <= i < param_strings(n).len() ==> balanced_or_expression(
                #[trigger] param_strings(n)[i],
            ),
        expression_syntax_findings(n).len() <= 1,
{
    lemma_first_unbalanced_none(param_strings(n));
}

/// A parameter string that does not start with `=` and holds a different
/// number of `{{` and `}}` always gives the node an expression-syntax error,
/// whatever else the string holds.
pub proof fn lemma_unmatched_delimiters_reported(n: Node, i: int)
    requires
        0 <= i < param_strings(n).len(),
        !has_prefix(param_strings(n)[i], "="@),
        count_matches(param_strings(n)[i], "{{"@) != count_matches(param_strings(n)[i], "}}"@),
    ensures
        has_finding(expression_syntax_findings(n), "expression-syntax"@, Severity::Error),
        has_finding(node_gotcha_findings(n), "expression-syntax"@, Severity::Error),
{
    lemma_first_unbalanced_none(param_strings(n));
    assert(!balanced_or_expression(param_strings(n)[i]));
    let e = expression_syntax_findings(n);
    assert(e[0].rule == "expression-syntax"@ && e[0].severity == Severity::Error);
    let a = opencode_timeout_findings(n);
    lemma_has_finding_concat(a, e, "expression-syntax"@, Severity::Error);
    let rest1 = credential_placeholder_findings(n);
    lemma_has_finding_concat(a + e, rest1, "expression-syntax"@, Severity::Error);
    let rest2 = base64_padding_findings(n);
    lemma_has_finding_concat(a + e + rest1, rest2, "expression-syntax"@, Severity::Error);
    let rest3 = ollama_no_think_findings(n);
    lemma_has_finding_concat(a + e + rest1 + rest2, rest3, "expression-syntax"@, Severity::Error);
    let rest4 = polling_interval_findings(n);
    lemma_has_finding_concat(
        a + e + rest1 + rest2 + rest3,
        rest4,
        "expression-syntax"@,
        Severity::Error,
    );
}

/// A node whose parameter strings each start with `=` or hold as many `{{`
/// as `}}` gets no expression-syntax finding.
pub proof fn lemma_matched_delimiters_accepted(n: Node)
    requires
        forall|i: int|
            0 <= i < param_strings(n).len() ==> has_prefix(#[trigger] param_strings(n)[i], "="@)
                || count_matches(param_strings(n)[i], "{{"@) == count_matches(
                param_strings(n)[i],
                "}}"@,
            ),
    ensures
        expression_syntax_findings(n) == Seq::<FindingView>::empty(),
{
    lemma_first_unbalanced_none(param_strings(n));
    assert(expression_syntax_findings(n) =~= Seq::<FindingView>::empty());
}

/// The credentials of `n` as members of an object (none when they are not an object).
pub open spec fn credential_entries(n: Node) -> Seq<(String, JsonValue)> {
    match n.credentials {
        Some(JsonValue::Object(entries)) => entries@,
        _ => seq![],
    }
}

/// The ID that the credential value `v` holds, when it is a string.
pub open spec fn credential_id(v: JsonValue) -> Option<Seq<char>> {
    match get(v, "id"@) {
        Some(JsonValue::String(s)) => Some(s@),
        _ => None,
    }
}

/// A suspicious-ID warning for one credential is a warning for the node.
proof fn lemma_entry_warning_kept(n: Node, entries: Seq<(String, JsonValue)>, k: int)
    requires
        0 <= k < entries.len(),
        has_finding(
            credential_entry_findings(n, entries[k].0@, entries[k].1),
            "credential-suspicious-id"@,
            Severity::Warning,
        ),
    ensures
        has_finding(
            credential_entries_findings(n, entries),
            "credential-suspicious-id"@,
            Severity::Warning,
        ),
    decreases entries.len(),
{
    let rest = entries.drop_last();
    if k == entries.len() - 1 {
        lemma_has_finding_concat(
            credential_entries_findings(n, rest),
            credential_entry_findings(n, entries[k].0@, entries[k].1),
            "credential-suspicious-id"@,
            Severity::Warning,
        );
    } else {
        assert(rest[k] == entries[k]);
        lemma_entry_warning_kept(n, rest, k);
        lemma_has_finding_concat(
            credential_entries_findings(n, rest),
            credential_entry_findings(n, entries.last().0@, entries.last().1),
            "credential-suspicious-id"@,
            Severity::Warning,
        );
    }
}

/// A credential whose ID is not empty but has fewer than 10 bytes (such as
/// `slack1`) always gets a suspicious-ID warning, whatever else it holds.
pub proof fn lemma_short_credential_id_suspicious(n: Node, k: int, id: Seq<char>)
    requires
        0 <= k < credential_entries(n).len(),
        credential_id(credential_entries(n)[k].1) == Some(id),
        0 < byte_len(id) < 10,
    ensures
        has_finding(
            credential_placeholder_findings(n),
            "credential-suspicious-id"@,
            Severity::Warning,
        ),
{
    let entries = credential_entries(n);
    let v = entries[k].1;
    assert(id.len() > 0) by {
        if id.len() == 0 {
            assert(vstd::utf8::encode_utf8(id) =~= Seq::<u8>::empty());
        }
    }
    let fs = credential_entry_findings(n, entries[k].0@, v);
    let text = json_text(v);
    let placeholder_len: int = match first_held(upper_text(text), placeholder_patterns()) {
        Some(_) => 1,
        None => 0,
    };
    assert(fs[placeholder_len].rule == "credential-suspicious-id"@);
    assert(fs[placeholder_len].severity == Severity::Warning);
    lemma_entry_warning_kept(n, entries, k);
}

/// What `check_workflow` finds: the tags format, then duplicate positions.
pub open spec fn workflow_gotcha_findings(tags: Option<JsonValue>, nodes: Seq<Node>) -> Seq<
    FindingView,
> {
    tags_format_findings(tags) + duplicate_position_findings(nodes)
}

/// Placeholder pattern `i`.
fn placeholder_pattern(i: usize) -> (r: &'static str)
    requires
        i < 8,
    ensures
        r@ == placeholder_patterns()[i as int],
{
    if i == 0 {
        "CONFIGURE_ME"
    } else if i == 1 {
        "REPLACE_WITH_"
    } else if i == 2 {
        "PLACEHOLDER"
    } else if i == 3 {
        "TODO"
    } else if i == 4 {
        "CHANGEME"
    } else if i == 5 {
        "INSERT_"
    } else if i == 6 {
        "YOUR_"
    } else {
        "XXX"
    }
}

/// The first placeholder pattern that `s` holds.
fn first_placeholder(s: &str) -> (r: Option<&'static str>)
    ensures
        match r {
            Some(p) => first_held(s@, placeholder_patterns()) == Some(p@),
            None => first_held(s@, placeholder_patterns()) is None,
        },
{
    let mut i: usize = 0;
    assert(placeholder_patterns().subrange(0, 8) =~= placeholder_patterns());
    while i < 8
        invariant
            i <= 8,
            first_held(s@, placeholder_patterns()) == first_held(
                s@,
                placeholder_patterns().subrange(i as int, 8),
            ),
        decreases 8 - i,
    {
        let p = placeholder_pattern(i);
        let ghost rest = placeholder_patterns().subrange(i as int, 8);
        assert(rest.drop_first() =~= placeholder_patterns().subrange(i + 1, 8));
        if str_contains(s, p) {
            return Some(p);
        }
        i += 1;
    }
    assert(placeholder_patterns().subrange(8, 8) =~= Seq::<Seq<char>>::empty());
    None
}

/// Whether the credential ID `id` looks fabricated.
fn looks_fabricated_exec(id: &str) -> (r: bool)
    ensures
        r == looks_fabricated(id@),
{
    let cv = chars_of(id);
    let nbytes = id.as_bytes().len();
    if has_char_exec(&cv, '_') || has_char_exec(&cv, '-') || has_char_exec(&cv, ' ') || nbytes > 20
        || nbytes < 10 {
        return true;
    }
    let mut i: usize = 0;
    while i < cv.len()
        invariant
            i <= cv.len(),
            cv@ == id@,
            !(has_char(id@, '_') || has_char(id@, '-') || has_char(id@, ' ') || byte_len(id@) > 20
                || byte_len(id@) < 10),
            forall|j: int| 0 <= j < i ==> 'a' <= #[trigger] cv@[j] && cv@[j] <= 'z',
        decreases cv.len() - i,
    {
        if !('a' <= cv[i] && cv[i] <= 'z') {
            return false;
        }
        i += 1;
    }
    true
}

/// The findings for the credential of type `key` with value `v` in `node`.
fn credential_entry_check(node: &Node, key: &str, v: &JsonValue) -> (r: Vec<Finding>)
    ensures
        views(r@) == credential_entry_findings(*node, key@, *v),
{
    let mut findings: Vec<Finding> = Vec::new();
    let text = to_json_text(v);
    let upper = to_uppercase(text.as_str());
    let ghost f1: Seq<FindingView> = seq![];
    match first_placeholder(upper.as_str()) {
        Some(p) => {
            let mut msg = String::from_str("Credential '");
            msg.append(key);
            msg.append("' contains placeholder pattern '");
            msg.append(p);
            msg.append("' (value: ");
            msg.append(text.as_str());
            msg.append("). ");
            msg.append(
                "Credential IDs are opaque strings like 'Fy5DPVPe3GcEl7ZI' assigned by n8n \u{2014} you cannot invent them",
            );
            let mut sugg = String::from_str(
                "Get the real credential ID from a working workflow: run n8n_get on a workflow that uses this credential type and copy the {\"id\": \"...\", \"name\": \"...\"} block",
            );
            sugg.append(
                ". Do NOT rename the placeholder \u{2014} the ID must match an existing credential configured in the n8n UI",
            );
            let f = Finding::error("credential-placeholder", msg.as_str()).with_node(
                node.id_str(),
                node.name_str(),
            ).with_suggestion(sugg.as_str());
            findings.push(f);
            proof {
                f1 = seq![f@];
            }
        },
        None => {},
    }
    assert(views(findings@) =~= f1);
    let id: Option<&String> = match v.get("id") {
        Some(JsonValue::String(s)) => Some(s),
        _ => None,
    };
    let ghost f2: Seq<FindingView> = seq![];
    let ghost f3: Seq<FindingView> = seq![];
    match id {
        Some(id_str) => {
            let id_text = id_str.as_str();
            let empty = id_text.as_bytes().len() == 0;
            if !empty && looks_fabricated_exec(id_text) {
                let mut msg = String::from_str("Credential '");
                msg.append(key);
                msg.append("' has ID '");
                msg.append(id_text);
                msg.append(
                    "' which doesn't look like an n8n-generated credential ID. Real IDs are ~16 char mixed-case alphanumeric strings (e.g. 'Fy5DPVPe3GcEl7ZI')",
                );
                let f = Finding::warning("credential-suspicious-id", msg.as_str()).with_node(
                    node.id_str(),
                    node.name_str(),
                ).with_suggestion(
                    "Verify this is a real credential ID from n8n, not a fabricated one. Run n8n_get on a working workflow to find valid credential IDs",
                );
                let ghost before = views(findings@);
                findings.push(f);
                assert(views(findings@) =~= before + seq![f@]);
                proof {
                    f2 = seq![f@];
                }
            }
            if empty {
                let mut msg = String::from_str("Credential '");
                msg.append(key);
                msg.append("' has empty ID. ");
                msg.append(
                    "Credential IDs are opaque strings like 'Fy5DPVPe3GcEl7ZI' assigned by n8n \u{2014} you cannot invent them",
                );
                let f = Finding::error("credential-placeholder", msg.as_str()).with_node(
                    node.id_str(),
                    node.name_str(),
                ).with_suggestion(
                    "Get the real credential ID from a working workflow: run n8n_get on a workflow that uses this credential type and copy the {\"id\": \"...\", \"name\": \"...\"} block",
                );
                let ghost before = views(findings@);
                findings.push(f);
                assert(views(findings@) =~= before + seq![f@]);
                proof {
                    f3 = seq![f@];
                }
            }
        },
        None => {},
    }
    assert(views(findings@) =~= f1 + f2 + f3);
    findings
}

/// Check for placeholder credentials.
pub fn check_credential_placeholder(node: &Node) -> (r: Vec<Finding>)
    ensures
        views(r@) == credential_placeholder_findings(*node),
{
    let mut findings: Vec<Finding> = Vec::new();
    match &node.credentials {
        Some(JsonValue::Object(entries)) => {
            let mut i: usize = 0;
            assert(entries@.subrange(0, 0) =~= Seq::<(String, JsonValue)>::empty());
            while i < entries.len()
                invariant
                    i <= entries.len(),
                    views(findings@) == credential_entries_findings(
                        *node,
                        entries@.subrange(0, i as int),
                    ),
                decreases entries.len() - i,
            {
                let ghost prefix = entries@.subrange(0, i + 1);
                assert(prefix.drop_last() =~= entries@.subrange(0, i as int));
                let ghost before = views(findings@);
                let mut more = credential_entry_check(node, entries[i].0.as_str(), &entries[i].1);
                findings.append(&mut more);
                assert(views(findings@) =~= before + credential_entry_findings(
                    *node,
                    prefix.last().0@,
                    prefix.last().1,
                ));
                i += 1;
            }
            assert(entries@.subrange(0, entries@.len() as int) =~= entries@);
        },
        _ => {
            assert(views(findings@) =~= Seq::<FindingView>::empty());
        },
    }
    findings
}

/// Whether the base64 `segment` of an OpenCode PWA URL lacks its padding, as
/// `check_base64_padding` decides once the URL pattern has matched.
pub fn unpadded_base64(segment: &str) -> (r: bool)
    ensures
        r == unpadded(segment@),
{
    segment.as_bytes().len() % 4 != 0 && !str_ends_with(segment, "=")
}

/// Check OpenCode PWA URLs have proper base64 padding.
pub fn check_base64_padding(node: &Node) -> (r: Vec<Finding>)
    ensures
        views(r@) == base64_padding_findings(*node),
{
    let mut findings: Vec<Finding> = Vec::new();
    let strings = node.all_param_strings();
    let pattern = "/([A-Za-z0-9+/_-]+)/session/";
    let mut found = false;
    let mut i: usize = 0;
    while i < strings.len() && !found
        invariant
            i <= strings.len(),
            pattern@ == pwa_url_pattern(),
            !found ==> forall|j: int| 0 <= j < i ==> !unpadded_pwa_url(#[trigger] texts(strings@)[j]),
            found ==> exists|j: int|
                0 <= j < strings@.len() && unpadded_pwa_url(#[trigger] texts(strings@)[j]),
        decreases strings.len() - i,
    {
        let s = strings[i].as_str();
        if str_contains(s, "/session/") {
            match regex_capture(pattern, s) {
                Some(b64) => {
                    if unpadded_base64(b64.as_str()) {
                        assert(unpadded_pwa_url(texts(strings@)[i as int]));
                        found = true;
                    }
                },
                None => {},
            }
        }
        i += 1;
    }
    if found {
        let f = Finding::warning(
            "base64-padding",
            "OpenCode PWA URL appears to have unpadded base64 segment. Missing padding can cause client-side routing failures",
        ).with_node(node.id_str(), node.name_str()).with_suggestion(
            "Include base64 padding (==) in the directory segment",
        );
        findings.push(f);
        assert(views(findings@) =~= seq![f@]);
    } else {
        assert(views(findings@) =~= Seq::<FindingView>::empty());
    }
    findings
}

/// The texts of a list of pairs of strings.
pub open spec fn pair_texts(v: Seq<(String, String)>) -> Seq<(Seq<char>, Seq<char>)> {
    v.map_values(|p: (String, String)| (p.0@, p.1@))
}

/// The position text and name of each node of `nodes` that has a position.
fn position_entries_exec(nodes: &[Node]) -> (r: Vec<(String, String)>)
    ensures
        pair_texts(r@) == position_entries(nodes@),
{
    let mut es: Vec<(String, String)> = Vec::new();
    let mut i: usize = 0;
    assert(nodes@.subrange(0, 0) =~= Seq::<Node>::empty());
    while i < nodes.len()
        invariant
            i <= nodes@.len(),
            pair_texts(es@) == position_entries(nodes@.subrange(0, i as int)),
        decreases nodes@.len() - i,
    {
        let ghost prefix = nodes@.subrange(0, i + 1);
        assert(prefix.drop_last() =~= nodes@.subrange(0, i as int));
        let node = &nodes[i];
        match &node.position {
            Some(p) => {
                let key = to_json_text(p);
                let name = match node.name_str() {
                    Some(n) => n.to_string(),
                    None => String::from_str("unnamed"),
                };
                let ghost before = pair_texts(es@);
                es.push((key, name));
                assert(pair_texts(es@) =~= before + seq![(json_text(*p), name_or_unnamed(*node))]);
            },
            None => {
                assert(pair_texts(es@) =~= pair_texts(es@) + Seq::<(Seq<char>, Seq<char>)>::empty());
            },
        }
        i += 1;
    }
    assert(nodes@.subrange(0, nodes@.len() as int) =~= nodes@);
    es
}

/// Whether entry `i` of `es` is the first at its position.
fn first_at_position_exec(es: &Vec<(String, String)>, i: usize) -> (r: bool)
    requires
        i < es.len(),
    ensures
        r == first_at_position(pair_texts(es@), i as int),
{
    let mut j: usize = 0;
    while j < i
        invariant
            j <= i < es.len(),
            forall|k: int| 0 <= k < j ==> (#[trigger] pair_texts(es@)[k]).0 != pair_texts(es@)[i as int].0,
        decreases i - j,
    {
        if str_eq(es[j].0.as_str(), es[i].0.as_str()) {
            assert(pair_texts(es@)[j as int].0 == pair_texts(es@)[i as int].0);
            return false;
        }
        j += 1;
    }
    true
}

/// The names in `es` at position `key`, in order.
fn names_at_exec(es: &Vec<(String, String)>, key: &str) -> (r: Vec<String>)
    ensures
        texts(r@) == names_at(pair_texts(es@), key@),
{
    let mut names: Vec<String> = Vec::new();
    let mut k: usize = 0;
    assert(pair_texts(es@).subrange(0, 0) =~= Seq::<(Seq<char>, Seq<char>)>::empty());
    while k < es.len()
        invariant
            k <= es.len(),
            texts(names@) == names_at(pair_texts(es@).subrange(0, k as int), key@),
        decreases es.len() - k,
    {
        let ghost prefix = pair_texts(es@).subrange(0, k + 1);
        assert(prefix.drop_last() =~= pair_texts(es@).subrange(0, k as int));
        assert(prefix.last() == (es@[k as int].0@, es@[k as int].1@));
        if str_eq(es[k].0.as_str(), key) {
            let ghost before = texts(names@);
            names.push(es[k].1.clone());
            assert(texts(names@) =~= before + seq![es@[k as int].1@]);
        } else {
            assert(texts(names@) =~= texts(names@) + Seq::<Seq<char>>::empty());
        }
        k += 1;
    }
    assert(pair_texts(es@).subrange(0, es@.len() as int) =~= pair_texts(es@));
    names
}

/// `names` joined with `, `.
fn join_names(names: &Vec<String>) -> (r: String)
    ensures
        r@ == join(texts(names@), ", "@),
{
    if names.len() == 0 {
        return String::new();
    }
    let mut out = names[0].clone();
    let mut i: usize = 1;
    assert(texts(names@).subrange(0, 1) =~= seq![names@[0]@]);
    while i < names.len()
        invariant
            1 <= i <= names.len(),
            out@ == join(texts(names@).subrange(0, i as int), ", "@),
        decreases names.len() - i,
    {
        let ghost prefix = texts(names@).subrange(0, i + 1);
        assert(prefix.drop_last() =~= texts(names@).subrange(0, i as int));
        out.append(", ");
        out.append(names[i].as_str());
        i += 1;
    }
    assert(texts(names@).subrange(0, names@.len() as int) =~= texts(names@));
    out
}

/// Check for duplicate node positions (workflow-level).
pub fn check_duplicate_positions(nodes: &[Node]) -> (r: Vec<Finding>)
    ensures
        views(r@) == duplicate_position_findings(nodes@),
{
    let es = position_entries_exec(nodes);
    let mut findings: Vec<Finding> = Vec::new();
    let mut i: usize = 0;
    while i < es.len()
        invariant
            i <= es.len(),
            views(findings@) == duplicate_findings_upto(pair_texts(es@), i as int),
        decreases es.len() - i,
    {
        if first_at_position_exec(&es, i) {
            let names = names_at_exec(&es, es[i].0.as_str());
            if names.len() > 1 {
                let joined = join_names(&names);
                let mut msg = String::from_str("Nodes at same position ");
                msg.append(es[i].0.as_str());
                msg.append(": ");
                msg.append(joined.as_str());
                msg.append(". This creates visual overlap in n8n UI");
                let f = Finding::warning("duplicate-node-position", msg.as_str()).with_suggestion(
                    "Space nodes apart for readability",
                );
                let ghost before = views(findings@);
                findings.push(f);
                assert(views(findings@) =~= before + seq![f@]);
            } else {
                assert(views(findings@) =~= views(findings@) + Seq::<FindingView>::empty());
            }
        } else {
            assert(views(findings@) =~= views(findings@) + Seq::<FindingView>::empty());
        }
        i += 1;
    }
    findings
}

/// Run the per-node gotcha checks.
pub fn check_node(node: &Node) -> (r: Vec<Finding>)
    ensures
        views(r@) == node_gotcha_findings(*node),
{
    let mut findings = check_opencode_timeout(node);
    let mut more = check_expression_syntax(node);
    findings.append(&mut more);
    let mut more = check_credential_placeholder(node);
    findings.append(&mut more);
    let mut more = check_base64_padding(node);
    findings.append(&mut more);
    let mut more = check_ollama_no_think(node);
    findings.append(&mut more);
    let mut more = check_polling_interval(node);
    findings.append(&mut more);
    assert(views(findings@) =~= node_gotcha_findings(*node));
    findings
}

/// Run the workflow-level gotcha checks.
pub fn check_workflow(workflow: &Workflow, nodes: &[Node]) -> (r: Vec<Finding>)
    ensures
        views(r@) == workflow_gotcha_findings(workflow.tags, nodes@),
{
    let mut findings = check_tags_format(workflow);
    let mut more = check_duplicate_positions(nodes);
    findings.append(&mut more);
    assert(views(findings@) =~= workflow_gotcha_findings(workflow.tags, nodes@));
    findings
}

} // verus!
