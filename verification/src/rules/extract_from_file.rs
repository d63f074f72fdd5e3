//! Rules for Extract From File nodes: the `operation` parameter must name a
//! known operation, and a likely intended one is suggested for a misspelling.
use vstd::prelude::*;
use crate::finding::{about_node, finding, opt_text, views, Finding, FindingView, Severity};
use crate::foreign::{ascii_lower, ascii_lower_char, is_ascii_text, lowercase, to_lowercase};
use crate::model::{extract_from_file_type, param_text, type_text, Node};
use crate::text::{chars_of, contains, contains_chars, join, str_eq};

verus! {

/// The valid operation values of the extractFromFile node, as its node
/// definition lists them.
pub open spec fn valid_operations() -> Seq<Seq<char>> {
    seq![
        "binaryToPropery"@,
        "csv"@,
        "html"@,
        "fromIcs"@,
        "fromJson"@,
        "ods"@,
        "pdf"@,
        "rtf"@,
        "text"@,
        "xls"@,
        "xlsx"@,
        "xml"@,
    ]
}

/// Common misspellings and confusions, each with the operation meant.
pub open spec fn fuzzy_matches() -> Seq<(Seq<char>, Seq<char>)> {
    seq![
        ("json"@, "fromJson"@),
        ("fromjson"@, "fromJson"@),
        ("ics"@, "fromIcs"@),
        ("fromics"@, "fromIcs"@),
        ("ical"@, "fromIcs"@),
        ("fromical"@, "fromIcs"@),
        ("binarytoproperty"@, "binaryToPropery"@),
        ("binaryToPropery"@, "binaryToPropery"@),
        ("binaryToProperty"@, "binaryToPropery"@),
        ("binary"@, "binaryToPropery"@),
        ("spreadsheet"@, "xlsx"@),
        ("excel"@, "xlsx"@),
        ("tsv"@, "csv"@),
        ("richtext"@, "rtf"@),
        ("rich_text"@, "rtf"@),
    ]
}

/// The operation meant by the first entry of `table` whose misspelling,
/// lowercased, is `lower`.
pub open spec fn fuzzy_lookup(table: Seq<(Seq<char>, Seq<char>)>, lower: Seq<char>) -> Option<
    Seq<char>,
>
    decreases table.len(),
{
    if table.len() == 0 {
        None
    } else if lowercase(table[0].0) == lower {
        Some(table[0].1)
    } else {
        fuzzy_lookup(table.drop_first(), lower)
    }
}

/// The first operation of `ops` that, lowercased, is `lower`.
pub open spec fn case_lookup(ops: Seq<Seq<char>>, lower: Seq<char>) -> Option<Seq<char>>
    decreases ops.len(),
{
    if ops.len() == 0 {
        None
    } else if lowercase(ops[0]) == lower {
        Some(ops[0])
    } else {
        case_lookup(ops.drop_first(), lower)
    }
}

/// The first operation of `ops` whose lowercase holds `lower` or is held in it.
pub open spec fn substring_lookup(ops: Seq<Seq<char>>, lower: Seq<char>) -> Option<Seq<char>>
    decreases ops.len(),
{
    if ops.len() == 0 {
        None
    } else if contains(lowercase(ops[0]), lower) || contains(lower, lowercase(ops[0])) {
        Some(ops[0])
    } else {
        substring_lookup(ops.drop_first(), lower)
    }
}

/// The likely intended operation for `input`: by the misspelling table, else
/// by a case-insensitive match, else by a substring match either way.
pub open spec fn suggestion(input: Seq<char>) -> Option<Seq<char>> {
    let lower = lowercase(input);
    match fuzzy_lookup(fuzzy_matches(), lower) {
        Some(s) => Some(s),
        None => match case_lookup(valid_operations(), lower) {
            Some(s) => Some(s),
            None => substring_lookup(valid_operations(), lower),
        },
    }
}

/// The valid operations, comma separated.
pub open spec fn operations_list() -> Seq<char> {
    join(valid_operations(), ", "@)
}

/// What `check_operation` finds in an extractFromFile node: an error when
/// `operation` is missing, none when it is valid, and otherwise an error that
/// names the valid operations and suggests the likely intended one.
pub open spec fn operation_findings(n: Node) -> Seq<FindingView> {
    if type_text(n) != extract_from_file_type() {
        seq![]
    } else {
        match param_text(n, "operation"@) {
            None => seq![
                finding(
                    "extract-from-file-operation"@,
                    Severity::Error,
                    "extractFromFile node is missing the 'operation' parameter"@,
                ).at_node(opt_text(n.id), opt_text(n.name)).suggesting(
                    "Add an 'operation' parameter with one of: "@ + operations_list(),
                ),
            ],
            Some(op) => if valid_operations().contains(op) {
                seq![]
            } else {
                seq![
                    finding(
                        "extract-from-file-operation"@,
                        Severity::Error,
                        "Unknown extractFromFile operation \""@ + op
                            + "\". Valid operations are: "@ + operations_list(),
                    ).at_node(opt_text(n.id), opt_text(n.name)).suggesting(
                        match suggestion(op) {
                            Some(s) => "Did you mean \""@ + s + "\"?"@,
                            None => "Use one of: "@ + operations_list(),
                        },
                    ),
                ]
            },
        }
    }
}

/// What tells two texts of the tables apart: their length and their
/// characters at indices 0, 1 and (for longer texts) 4.
spec fn text_signature(s: Seq<char>) -> (nat, char, char, char) {
    (s.len(), s[0], s[1], if s.len() > 4 { s[4] } else { ' ' })
}

/// The misspellings and the valid operations are ASCII texts.
proof fn lemma_tables_ascii()
    ensures
        forall|k: int| 0 <= k < 15 ==> is_ascii_text(#[trigger] fuzzy_matches()[k].0),
        forall|j: int| 0 <= j < 12 ==> is_ascii_text(#[trigger] valid_operations()[j]),
{
    reveal_strlit("binaryToPropery");
    reveal_strlit("csv");
    reveal_strlit("html");
    reveal_strlit("fromIcs");
    reveal_strlit("fromJson");
    reveal_strlit("ods");
    reveal_strlit("pdf");
    reveal_strlit("rtf");
    reveal_strlit("text");
    reveal_strlit("xls");
    reveal_strlit("xlsx");
    reveal_strlit("xml");
    reveal_strlit("json");
    reveal_strlit("fromjson");
    reveal_strlit("ics");
    reveal_strlit("fromics");
    reveal_strlit("ical");
    reveal_strlit("fromical");
    reveal_strlit("binarytoproperty");
    reveal_strlit("binaryToProperty");
    reveal_strlit("binary");
    reveal_strlit("spreadsheet");
    reveal_strlit("excel");
    reveal_strlit("tsv");
    reveal_strlit("richtext");
    reveal_strlit("rich_text");
}

/// Two misspellings or operations with the same ASCII lowercase mean the
/// same operation: the table is consistent with the valid operations.
proof fn lemma_fuzzy_consistent(k: int, j: int)
    requires
        0 <= k < 15,
        0 <= j < 12,
        ascii_lower(fuzzy_matches()[k].0) == ascii_lower(valid_operations()[j]),
    ensures
        fuzzy_matches()[k].1 == valid_operations()[j],
{
    reveal_strlit("binaryToPropery");
    reveal_strlit("csv");
    reveal_strlit("html");
    reveal_strlit("fromIcs");
    reveal_strlit("fromJson");
    reveal_strlit("ods");
    reveal_strlit("pdf");
    reveal_strlit("rtf");
    reveal_strlit("text");
    reveal_strlit("xls");
    reveal_strlit("xlsx");
    reveal_strlit("xml");
    reveal_strlit("json");
    reveal_strlit("fromjson");
    reveal_strlit("ics");
    reveal_strlit("fromics");
    reveal_strlit("ical");
    reveal_strlit("fromical");
    reveal_strlit("binarytoproperty");
    reveal_strlit("binaryToProperty");
    reveal_strlit("binary");
    reveal_strlit("spreadsheet");
    reveal_strlit("excel");
    reveal_strlit("tsv");
    reveal_strlit("richtext");
    reveal_strlit("rich_text");
    assert(text_signature(ascii_lower(fuzzy_matches()[k].0)) == text_signature(
        ascii_lower(valid_operations()[j]),
    ));
}

/// No two valid operations have the same ASCII lowercase.
proof fn lemma_operations_distinct(i: int, j: int)
    requires
        0 <= i < 12,
        0 <= j < 12,
        ascii_lower(valid_operations()[i]) == ascii_lower(valid_operations()[j]),
    ensures
        i == j,
{
    reveal_strlit("binaryToPropery");
    reveal_strlit("csv");
    reveal_strlit("html");
    reveal_strlit("fromIcs");
    reveal_strlit("fromJson");
    reveal_strlit("ods");
    reveal_strlit("pdf");
    reveal_strlit("rtf");
    reveal_strlit("text");
    reveal_strlit("xls");
    reveal_strlit("xlsx");
    reveal_strlit("xml");
    reveal_strlit("json");
    reveal_strlit("fromjson");
    reveal_strlit("ics");
    reveal_strlit("fromics");
    reveal_strlit("ical");
    reveal_strlit("fromical");
    reveal_strlit("binarytoproperty");
    reveal_strlit("binaryToProperty");
    reveal_strlit("binary");
    reveal_strlit("spreadsheet");
    reveal_strlit("excel");
    reveal_strlit("tsv");
    reveal_strlit("richtext");
    reveal_strlit("rich_text");
    assert(text_signature(ascii_lower(valid_operations()[i])) == text_signature(
        ascii_lower(valid_operations()[j]),
    ));
}

/// When no operation of `ops` lowercases to `lower`, none does.
proof fn lemma_case_lookup_none(ops: Seq<Seq<char>>, lower: Seq<char>)
    ensures
        case_lookup(ops, lower) is None ==> forall|k: int|
            0 <= k < ops.len() ==> lowercase(#[trigger] ops[k]) != lower,
    decreases ops.len(),
{
    if ops.len() > 0 {
        lemma_case_lookup_none(ops.drop_first(), lower);
        assert forall|k: int| 0 < k < ops.len() implies ops[k] == ops.drop_first()[k - 1] by {}
    }
}

/// Valid operation `i`.
fn valid_operation(i: usize) -> (r: &'static str)
    requires
        i < 12,
    ensures
        r@ == valid_operations()[i as int],
{
    if i == 0 {
        "binaryToPropery"
    } else if i == 1 {
        "csv"
    } else if i == 2 {
        "html"
    } else if i == 3 {
        "fromIcs"
    } else if i == 4 {
        "fromJson"
    } else if i == 5 {
        "ods"
    } else if i == 6 {
        "pdf"
    } else if i == 7 {
        "rtf"
    } else if i == 8 {
        "text"
    } else if i == 9 {
        "xls"
    } else if i == 10 {
        "xlsx"
    } else {
        "xml"
    }
}

/// Entry `i` of the misspelling table.
fn fuzzy_match(i: usize) -> (r: (&'static str, &'static str))
    requires
        i < 15,
    ensures
        (r.0@, r.1@) == fuzzy_matches()[i as int],
{
    if i == 0 {
        ("json", "fromJson")
    } else if i == 1 {
        ("fromjson", "fromJson")
    } else if i == 2 {
        ("ics", "fromIcs")
    } else if i == 3 {
        ("fromics", "fromIcs")
    } else if i == 4 {
        ("ical", "fromIcs")
    } else if i == 5 {
        ("fromical", "fromIcs")
    } else if i == 6 {
        ("binarytoproperty", "binaryToPropery")
    } else if i == 7 {
        ("binaryToPropery", "binaryToPropery")
    } else if i == 8 {
        ("binaryToProperty", "binaryToPropery")
    } else if i == 9 {
        ("binary", "binaryToPropery")
    } else if i == 10 {
        ("spreadsheet", "xlsx")
    } else if i == 11 {
        ("excel", "xlsx")
    } else if i == 12 {
        ("tsv", "csv")
    } else if i == 13 {
        ("richtext", "rtf")
    } else {
        ("rich_text", "rtf")
    }
}

/// Try to find a likely intended operation for a misspelled value.
pub fn find_suggestion(input: &str) -> (r: Option<&'static str>)
    ensures
        match r {
            Some(s) => suggestion(input@) == Some(s@),
            None => suggestion(input@) is None,
        },
        r matches Some(s) ==> valid_operations().contains(s@),
        valid_operations().contains(input@) ==> (r matches Some(s) && s@ == input@),
{
    proof {
        lemma_suggestion_is_valid_operation(input@);
        lemma_tables_ascii();
    }
    let lower = to_lowercase(input);
    let mut i: usize = 0;
    assert(fuzzy_matches().subrange(0, 15) =~= fuzzy_matches());
    while i < 15
        invariant
            i <= 15,
            lower@ == lowercase(input@),
            is_ascii_text(input@) ==> lower@ == ascii_lower(input@),
            fuzzy_lookup(fuzzy_matches(), lower@) == fuzzy_lookup(
                fuzzy_matches().subrange(i as int, 15),
                lower@,
            ),
        decreases 15 - i,
    {
        let (wrong, correct) = fuzzy_match(i);
        let ghost rest = fuzzy_matches().subrange(i as int, 15);
        assert(rest.drop_first() =~= fuzzy_matches().subrange(i + 1, 15));
        let lw = to_lowercase(wrong);
        if str_eq(lw.as_str(), lower.as_str()) {
            proof {
                if valid_operations().contains(input@) {
                    let j = choose|j: int| 0 <= j < 12 && valid_operations()[j] == input@;
                    lemma_tables_ascii();
                    assert(is_ascii_text(fuzzy_matches()[i as int].0));
                    assert(is_ascii_text(valid_operations()[j]));
                    lemma_fuzzy_consistent(i as int, j);
                }
            }
            return Some(correct);
        }
        i += 1;
    }
    assert(fuzzy_matches().subrange(15, 15) =~= Seq::<(Seq<char>, Seq<char>)>::empty());
    let mut i: usize = 0;
    assert(valid_operations().subrange(0, 12) =~= valid_operations());
    while i < 12
        invariant
            i <= 12,
            lower@ == lowercase(input@),
            is_ascii_text(input@) ==> lower@ == ascii_lower(input@),
            fuzzy_lookup(fuzzy_matches(), lower@) is None,
            case_lookup(valid_operations(), lower@) == case_lookup(
                valid_operations().subrange(i as int, 12),
                lower@,
            ),
        decreases 12 - i,
    {
        let valid = valid_operation(i);
        let ghost rest = valid_operations().subrange(i as int, 12);
        assert(rest.drop_first() =~= valid_operations().subrange(i + 1, 12));
        let vl = to_lowercase(valid);
        if str_eq(vl.as_str(), lower.as_str()) {
            proof {
                if valid_operations().contains(input@) {
                    let j = choose|j: int| 0 <= j < 12 && valid_operations()[j] == input@;
                    lemma_tables_ascii();
                    assert(is_ascii_text(valid_operations()[i as int]));
                    assert(is_ascii_text(valid_operations()[j]));
                    lemma_operations_distinct(i as int, j);
                }
            }
            return Some(valid);
        }
        i += 1;
    }
    assert(valid_operations().subrange(12, 12) =~= Seq::<Seq<char>>::empty());
    proof {
        lemma_case_lookup_none(valid_operations(), lower@);
        if valid_operations().contains(input@) {
            let j = choose|j: int| 0 <= j < 12 && valid_operations()[j] == input@;
            assert(lowercase(valid_operations()[j]) == lower@);
        }
    }
    let lower_chars = chars_of(lower.as_str());
    let mut i: usize = 0;
    while i < 12
        invariant
            i <= 12,
            lower@ == lowercase(input@),
            is_ascii_text(input@) ==> lower@ == ascii_lower(input@),
            lower_chars@ == lower@,
            fuzzy_lookup(fuzzy_matches(), lower@) is None,
            case_lookup(valid_operations(), lower@) is None,
            !valid_operations().contains(input@),
            substring_lookup(valid_operations(), lower@) == substring_lookup(
                valid_operations().subrange(i as int, 12),
                lower@,
            ),
        decreases 12 - i,
    {
        let valid = valid_operation(i);
        let ghost rest = valid_operations().subrange(i as int, 12);
        assert(rest.drop_first() =~= valid_operations().subrange(i + 1, 12));
        let vl = to_lowercase(valid);
        let vl_chars = chars_of(vl.as_str());
        if contains_chars(&vl_chars, &lower_chars) || contains_chars(&lower_chars, &vl_chars) {
            return Some(valid);
        }
        i += 1;
    }
    assert(valid_operations().subrange(12, 12) =~= Seq::<Seq<char>>::empty());
    None
}

/// The valid operations, comma separated.
fn operations_list_string() -> (r: String)
    ensures
        r@ == operations_list(),
{
    let mut out = String::from_str(valid_operation(0));
    let mut i: usize = 1;
    assert(valid_operations().subrange(0, 1) =~= seq![valid_operations()[0]]);
    while i < 12
        invariant
            1 <= i <= 12,
            out@ == join(valid_operations().subrange(0, i as int), ", "@),
        decreases 12 - i,
    {
        let ghost prefix = valid_operations().subrange(0, i + 1);
        assert(prefix.drop_last() =~= valid_operations().subrange(0, i as int));
        out.append(", ");
        out.append(valid_operation(i));
        i += 1;
    }
    assert(valid_operations().subrange(0, 12) =~= valid_operations());
    out
}

/// Whether `op` is one of the valid operations.
fn is_valid_operation(op: &str) -> (r: bool)
    ensures
        r == valid_operations().contains(op@),
{
    let mut i: usize = 0;
    while i < 12
        invariant
            i <= 12,
            forall|j: int| 0 <= j < i ==> valid_operations()[j] != op@,
        decreases 12 - i,
    {
        if str_eq(valid_operation(i), op) {
            assert(valid_operations()[i as int] == op@);
            return true;
        }
        i += 1;
    }
    false
}

/// Check that extractFromFile nodes use a known operation value.
pub fn check_operation(node: &Node) -> (r: Vec<Finding>)
    ensures
        views(r@) == operation_findings(*node),
{
    let mut findings: Vec<Finding> = Vec::new();
    if !node.is_extract_from_file() {
        assert(views(findings@) =~= Seq::<FindingView>::empty());
        return findings;
    }
    let list = operations_list_string();
    match node.param_str("operation") {
        None => {
            let mut sugg = String::from_str("Add an 'operation' parameter with one of: ");
            sugg.append(list.as_str());
            let f = Finding::error(
                "extract-from-file-operation",
                "extractFromFile node is missing the 'operation' parameter",
            ).with_node(node.id_str(), node.name_str()).with_suggestion(sugg.as_str());
            findings.push(f);
            assert(views(findings@) =~= seq![f@]);
        },
        Some(operation) => {
            if is_valid_operation(operation) {
                assert(views(findings@) =~= Seq::<FindingView>::empty());
                return findings;
            }
            let suggested = find_suggestion(operation);
            let mut msg = String::from_str("Unknown extractFromFile operation \"");
            msg.append(operation);
            msg.append("\". Valid operations are: ");
            msg.append(list.as_str());
            let sugg = match suggested {
                Some(s) => {
                    let mut t = String::from_str("Did you mean \"");
                    t.append(s);
                    t.append("\"?");
                    t
                },
                None => {
                    let mut t = String::from_str("Use one of: ");
                    t.append(list.as_str());
                    t
                },
            };
            let f = Finding::error("extract-from-file-operation", msg.as_str()).with_node(
                node.id_str(),
                node.name_str(),
            ).with_suggestion(sugg.as_str());
            findings.push(f);
            assert(views(findings@) =~= seq![f@]);
        },
    }
    findings
}

/// What `check_all` finds: the operation findings.
pub open spec fn extract_from_file_findings(n: Node) -> Seq<FindingView> {
    operation_findings(n)
}

/// Every finding of the extractFromFile rules on `n` is about `n`.
pub proof fn lemma_extract_findings_about_node(n: Node)
    ensures
        about_node(extract_from_file_findings(n), opt_text(n.id), opt_text(n.name)),
{
}

/// Run all extractFromFile rules.
pub fn check_all(node: &Node) -> (r: Vec<Finding>)
    ensures
        views(r@) == extract_from_file_findings(*node),
{
    check_operation(node)
}

/// What the misspelling table finds is one of the operations that `table` means.
proof fn lemma_fuzzy_lookup_meant(table: Seq<(Seq<char>, Seq<char>)>, lower: Seq<char>)
    ensures
        fuzzy_lookup(table, lower) matches Some(s) ==> exists|k: int|
            0 <= k < table.len() && (#[trigger] table[k]).1 == s,
    decreases table.len(),
{
    if table.len() > 0 && lowercase(table[0].0) != lower {
        lemma_fuzzy_lookup_meant(table.drop_first(), lower);
        if let Some(s) = fuzzy_lookup(table, lower) {
            let k = choose|k: int|
                0 <= k < table.drop_first().len() && (#[trigger] table.drop_first()[k]).1 == s;
            assert(table[k + 1] == table.drop_first()[k]);
        }
    }
}

/// What a case-insensitive lookup finds is one of `ops`.
proof fn lemma_case_lookup_in(ops: Seq<Seq<char>>, lower: Seq<char>)
    ensures
        case_lookup(ops, lower) matches Some(s) ==> ops.contains(s),
    decreases ops.len(),
{
    if ops.len() > 0 && lowercase(ops[0]) != lower {
        lemma_case_lookup_in(ops.drop_first(), lower);
        if let Some(s) = case_lookup(ops, lower) {
            let k = choose|k: int| 0 <= k < ops.drop_first().len() && ops.drop_first()[k] == s;
            assert(ops[k + 1] == s);
        }
    }
}

/// What a substring lookup finds is one of `ops`.
proof fn lemma_substring_lookup_in(ops: Seq<Seq<char>>, lower: Seq<char>)
    ensures
        substring_lookup(ops, lower) matches Some(s) ==> ops.contains(s),
    decreases ops.len(),
{
    if ops.len() > 0 && !(contains(lowercase(ops[0]), lower) || contains(lower, lowercase(ops[0]))) {
        lemma_substring_lookup_in(ops.drop_first(), lower);
        if let Some(s) = substring_lookup(ops, lower) {
            let k = choose|k: int| 0 <= k < ops.drop_first().len() && ops.drop_first()[k] == s;
            assert(ops[k + 1] == s);
        }
    }
}

/// Every operation that the misspelling table means is a valid operation.
proof fn lemma_fuzzy_targets_valid(k: int)
    requires
        0 <= k < fuzzy_matches().len(),
    ensures
        valid_operations().contains(fuzzy_matches()[k].1),
{
    let ops = valid_operations();
    let t = fuzzy_matches()[k].1;
    if t == "fromJson"@ {
        assert(ops[4] == t);
    } else if t == "fromIcs"@ {
        assert(ops[3] == t);
    } else if t == "binaryToPropery"@ {
        assert(ops[0] == t);
    } else if t == "xlsx"@ {
        assert(ops[10] == t);
    } else if t == "csv"@ {
        assert(ops[1] == t);
    } else {
        assert(t == "rtf"@);
        assert(ops[7] == t);
    }
}

/// A suggested operation is always a valid operation.
pub proof fn lemma_suggestion_is_valid_operation(input: Seq<char>)
    ensures
        suggestion(input) matches Some(s) ==> valid_operations().contains(s),
{
    let lower = lowercase(input);
    lemma_fuzzy_lookup_meant(fuzzy_matches(), lower);
    lemma_case_lookup_in(valid_operations(), lower);
    lemma_substring_lookup_in(valid_operations(), lower);
    if let Some(s) = fuzzy_lookup(fuzzy_matches(), lower) {
        let k = choose|k: int| 0 <= k < fuzzy_matches().len() && (#[trigger] fuzzy_matches()[k]).1 == s;
        lemma_fuzzy_targets_valid(k);
    }
}

/// The suggestion does not depend on case: inputs with the same lowercase
/// get the same suggestion.
pub proof fn lemma_suggestion_ignores_case(a: Seq<char>, b: Seq<char>)
    requires
        lowercase(a) == lowercase(b),
    ensures
        suggestion(a) == suggestion(b),
{
}

/// A node that names a valid operation gets no finding, and neither does a
/// node of any other type.
pub proof fn lemma_valid_operation_accepted(n: Node)
    requires
        type_text(n) != extract_from_file_type() || (param_text(n, "operation"@) matches Some(op)
            && valid_operations().contains(op)),
    ensures
        operation_findings(n) == Seq::<FindingView>::empty(),
{
}

} // verus!
