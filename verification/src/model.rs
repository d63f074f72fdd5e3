//! The n8n workflow format: a workflow with its nodes, read from a JSON value
//! by the rules of the format (which fields exist, and what type each has), and
//! the questions the rules ask of a node.
use vstd::prelude::*;
use crate::finding::{opt_str_text, opt_text};
use crate::foreign::{debug_quoted, debug_string};
use crate::json::{collect_strings, get, str_at, strings_of, JsonNumber, JsonValue};
use crate::text::{decimal, decimal_string, signed_decimal, signed_decimal_string, str_eq, texts};

verus! {

/// Top-level n8n workflow structure.
pub struct Workflow {
    pub name: Option<String>,
    pub nodes: Option<Vec<Node>>,
    pub connections: Option<JsonValue>,
    pub settings: Option<JsonValue>,
    pub tags: Option<JsonValue>,
}

/// An n8n node.
pub struct Node {
    pub id: Option<String>,
    pub name: Option<String>,
    /// The JSON field `type`.
    pub node_type: Option<String>,
    /// The JSON field `typeVersion`.
    pub type_version: Option<JsonValue>,
    pub parameters: Option<JsonValue>,
    pub position: Option<JsonValue>,
    pub credentials: Option<JsonValue>,
    /// The JSON field `onError`.
    pub on_error: Option<String>,
    pub notes: Option<String>,
}

/// A workflow as the format describes it, with its nodes as a sequence.
pub struct WorkflowSpec {
    pub name: Option<String>,
    pub nodes: Option<Seq<Node>>,
    pub connections: Option<JsonValue>,
    pub settings: Option<JsonValue>,
    pub tags: Option<JsonValue>,
}

/// The workflow `w` is, with its nodes as a sequence.
pub open spec fn workflow_spec(w: Workflow) -> WorkflowSpec {
    WorkflowSpec {
        name: w.name,
        nodes: match w.nodes {
            Some(v) => Some(v@),
            None => None,
        },
        connections: w.connections,
        settings: w.settings,
        tags: w.tags,
    }
}

/// How an error message describes a value of the wrong type.
pub open spec fn unexpected(v: JsonValue) -> Seq<char> {
    match v {
        JsonValue::Null => "unit value"@,
        JsonValue::Bool(b) => if b {
            "boolean `true`"@
        } else {
            "boolean `false`"@
        },
        JsonValue::Number(n) => match n {
            JsonNumber::PosInt(u) => "integer `"@ + decimal(u as nat) + "`"@,
            JsonNumber::NegInt(i) => "integer `"@ + signed_decimal(i as int) + "`"@,
            JsonNumber::Float(f) => "floating point `"@ + f.described@ + "`"@,
        },
        JsonValue::String(s) => "string "@ + debug_quoted(s@),
        JsonValue::Array(_) => "sequence"@,
        JsonValue::Object(_) => "map"@,
    }
}

/// The message for a value `v` where something else (`expected`) belongs.
pub open spec fn invalid_type(v: JsonValue, expected: Seq<char>) -> Seq<char> {
    "invalid type: "@ + unexpected(v) + ", expected "@ + expected
}

/// The message for a sequence of `len` elements where `expected` belongs.
pub open spec fn invalid_length(len: nat, expected: Seq<char>) -> Seq<char> {
    "invalid length "@ + decimal(len) + ", expected "@ + expected
}

/// An optional string field: absent or `null` is `None`.
pub open spec fn decode_opt_string(v: JsonValue) -> Result<Option<String>, Seq<char>> {
    match v {
        JsonValue::Null => Ok(None),
        JsonValue::String(s) => Ok(Some(s)),
        _ => Err(invalid_type(v, "a string"@)),
    }
}

/// An optional field of any JSON type: `null` is `None`.
pub open spec fn decode_opt_value(v: JsonValue) -> Option<JsonValue> {
    match v {
        JsonValue::Null => None,
        _ => Some(v),
    }
}

/// The node with no fields set.
pub open spec fn empty_node() -> Node {
    Node {
        id: None,
        name: None,
        node_type: None,
        type_version: None,
        parameters: None,
        position: None,
        credentials: None,
        on_error: None,
        notes: None,
    }
}

/// The names of the node fields, in the order of the struct.
pub open spec fn node_field_names() -> Seq<Seq<char>> {
    seq![
        "id"@,
        "name"@,
        "type"@,
        "typeVersion"@,
        "parameters"@,
        "position"@,
        "credentials"@,
        "onError"@,
        "notes"@,
    ]
}

/// `n` with the field named `key` read from `v`; unknown fields are ignored.
pub open spec fn set_node_field(n: Node, key: Seq<char>, v: JsonValue) -> Result<Node, Seq<char>> {
    if key == "id"@ {
        match decode_opt_string(v) {
            Ok(s) => Ok(Node { id: s, ..n }),
            Err(e) => Err(e),
        }
    } else if key == "name"@ {
        match decode_opt_string(v) {
            Ok(s) => Ok(Node { name: s, ..n }),
            Err(e) => Err(e),
        }
    } else if key == "type"@ {
        match decode_opt_string(v) {
            Ok(s) => Ok(Node { node_type: s, ..n }),
            Err(e) => Err(e),
        }
    } else if key == "typeVersion"@ {
        Ok(Node { type_version: decode_opt_value(v), ..n })
    } else if key == "parameters"@ {
        Ok(Node { parameters: decode_opt_value(v), ..n })
    } else if key == "position"@ {
        Ok(Node { position: decode_opt_value(v), ..n })
    } else if key == "credentials"@ {
        Ok(Node { credentials: decode_opt_value(v), ..n })
    } else if key == "onError"@ {
        match decode_opt_string(v) {
            Ok(s) => Ok(Node { on_error: s, ..n }),
            Err(e) => Err(e),
        }
    } else if key == "notes"@ {
        match decode_opt_string(v) {
            Ok(s) => Ok(Node { notes: s, ..n }),
            Err(e) => Err(e),
        }
    } else {
        Ok(n)
    }
}

/// `n` with the members `entries` read in order; the first bad member decides the error.
pub open spec fn decode_node_entries(entries: Seq<(String, JsonValue)>, n: Node) -> Result<
    Node,
    Seq<char>,
>
    decreases entries.len(),
{
    if entries.len() == 0 {
        Ok(n)
    } else {
        match set_node_field(n, entries[0].0@, entries[0].1) {
            Ok(m) => decode_node_entries(entries.drop_first(), m),
            Err(e) => Err(e),
        }
    }
}

/// `n` with its fields, in struct order from field `i` on, read from the
/// elements of `items` (the form of a node written as a JSON array).
pub open spec fn decode_node_items(items: Seq<JsonValue>, i: nat, n: Node) -> Result<
    Node,
    Seq<char>,
>
    decreases 9 - i,
{
    if i >= 9 {
        if items.len() == 9 {
            Ok(n)
        } else {
            Err(invalid_length(items.len(), "fewer elements in array"@))
        }
    } else if i >= items.len() {
        Err(invalid_length(i, "struct Node with 9 elements"@))
    } else {
        match set_node_field(n, node_field_names()[i as int], items[i as int]) {
            Ok(m) => decode_node_items(items, i + 1, m),
            Err(e) => Err(e),
        }
    }
}

/// A node read from a JSON value: an object of named fields, or an array of
/// exactly nine fields in struct order.
pub open spec fn decode_node(v: JsonValue) -> Result<Node, Seq<char>> {
    match v {
        JsonValue::Object(entries) => decode_node_entries(entries@, empty_node()),
        JsonValue::Array(items) => decode_node_items(items@, 0, empty_node()),
        _ => Err(invalid_type(v, "struct Node"@)),
    }
}

/// The nodes read, in order, from `items`, after `done`.
pub open spec fn decode_nodes_from(items: Seq<JsonValue>, done: Seq<Node>) -> Result<
    Seq<Node>,
    Seq<char>,
>
    decreases items.len(),
{
    if items.len() == 0 {
        Ok(done)
    } else {
        match decode_node(items[0]) {
            Ok(n) => decode_nodes_from(items.drop_first(), done.push(n)),
            Err(e) => Err(e),
        }
    }
}

/// The optional `nodes` field: `null` is `None`, an array is read node by node.
pub open spec fn decode_opt_nodes(v: JsonValue) -> Result<Option<Seq<Node>>, Seq<char>> {
    match v {
        JsonValue::Null => Ok(None),
        JsonValue::Array(items) => match decode_nodes_from(items@, seq![]) {
            Ok(ns) => Ok(Some(ns)),
            Err(e) => Err(e),
        },
        _ => Err(invalid_type(v, "a sequence"@)),
    }
}

/// The workflow with no fields set.
pub open spec fn empty_workflow() -> WorkflowSpec {
    WorkflowSpec { name: None, nodes: None, connections: None, settings: None, tags: None }
}

/// `w` with the field named `key` read from `v`; unknown fields are ignored.
pub open spec fn set_workflow_field(w: WorkflowSpec, key: Seq<char>, v: JsonValue) -> Result<
    WorkflowSpec,
    Seq<char>,
> {
    if key == "name"@ {
        match decode_opt_string(v) {
            Ok(s) => Ok(WorkflowSpec { name: s, ..w }),
            Err(e) => Err(e),
        }
    } else if key == "nodes"@ {
        match decode_opt_nodes(v) {
            Ok(ns) => Ok(WorkflowSpec { nodes: ns, ..w }),
            Err(e) => Err(e),
        }
    } else if key == "connections"@ {
        Ok(WorkflowSpec { connections: decode_opt_value(v), ..w })
    } else if key == "settings"@ {
        Ok(WorkflowSpec { settings: decode_opt_value(v), ..w })
    } else if key == "tags"@ {
        Ok(WorkflowSpec { tags: decode_opt_value(v), ..w })
    } else {
        Ok(w)
    }
}

/// `w` with the members `entries` read in order.
pub open spec fn decode_workflow_entries(entries: Seq<(String, JsonValue)>, w: WorkflowSpec) -> Result<
    WorkflowSpec,
    Seq<char>,
>
    decreases entries.len(),
{
    if entries.len() == 0 {
        Ok(w)
    } else {
        match set_workflow_field(w, entries[0].0@, entries[0].1) {
            Ok(m) => decode_workflow_entries(entries.drop_first(), m),
            Err(e) => Err(e),
        }
    }
}

/// The names of the workflow fields, in the order of the struct.
pub open spec fn workflow_field_names() -> Seq<Seq<char>> {
    seq!["name"@, "nodes"@, "connections"@, "settings"@, "tags"@]
}

/// `w` with its fields, in struct order from field `i` on, read from the
/// elements of `items` (the form of a workflow written as a JSON array).
pub open spec fn decode_workflow_items(items: Seq<JsonValue>, i: nat, w: WorkflowSpec) -> Result<
    WorkflowSpec,
    Seq<char>,
>
    decreases 5 - i,
{
    if i >= 5 {
        if items.len() == 5 {
            Ok(w)
        } else {
            Err(invalid_length(items.len(), "fewer elements in array"@))
        }
    } else if i >= items.len() {
        Err(invalid_length(i, "struct Workflow with 5 elements"@))
    } else {
        match set_workflow_field(w, workflow_field_names()[i as int], items[i as int]) {
            Ok(m) => decode_workflow_items(items, i + 1, m),
            Err(e) => Err(e),
        }
    }
}

/// A workflow read from a JSON value, by the rules of the format: the result,
/// or the message that describes the first member of the wrong type.
pub open spec fn decode_workflow(v: JsonValue) -> Result<WorkflowSpec, Seq<char>> {
    match v {
        JsonValue::Object(entries) => decode_workflow_entries(entries@, empty_workflow()),
        JsonValue::Array(items) => decode_workflow_items(items@, 0, empty_workflow()),
        _ => Err(invalid_type(v, "struct Workflow"@)),
    }
}

/// How an error message describes `v`.
fn unexpected_text(v: &JsonValue) -> (r: String)
    ensures
        r@ == unexpected(*v),
{
    match v {
        JsonValue::Null => String::from_str("unit value"),
        JsonValue::Bool(b) => if *b {
            String::from_str("boolean `true`")
        } else {
            String::from_str("boolean `false`")
        },
        JsonValue::Number(n) => {
            let mut r = match n {
                JsonNumber::Float(_) => String::from_str("floating point `"),
                _ => String::from_str("integer `"),
            };
            match n {
                JsonNumber::PosInt(u) => {
                    let d = decimal_string(*u);
                    r.append(d.as_str());
                },
                JsonNumber::NegInt(i) => {
                    let d = signed_decimal_string(*i);
                    r.append(d.as_str());
                },
                JsonNumber::Float(f) => {
                    r.append(f.described.as_str());
                },
            }
            r.append("`");
            r
        },
        JsonValue::String(s) => {
            let mut r = String::from_str("string ");
            let q = debug_string(s.as_str());
            r.append(q.as_str());
            r
        },
        JsonValue::Array(_) => String::from_str("sequence"),
        JsonValue::Object(_) => String::from_str("map"),
    }
}

/// The message for a value `v` where `expected` belongs.
fn invalid_type_text(v: &JsonValue, expected: &str) -> (r: String)
    ensures
        r@ == invalid_type(*v, expected@),
{
    let mut r = String::from_str("invalid type: ");
    let u = unexpected_text(v);
    r.append(u.as_str());
    r.append(", expected ");
    r.append(expected);
    r
}

/// The message for a sequence of `len` elements where `expected` belongs.
fn invalid_length_text(len: usize, expected: &str) -> (r: String)
    ensures
        r@ == invalid_length(len as nat, expected@),
{
    let mut r = String::from_str("invalid length ");
    let d = decimal_string(len as u64);
    r.append(d.as_str());
    r.append(", expected ");
    r.append(expected);
    r
}

/// The exec result `r` is the spec result `s`, with the error message as text.
pub open spec fn agrees<T>(r: Result<T, String>, s: Result<T, Seq<char>>) -> bool {
    match r {
        Ok(x) => s == Ok::<T, Seq<char>>(x),
        Err(e) => s == Err::<T, Seq<char>>(e@),
    }
}

/// Reads an optional string field.
fn read_opt_string(v: JsonValue) -> (r: Result<Option<String>, String>)
    ensures
        agrees(r, decode_opt_string(v)),
{
    match v {
        JsonValue::Null => Ok(None),
        JsonValue::String(s) => Ok(Some(s)),
        _ => Err(invalid_type_text(&v, "a string")),
    }
}

/// Reads an optional field of any JSON type.
fn read_opt_value(v: JsonValue) -> (r: Option<JsonValue>)
    ensures
        r == decode_opt_value(v),
{
    match v {
        JsonValue::Null => None,
        _ => Some(v),
    }
}

/// `n` with the field named `key` read from `v`.
fn read_node_field(n: Node, key: &str, v: JsonValue) -> (r: Result<Node, String>)
    ensures
        agrees(r, set_node_field(n, key@, v)),
{
    let mut n = n;
    if str_eq(key, "id") {
        match read_opt_string(v) {
            Ok(s) => {
                n.id = s;
                Ok(n)
            },
            Err(e) => Err(e),
        }
    } else if str_eq(key, "name") {
        match read_opt_string(v) {
            Ok(s) => {
                n.name = s;
                Ok(n)
            },
            Err(e) => Err(e),
        }
    } else if str_eq(key, "type") {
        match read_opt_string(v) {
            Ok(s) => {
                n.node_type = s;
                Ok(n)
            },
            Err(e) => Err(e),
        }
    } else if str_eq(key, "typeVersion") {
        n.type_version = read_opt_value(v);
        Ok(n)
    } else if str_eq(key, "parameters") {
        n.parameters = read_opt_value(v);
        Ok(n)
    } else if str_eq(key, "position") {
        n.position = read_opt_value(v);
        Ok(n)
    } else if str_eq(key, "credentials") {
        n.credentials = read_opt_value(v);
        Ok(n)
    } else if str_eq(key, "onError") {
        match read_opt_string(v) {
            Ok(s) => {
                n.on_error = s;
                Ok(n)
            },
            Err(e) => Err(e),
        }
    } else if str_eq(key, "notes") {
        match read_opt_string(v) {
            Ok(s) => {
                n.notes = s;
                Ok(n)
            },
            Err(e) => Err(e),
        }
    } else {
        Ok(n)
    }
}

/// The name of node field `i`, in struct order.
fn node_field_name(i: usize) -> (r: &'static str)
    requires
        i < 9,
    ensures
        r@ == node_field_names()[i as int],
{
    if i == 0 {
        "id"
    } else if i == 1 {
        "name"
    } else if i == 2 {
        "type"
    } else if i == 3 {
        "typeVersion"
    } else if i == 4 {
        "parameters"
    } else if i == 5 {
        "position"
    } else if i == 6 {
        "credentials"
    } else if i == 7 {
        "onError"
    } else {
        "notes"
    }
}

/// The empty node.
fn new_node() -> (n: Node)
    ensures
        n == empty_node(),
{
    Node {
        id: None,
        name: None,
        node_type: None,
        type_version: None,
        parameters: None,
        position: None,
        credentials: None,
        on_error: None,
        notes: None,
    }
}

/// Reads a node from a JSON value.
fn read_node(v: JsonValue) -> (r: Result<Node, String>)
    ensures
        agrees(r, decode_node(v)),
{
    let ghost gv = v;
    match v {
        JsonValue::Object(entries) => {
            let mut entries = entries;
            let mut n = new_node();
            while entries.len() > 0
                invariant
                    gv == v,
                    decode_node(gv) == decode_node_entries(entries@, n),
                decreases entries.len(),
            {
                let ghost before = entries@;
                let (k, val) = entries.remove(0);
                assert(entries@ =~= before.drop_first());
                match read_node_field(n, k.as_str(), val) {
                    Ok(m) => n = m,
                    Err(e) => return Err(e),
                }
            }
            Ok(n)
        },
        JsonValue::Array(items) => {
            let ghost all = items@;
            let total = items.len();
            let mut items = items;
            let mut n = new_node();
            let mut i: usize = 0;
            while i < 9
                invariant
                    gv == v,
                    total == all.len(),
                    i <= 9,
                    i <= all.len() || i == 0,
                    items@ == all.skip(i as int),
                    decode_node(gv) == decode_node_items(all, i as nat, n),
                decreases 9 - i,
            {
                if items.len() == 0 {
                    return Err(invalid_length_text(i, "struct Node with 9 elements"));
                }
                let ghost before = items@;
                let item = items.remove(0);
                assert(items@ =~= all.skip(i + 1));
                assert(item == all[i as int]);
                match read_node_field(n, node_field_name(i), item) {
                    Ok(m) => n = m,
                    Err(e) => return Err(e),
                }
                i += 1;
            }
            if items.len() == 0 {
                Ok(n)
            } else {
                Err(invalid_length_text(total, "fewer elements in array"))
            }
        },
        _ => Err(invalid_type_text(&v, "struct Node")),
    }
}

/// Reads the optional `nodes` field.
fn read_opt_nodes(v: JsonValue) -> (r: Result<Option<Vec<Node>>, String>)
    ensures
        match r {
            Ok(Some(ns)) => decode_opt_nodes(v) == Ok::<Option<Seq<Node>>, Seq<char>>(Some(ns@)),
            Ok(None) => decode_opt_nodes(v) == Ok::<Option<Seq<Node>>, Seq<char>>(None),
            Err(e) => decode_opt_nodes(v) == Err::<Option<Seq<Node>>, Seq<char>>(e@),
        },
{
    let ghost gv = v;
    match v {
        JsonValue::Null => Ok(None),
        JsonValue::Array(items) => {
            let ghost all = items@;
            let ghost all_vec = items;
            let mut items = items;
            let mut out: Vec<Node> = Vec::new();
            while items.len() > 0
                invariant
                    gv == v,
                    v == JsonValue::Array(all_vec),
                    all == all_vec@,
                    decode_nodes_from(all, seq![]) == decode_nodes_from(items@, out@),
                decreases items.len(),
            {
                let ghost before = items@;
                let item = items.remove(0);
                assert(items@ =~= before.drop_first());
                match read_node(item) {
                    Ok(n) => out.push(n),
                    Err(e) => return Err(e),
                }
            }
            Ok(Some(out))
        },
        _ => Err(invalid_type_text(&v, "a sequence")),
    }
}

/// `w` with the field named `key` read from `v`.
fn read_workflow_field(w: Workflow, key: &str, v: JsonValue) -> (r: Result<Workflow, String>)
    ensures
        match r {
            Ok(m) => set_workflow_field(workflow_spec(w), key@, v) == Ok::<WorkflowSpec, Seq<char>>(
                workflow_spec(m),
            ),
            Err(e) => set_workflow_field(workflow_spec(w), key@, v) == Err::<WorkflowSpec, Seq<char>>(
                e@,
            ),
        },
{
    let mut w = w;
    if str_eq(key, "name") {
        match read_opt_string(v) {
            Ok(s) => {
                w.name = s;
                Ok(w)
            },
            Err(e) => Err(e),
        }
    } else if str_eq(key, "nodes") {
        match read_opt_nodes(v) {
            Ok(ns) => {
                w.nodes = ns;
                Ok(w)
            },
            Err(e) => Err(e),
        }
    } else if str_eq(key, "connections") {
        w.connections = read_opt_value(v);
        Ok(w)
    } else if str_eq(key, "settings") {
        w.settings = read_opt_value(v);
        Ok(w)
    } else if str_eq(key, "tags") {
        w.tags = read_opt_value(v);
        Ok(w)
    } else {
        Ok(w)
    }
}

/// The name of workflow field `i`, in struct order.
fn workflow_field_name(i: usize) -> (r: &'static str)
    requires
        i < 5,
    ensures
        r@ == workflow_field_names()[i as int],
{
    if i == 0 {
        "name"
    } else if i == 1 {
        "nodes"
    } else if i == 2 {
        "connections"
    } else if i == 3 {
        "settings"
    } else {
        "tags"
    }
}

impl Workflow {
    /// Reads a workflow from a JSON value by the rules of the format: the
    /// workflow, or the message that describes the first member of the wrong type.
    pub fn from_json(v: JsonValue) -> (r: Result<Workflow, String>)
        ensures
            match r {
                Ok(w) => decode_workflow(v) == Ok::<WorkflowSpec, Seq<char>>(workflow_spec(w)),
                Err(e) => decode_workflow(v) == Err::<WorkflowSpec, Seq<char>>(e@),
            },
    {
        let ghost gv = v;
        let mut w = Workflow { name: None, nodes: None, connections: None, settings: None, tags: None };
        match v {
            JsonValue::Object(entries) => {
                let mut entries = entries;
                while entries.len() > 0
                    invariant
                        gv == v,
                        decode_workflow(gv) == decode_workflow_entries(entries@, workflow_spec(w)),
                    decreases entries.len(),
                {
                    let ghost before = entries@;
                    let (k, val) = entries.remove(0);
                    assert(entries@ =~= before.drop_first());
                    match read_workflow_field(w, k.as_str(), val) {
                        Ok(m) => w = m,
                        Err(e) => return Err(e),
                    }
                }
                Ok(w)
            },
            JsonValue::Array(items) => {
                let ghost all = items@;
                let total = items.len();
                let mut items = items;
                let mut i: usize = 0;
                while i < 5
                    invariant
                        gv == v,
                        total == all.len(),
                        i <= 5,
                        i <= all.len() || i == 0,
                        items@ == all.skip(i as int),
                        decode_workflow(gv) == decode_workflow_items(all, i as nat, workflow_spec(w)),
                    decreases 5 - i,
                {
                    if items.len() == 0 {
                        return Err(invalid_length_text(i, "struct Workflow with 5 elements"));
                    }
                    let item = items.remove(0);
                    assert(items@ =~= all.skip(i + 1));
                    match read_workflow_field(w, workflow_field_name(i), item) {
                        Ok(m) => w = m,
                        Err(e) => return Err(e),
                    }
                    i += 1;
                }
                if items.len() == 0 {
                    Ok(w)
                } else {
                    Err(invalid_length_text(total, "fewer elements in array"))
                }
            },
            _ => Err(invalid_type_text(&v, "struct Workflow")),
        }
    }
}

/// The type of `n`, or the empty string when it has none.
pub open spec fn type_text(n: Node) -> Seq<char> {
    match n.node_type {
        Some(t) => t@,
        None => ""@,
    }
}

/// The parameter `key` of `n`, when it is a string.
pub open spec fn param_text(n: Node, key: Seq<char>) -> Option<Seq<char>> {
    match n.parameters {
        Some(p) => str_at(p, key),
        None => None,
    }
}

/// The parameter `key` of `n`, of whatever type.
pub open spec fn param_value(n: Node, key: Seq<char>) -> Option<JsonValue> {
    match n.parameters {
        Some(p) => get(p, key),
        None => None,
    }
}

/// The strings held anywhere in the parameters of `n`, in document order.
pub open spec fn param_strings(n: Node) -> Seq<Seq<char>> {
    match n.parameters {
        Some(p) => strings_of(p),
        None => seq![],
    }
}

/// The type of SSH nodes.
pub open spec fn ssh_type() -> Seq<char> {
    "n8n-nodes-base.ssh"@
}

/// The type of Code nodes.
pub open spec fn code_type() -> Seq<char> {
    "n8n-nodes-base.code"@
}

/// The type of HTTP Request nodes.
pub open spec fn http_request_type() -> Seq<char> {
    "n8n-nodes-base.httpRequest"@
}

/// The type of Schedule Trigger nodes.
pub open spec fn schedule_trigger_type() -> Seq<char> {
    "n8n-nodes-base.scheduleTrigger"@
}

/// The type of Manual Trigger nodes.
pub open spec fn manual_trigger_type() -> Seq<char> {
    "n8n-nodes-base.manualTrigger"@
}

/// The type of Error Trigger nodes.
pub open spec fn error_trigger_type() -> Seq<char> {
    "n8n-nodes-base.errorTrigger"@
}

/// The type of Extract From File nodes.
pub open spec fn extract_from_file_type() -> Seq<char> {
    "n8n-nodes-base.extractFromFile"@
}

impl Node {
    /// The node's type, or the empty string when it has none.
    pub fn type_str(&self) -> (r: &str)
        ensures
            r@ == type_text(*self),
    {
        match &self.node_type {
            Some(t) => t.as_str(),
            None => "",
        }
    }

    /// The node's id.
    pub fn id_str(&self) -> (r: Option<&str>)
        ensures
            opt_str_text(r) == opt_text(self.id),
    {
        match &self.id {
            Some(s) => Some(s.as_str()),
            None => None,
        }
    }

    /// The node's name.
    pub fn name_str(&self) -> (r: Option<&str>)
        ensures
            opt_str_text(r) == opt_text(self.name),
    {
        match &self.name {
            Some(s) => Some(s.as_str()),
            None => None,
        }
    }

    /// The parameter `key`, when the node has parameters and that one is a string.
    pub fn param_str(&self, key: &str) -> (r: Option<&str>)
        ensures
            opt_str_text(r) == param_text(*self, key@),
    {
        match &self.parameters {
            Some(p) => match p.str_at(key) {
                Some(s) => Some(s.as_str()),
                None => None,
            },
            None => None,
        }
    }

    /// The node's parameters.
    pub fn params(&self) -> (r: Option<&JsonValue>)
        ensures
            match r {
                Some(p) => self.parameters == Some(*p),
                None => self.parameters is None,
            },
    {
        match &self.parameters {
            Some(p) => Some(p),
            None => None,
        }
    }

    /// Whether this is an SSH node.
    pub fn is_ssh(&self) -> (r: bool)
        ensures
            r == (type_text(*self) == ssh_type()),
    {
        str_eq(self.type_str(), "n8n-nodes-base.ssh")
    }

    /// Whether this is a Code node.
    pub fn is_code(&self) -> (r: bool)
        ensures
            r == (type_text(*self) == code_type()),
    {
        str_eq(self.type_str(), "n8n-nodes-base.code")
    }

    /// Whether this is an HTTP Request node.
    pub fn is_http_request(&self) -> (r: bool)
        ensures
            r == (type_text(*self) == http_request_type()),
    {
        str_eq(self.type_str(), "n8n-nodes-base.httpRequest")
    }

    /// Whether this is a Schedule Trigger.
    pub fn is_schedule_trigger(&self) -> (r: bool)
        ensures
            r == (type_text(*self) == schedule_trigger_type()),
    {
        str_eq(self.type_str(), "n8n-nodes-base.scheduleTrigger")
    }

    /// Whether this is a Manual Trigger.
    pub fn is_manual_trigger(&self) -> (r: bool)
        ensures
            r == (type_text(*self) == manual_trigger_type()),
    {
        str_eq(self.type_str(), "n8n-nodes-base.manualTrigger")
    }

    /// Whether this is an Error Trigger.
    pub fn is_error_trigger(&self) -> (r: bool)
        ensures
            r == (type_text(*self) == error_trigger_type()),
    {
        str_eq(self.type_str(), "n8n-nodes-base.errorTrigger")
    }

    /// Whether this is an Extract From File node.
    pub fn is_extract_from_file(&self) -> (r: bool)
        ensures
            r == (type_text(*self) == extract_from_file_type()),
    {
        str_eq(self.type_str(), "n8n-nodes-base.extractFromFile")
    }

    /// All the strings held anywhere in the parameters, in document order.
    pub fn all_param_strings(&self) -> (r: Vec<String>)
        ensures
            texts(r@) == param_strings(*self),
    {
        let mut strings: Vec<String> = Vec::new();
        match &self.parameters {
            Some(p) => collect_strings(p, &mut strings),
            None => {},
        }
        assert(texts(strings@) =~= param_strings(*self));
        strings
    }
}

} // verus!
