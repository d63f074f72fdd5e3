//! A JSON document as the linter reads it: the tree of values that
//! `serde_json` parses, with object members in the map's iteration order,
//! lookup of members, the strings held anywhere in a value, and the compact
//! JSON text of a value.
use vstd::prelude::*;
use crate::text::{chars_of, texts, decimal, decimal_string, signed_decimal, signed_decimal_string, str_eq};

verus! {

/// A JSON number that is not an integer.
pub struct FloatNumber {
    /// The number as `serde_json` writes it.
    pub text: String,
    /// The number as `serde` describes an unexpected float in an error message
    /// (`Display` of the `f64`, with `.0` added when it has no decimal point).
    pub described: String,
    /// The number converted to `u64` as `f as u64` converts it: truncated
    /// toward zero, negative values and NaN to 0, too large values to `u64::MAX`.
    pub whole: u64,
}

/// A JSON number, with the three representations that `serde_json` keeps.
pub enum JsonNumber {
    /// A non-negative integer.
    PosInt(u64),
    /// A negative integer.
    NegInt(i64),
    /// Any other number.
    Float(FloatNumber),
}

/// A JSON value. The members of an object are held in the order in which the
/// object's map yields them; their keys are distinct.
pub enum JsonValue {
    Null,
    Bool(bool),
    Number(JsonNumber),
    String(String),
    Array(Vec<JsonValue>),
    Object(Vec<(String, JsonValue)>),
}

/// The lowercase hexadecimal digit for `d` (`0 <= d < 16`).
pub open spec fn hex_digit(d: int) -> char {
    seq!['0', '1', '2', '3', '4', '5', '6', '7', '8', '9', 'a', 'b', 'c', 'd', 'e', 'f'][d]
}

/// How a JSON string literal writes the character `c`: `"` and `\` after a
/// backslash; backspace, tab, line feed, form feed and carriage return as
/// `\b`, `\t`, `\n`, `\f` and `\r`; the other characters below U+0020 as
/// `\u00` and two lowercase hexadecimal digits; every other character as it is.
pub open spec fn json_escape_char(c: char) -> Seq<char> {
    if c == '"' {
        seq!['\\', '"']
    } else if c == '\\' {
        seq!['\\', '\\']
    } else if c == '\u{8}' {
        seq!['\\', 'b']
    } else if c == '\t' {
        seq!['\\', 't']
    } else if c == '\n' {
        seq!['\\', 'n']
    } else if c == '\u{c}' {
        seq!['\\', 'f']
    } else if c == '\r' {
        seq!['\\', 'r']
    } else if (c as u32) < 0x20 {
        seq!['\\', 'u', '0', '0', hex_digit(((c as u32) / 16) as int), hex_digit(((c as u32) % 16) as int)]
    } else {
        seq![c]
    }
}

/// The characters of `s`, each written as a JSON string literal writes it.
pub open spec fn json_escaped(s: Seq<char>) -> Seq<char>
    decreases s.len(),
{
    if s.len() == 0 {
        Seq::<char>::empty()
    } else {
        json_escaped(s.drop_last()) + json_escape_char(s.last())
    }
}

/// The JSON string literal for `s`, as `serde_json` writes it: `s` escaped,
/// in double quotes.
pub open spec fn json_quoted(s: Seq<char>) -> Seq<char> {
    seq!['"'] + json_escaped(s) + seq!['"']
}

/// The lowercase hexadecimal digit for `d`, as a one-character string.
fn hex_digit_str(d: u32) -> (r: &'static str)
    requires
        d < 16,
    ensures
        r@ == seq![hex_digit(d as int)],
{
    proof {
        reveal_strlit("0");
        reveal_strlit("1");
        reveal_strlit("2");
        reveal_strlit("3");
        reveal_strlit("4");
        reveal_strlit("5");
        reveal_strlit("6");
        reveal_strlit("7");
        reveal_strlit("8");
        reveal_strlit("9");
        reveal_strlit("a");
        reveal_strlit("b");
        reveal_strlit("c");
        reveal_strlit("d");
        reveal_strlit("e");
        reveal_strlit("f");
    }
    if d == 0 {
        "0"
    } else if d == 1 {
        "1"
    } else if d == 2 {
        "2"
    } else if d == 3 {
        "3"
    } else if d == 4 {
        "4"
    } else if d == 5 {
        "5"
    } else if d == 6 {
        "6"
    } else if d == 7 {
        "7"
    } else if d == 8 {
        "8"
    } else if d == 9 {
        "9"
    } else if d == 10 {
        "a"
    } else if d == 11 {
        "b"
    } else if d == 12 {
        "c"
    } else if d == 13 {
        "d"
    } else if d == 14 {
        "e"
    } else {
        "f"
    }
}

/// The JSON string literal for `s`: `s` escaped, in double quotes.
pub fn json_string_literal(s: &str) -> (r: String)
    ensures
        r@ == json_quoted(s@),
{
    let cs = chars_of(s);
    proof {
        reveal_strlit("\"");
    }
    let mut out = String::from_str("\"");
    let mut i: usize = 0;
    assert(s@.subrange(0, 0) =~= Seq::<char>::empty());
    while i < cs.len()
        invariant
            cs@ == s@,
            i <= cs.len(),
            out@ == seq!['"'] + json_escaped(s@.subrange(0, i as int)),
        decreases cs.len() - i,
    {
        let c = cs[i];
        let ghost before = out@;
        proof {
            reveal_strlit("\"");
            reveal_strlit("\\\"");
            reveal_strlit("\\\\");
            reveal_strlit("\\b");
            reveal_strlit("\\t");
            reveal_strlit("\\n");
            reveal_strlit("\\f");
            reveal_strlit("\\r");
            reveal_strlit("\\");
            reveal_strlit("u00");
        }
        if c == '"' {
            out.append("\\\"");
        } else if c == '\\' {
            out.append("\\\\");
        } else if c == '\u{8}' {
            out.append("\\b");
        } else if c == '\t' {
            out.append("\\t");
        } else if c == '\n' {
            out.append("\\n");
        } else if c == '\u{c}' {
            out.append("\\f");
        } else if c == '\r' {
            out.append("\\r");
        } else if (c as u32) < 0x20 {
            out.append("\\");
            out.append("u00");
            let high = hex_digit_str((c as u32) / 16);
            let low = hex_digit_str((c as u32) % 16);
            out.append(high);
            out.append(low);
            assert(json_escape_char(c) =~= seq!['\\', 'u', '0', '0'] + high@ + low@);
        } else {
            let one = s.substring_char(i, i + 1);
            assert(one@ =~= seq![c]);
            out.append(one);
        }
        assert(out@ =~= before + json_escape_char(c));
        let ghost prefix = s@.subrange(0, i + 1);
        assert(prefix.drop_last() =~= s@.subrange(0, i as int));
        i += 1;
    }
    assert(s@.subrange(0, i as int) =~= s@);
    out.append("\"");
    assert(out@ =~= json_quoted(s@));
    out
}

/// The value of the first member of `entries` whose key is `key`.
pub open spec fn entries_get(entries: Seq<(String, JsonValue)>, key: Seq<char>) -> Option<JsonValue>
    decreases entries.len(),
{
    if entries.len() == 0 {
        None
    } else if entries[0].0@ == key {
        Some(entries[0].1)
    } else {
        entries_get(entries.drop_first(), key)
    }
}

/// The member of the object `v` with key `key`, as `Value::get(key)` finds it;
/// `None` when `v` is not an object or has no such member.
pub open spec fn get(v: JsonValue, key: Seq<char>) -> Option<JsonValue> {
    match v {
        JsonValue::Object(entries) => entries_get(entries@, key),
        _ => None,
    }
}

/// The string that `v` is, as `Value::as_str` returns it.
pub open spec fn as_str(v: JsonValue) -> Option<Seq<char>> {
    match v {
        JsonValue::String(s) => Some(s@),
        _ => None,
    }
}

/// `v` is an object.
pub open spec fn is_object(v: JsonValue) -> bool {
    v is Object
}

/// The string held at `key` in `v`, if `v` is an object whose member `key` is a string.
pub open spec fn str_at(v: JsonValue, key: Seq<char>) -> Option<Seq<char>> {
    match get(v, key) {
        Some(m) => as_str(m),
        None => None,
    }
}

/// The number as `Value::as_u64`, or failing that `Value::as_f64` cast to `u64`,
/// gives it.
pub open spec fn number_whole(n: JsonNumber) -> u64 {
    match n {
        JsonNumber::PosInt(u) => u,
        JsonNumber::NegInt(_) => 0,
        JsonNumber::Float(f) => f.whole,
    }
}

/// The strings held anywhere in `v`, in document order (for objects, in the
/// order of their members); keys are not included.
pub open spec fn strings_of(v: JsonValue) -> Seq<Seq<char>>
    decreases v,
{
    match v {
        JsonValue::String(s) => seq![s@],
        JsonValue::Array(items) => strings_of_items(items@),
        JsonValue::Object(entries) => strings_of_entries(entries@),
        _ => seq![],
    }
}

/// The strings held anywhere in the values of `items`, in order.
pub open spec fn strings_of_items(items: Seq<JsonValue>) -> Seq<Seq<char>>
    decreases items,
{
    if items.len() == 0 {
        seq![]
    } else {
        strings_of(items[0]) + strings_of_items(items.subrange(1, items.len() as int))
    }
}

/// The strings held anywhere in the member values of `entries`, in order.
pub open spec fn strings_of_entries(entries: Seq<(String, JsonValue)>) -> Seq<Seq<char>>
    decreases entries,
{
    if entries.len() == 0 {
        seq![]
    } else {
        strings_of(entries[0].1) + strings_of_entries(entries.subrange(1, entries.len() as int))
    }
}

/// The JSON text of a number, as `serde_json` writes it.
pub open spec fn number_text(n: JsonNumber) -> Seq<char> {
    match n {
        JsonNumber::PosInt(u) => decimal(u as nat),
        JsonNumber::NegInt(i) => signed_decimal(i as int),
        JsonNumber::Float(f) => f.text@,
    }
}

/// The compact JSON text of `v`, as `serde_json::to_string` and `Display`
/// write it: no white space, members in the object's order.
pub open spec fn json_text(v: JsonValue) -> Seq<char>
    decreases v,
{
    match v {
        JsonValue::Null => "null"@,
        JsonValue::Bool(b) => if b {
            "true"@
        } else {
            "false"@
        },
        JsonValue::Number(n) => number_text(n),
        JsonValue::String(s) => json_quoted(s@),
        JsonValue::Array(items) => seq!['['] + items_text(items@) + seq![']'],
        JsonValue::Object(entries) => seq!['{'] + entries_text(entries@) + seq!['}'],
    }
}

/// The texts of `items`, separated by commas.
pub open spec fn items_text(items: Seq<JsonValue>) -> Seq<char>
    decreases items,
{
    if items.len() == 0 {
        seq![]
    } else if items.len() == 1 {
        json_text(items[0])
    } else {
        items_text(items.subrange(0, items.len() - 1)) + seq![','] + json_text(
            items[items.len() - 1],
        )
    }
}

/// The members of an object as `"key":value`, separated by commas.
pub open spec fn entries_text(entries: Seq<(String, JsonValue)>) -> Seq<char>
    decreases entries,
{
    if entries.len() == 0 {
        seq![]
    } else if entries.len() == 1 {
        json_quoted(entries[0].0@) + seq![':'] + json_text(entries[0].1)
    } else {
        let last = entries[entries.len() - 1];
        entries_text(entries.subrange(0, entries.len() - 1)) + seq![','] + json_quoted(last.0@)
            + seq![':'] + json_text(last.1)
    }
}

impl JsonValue {
    /// The member with key `key`, when `self` is an object that has one.
    pub fn get(&self, key: &str) -> (r: Option<&JsonValue>)
        ensures
            match r {
                Some(m) => get(*self, key@) == Some(*m),
                None => get(*self, key@) is None,
            },
    {
        match self {
            JsonValue::Object(entries) => {
                let mut i: usize = 0;
                assert(entries@.subrange(0, entries.len() as int) =~= entries@);
                while i < entries.len()
                    invariant
                        *self == JsonValue::Object(*entries),
                        i <= entries.len(),
                        entries_get(entries@, key@) == entries_get(
                            entries@.subrange(i as int, entries.len() as int),
                            key@,
                        ),
                    decreases entries.len() - i,
                {
                    let ghost rest = entries@.subrange(i as int, entries.len() as int);
                    assert(rest.drop_first() =~= entries@.subrange(i + 1, entries.len() as int));
                    assert(rest[0] == entries@[i as int]);
                    if str_eq(entries[i].0.as_str(), key) {
                        return Some(&entries[i].1);
                    }
                    i += 1;
                }
                None
            },
            _ => None,
        }
    }

    /// The string that `self` is, if it is one.
    pub fn as_str(&self) -> (r: Option<&String>)
        ensures
            match r {
                Some(s) => as_str(*self) == Some(s@),
                None => as_str(*self) is None,
            },
    {
        match self {
            JsonValue::String(s) => Some(s),
            _ => None,
        }
    }

    /// Whether `self` is an object.
    pub fn is_object(&self) -> (r: bool)
        ensures
            r == is_object(*self),
    {
        match self {
            JsonValue::Object(_) => true,
            _ => false,
        }
    }

    /// The string at member `key`, when `self` is an object and that member is a string.
    pub fn str_at(&self, key: &str) -> (r: Option<&String>)
        ensures
            match r {
                Some(s) => str_at(*self, key@) == Some(s@),
                None => str_at(*self, key@) is None,
            },
    {
        match self.get(key) {
            Some(m) => m.as_str(),
            None => None,
        }
    }
}

/// The number as `Value::as_u64`, or failing that `Value::as_f64` cast to
/// `u64`, gives it.
pub fn number_whole_exec(n: &JsonNumber) -> (r: u64)
    ensures
        r == number_whole(*n),
{
    match n {
        JsonNumber::PosInt(u) => *u,
        JsonNumber::NegInt(_) => 0,
        JsonNumber::Float(f) => f.whole,
    }
}

/// Appends the strings held anywhere in `v` to `out`.
pub fn collect_strings(v: &JsonValue, out: &mut Vec<String>)
    ensures
        texts(final(out)@) == texts(old(out)@) + strings_of(*v),
    decreases v,
{
    match v {
        JsonValue::String(s) => {
            out.push(s.clone());
            assert(texts(out@) =~= texts(old(out)@) + seq![s@]);
        },
        JsonValue::Array(items) => {
            let mut i: usize = 0;
            assert(items@.subrange(0, items.len() as int) =~= items@);
            while i < items.len()
                invariant
                    *v == JsonValue::Array(*items),
                    i <= items.len(),
                    texts(out@) + strings_of_items(items@.subrange(i as int, items.len() as int))
                        == texts(old(out)@) + strings_of(*v),
                decreases items.len() - i,
            {
                let ghost rest = items@.subrange(i as int, items.len() as int);
                assert(rest.subrange(1, rest.len() as int) =~= items@.subrange(
                    i + 1,
                    items.len() as int,
                ));
                assert(rest[0] == items@[i as int]);
                let ghost before = texts(out@);
                proof {
                    assert(decreases_to!(*v => (*v)->Array_0));
                    assert(decreases_to!(items => items@));
                    assert(decreases_to!(items@ => items@[i as int]));
                }
                collect_strings(&items[i], out);
                assert(texts(out@) + strings_of_items(items@.subrange(i + 1, items.len() as int))
                    =~= before + strings_of_items(rest));
                i += 1;
            }
            assert(items@.subrange(i as int, items.len() as int) =~= Seq::<JsonValue>::empty());
            assert(texts(out@) + strings_of_items(Seq::<JsonValue>::empty()) =~= texts(out@));
        },
        JsonValue::Object(entries) => {
            let mut i: usize = 0;
            assert(entries@.subrange(0, entries.len() as int) =~= entries@);
            while i < entries.len()
                invariant
                    *v == JsonValue::Object(*entries),
                    i <= entries.len(),
                    texts(out@) + strings_of_entries(
                        entries@.subrange(i as int, entries.len() as int),
                    ) == texts(old(out)@) + strings_of(*v),
                decreases entries.len() - i,
            {
                let ghost rest = entries@.subrange(i as int, entries.len() as int);
                assert(rest.subrange(1, rest.len() as int) =~= entries@.subrange(
                    i + 1,
                    entries.len() as int,
                ));
                assert(rest[0] == entries@[i as int]);
                let ghost before = texts(out@);
                proof {
                    assert(decreases_to!(*v => (*v)->Object_0));
                    assert(decreases_to!(entries => entries@));
                    assert(decreases_to!(entries@ => entries@[i as int]));
                    assert(decreases_to!(entries@[i as int] => entries@[i as int].1));
                }
                collect_strings(&entries[i].1, out);
                assert(texts(out@) + strings_of_entries(
                    entries@.subrange(i + 1, entries.len() as int),
                ) =~= before + strings_of_entries(rest));
                i += 1;
            }
            assert(entries@.subrange(i as int, entries.len() as int) =~= Seq::<
                (String, JsonValue),
            >::empty());
            assert(texts(out@) + strings_of_entries(Seq::<(String, JsonValue)>::empty())
                =~= texts(out@));
        },
        _ => {
            assert(texts(out@) =~= texts(old(out)@) + strings_of(*v));
        },
    }
}

/// The compact JSON text of `v`.
pub fn to_json_text(v: &JsonValue) -> (r: String)
    ensures
        r@ == json_text(*v),
    decreases v,
{
    match v {
        JsonValue::Null => String::from_str("null"),
        JsonValue::Bool(b) => if *b {
            String::from_str("true")
        } else {
            String::from_str("false")
        },
        JsonValue::Number(n) => match n {
            JsonNumber::PosInt(u) => decimal_string(*u),
            JsonNumber::NegInt(i) => signed_decimal_string(*i),
            JsonNumber::Float(f) => f.text.clone(),
        },
        JsonValue::String(s) => json_string_literal(s.as_str()),
        JsonValue::Array(items) => {
            let mut out = String::from_str("[");
            proof {
                reveal_strlit("[");
                reveal_strlit(",");
                reveal_strlit("]");
            }
            let mut i: usize = 0;
            assert(items@.subrange(0, 0) =~= Seq::<JsonValue>::empty());
            while i < items.len()
                invariant
                    *v == JsonValue::Array(*items),
                    i <= items.len(),
                    out@ == seq!['['] + items_text(items@.subrange(0, i as int)),
                decreases items.len() - i,
            {
                proof {
                    reveal_strlit(",");
                }
                let ghost prefix = items@.subrange(0, i + 1);
                assert(prefix.subrange(0, i as int) =~= items@.subrange(0, i as int));
                assert(prefix[i as int] == items@[i as int]);
                if i > 0 {
                    out.append(",");
                }
                proof {
                    assert(decreases_to!(*v => (*v)->Array_0));
                    assert(decreases_to!(items => items@));
                    assert(decreases_to!(items@ => items@[i as int]));
                }
                let ghost before = out@;
                let t = to_json_text(&items[i]);
                assert(t@ == json_text(prefix[i as int]));
                out.append(t.as_str());
                if i == 0 {
                    assert(items_text(prefix) == json_text(prefix[0]));
                    assert(out@ =~= seq!['['] + items_text(prefix));
                } else {
                    assert(items_text(prefix) == items_text(prefix.subrange(0, i as int)) + seq![',']
                        + json_text(prefix[i as int]));
                    assert(before =~= seq!['['] + items_text(items@.subrange(0, i as int)) + seq![',']);
                    assert(out@ =~= seq!['['] + items_text(prefix));
                }
                i += 1;
            }
            assert(items@.subrange(0, i as int) =~= items@);
            out.append("]");
            out
        },
        JsonValue::Object(entries) => {
            let mut out = String::from_str("{");
            proof {
                reveal_strlit("{");
                reveal_strlit(",");
                reveal_strlit(":");
                reveal_strlit("}");
            }
            let mut i: usize = 0;
            assert(entries@.subrange(0, 0) =~= Seq::<(String, JsonValue)>::empty());
            while i < entries.len()
                invariant
                    *v == JsonValue::Object(*entries),
                    i <= entries.len(),
                    out@ == seq!['{'] + entries_text(entries@.subrange(0, i as int)),
                decreases entries.len() - i,
            {
                proof {
                    reveal_strlit(",");
                    reveal_strlit(":");
                }
                let ghost prefix = entries@.subrange(0, i + 1);
                assert(prefix.subrange(0, i as int) =~= entries@.subrange(0, i as int));
                assert(prefix[i as int] == entries@[i as int]);
                if i > 0 {
                    out.append(",");
                }
                let k = json_string_literal(entries[i].0.as_str());
                out.append(k.as_str());
                out.append(":");
                proof {
                    assert(decreases_to!(*v => (*v)->Object_0));
                    assert(decreases_to!(entries => entries@));
                    assert(decreases_to!(entries@ => entries@[i as int]));
                    assert(decreases_to!(entries@[i as int] => entries@[i as int].1));
                }
                let t = to_json_text(&entries[i].1);
                out.append(t.as_str());
                assert(out@ =~= seq!['{'] + entries_text(prefix));
                i += 1;
            }
            assert(entries@.subrange(0, i as int) =~= entries@);
            out.append("}");
            out
        },
    }
}

} // verus!
