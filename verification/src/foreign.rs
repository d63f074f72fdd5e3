//! The calls into `std` and `regex` whose results Verus cannot
//! compute: each is named by an uninterpreted spec function, and each wrapper
//! says that its result is that name applied to its arguments.
use vstd::prelude::*;

verus! {

/// What `str::to_lowercase` returns for a string: its Unicode lowercase mapping.
pub uninterp spec fn lowercase(s: Seq<char>) -> Seq<char>;

/// What `str::to_uppercase` returns for a string: its Unicode uppercase mapping.
pub uninterp spec fn uppercase(s: Seq<char>) -> Seq<char>;

/// What `format!("{:?}", s)` writes for a string `s`: `s` in double quotes,
/// each character escaped as `str`'s `Debug` escapes it (as
/// `char::escape_debug` does, except that a single quote stays as it is).
pub uninterp spec fn debug_quoted(s: Seq<char>) -> Seq<char>;

/// What `regex::Regex::new(pattern)` followed by `Regex::is_match(haystack)`
/// answers: `None` when `pattern` does not compile, else whether some substring
/// of `haystack` matches it.
pub uninterp spec fn regex_is_match(pattern: Seq<char>, haystack: Seq<char>) -> Option<bool>;

/// The text of capture group 1 of the leftmost-first match of `pattern` in
/// `haystack`, as `regex::Regex::captures` finds it; `None` when the pattern
/// does not compile, nothing matches, or group 1 takes no part in the match.
pub uninterp spec fn regex_first_group(pattern: Seq<char>, haystack: Seq<char>) -> Option<
    Seq<char>,
>;

/// `s` is made of ASCII characters.
pub open spec fn is_ascii_text(s: Seq<char>) -> bool {
    forall|i: int| 0 <= i < s.len() ==> (#[trigger] s[i]) <= '\u{7f}'
}

/// The ASCII lowercase of `c`: `A`..`Z` become `a`..`z`, other characters stay.
pub open spec fn ascii_lower_char(c: char) -> char {
    if 'A' <= c && c <= 'Z' {
        ((c as u32) + 32) as char
    } else {
        c
    }
}

/// The ASCII lowercase of `s`, character by character.
pub open spec fn ascii_lower(s: Seq<char>) -> Seq<char> {
    s.map_values(|c: char| ascii_lower_char(c))
}

/// The lowercase of `s` as `str::to_lowercase` gives it: the ASCII lowercase
/// for ASCII text, and otherwise its Unicode lowercase mapping.
pub open spec fn lower_text(s: Seq<char>) -> Seq<char> {
    if is_ascii_text(s) {
        ascii_lower(s)
    } else {
        lowercase(s)
    }
}

/// Calls `str::to_lowercase`. The contract claims that the result is
/// `lowercase(s@)`, and that for a string of ASCII characters, whose Unicode
/// lowercase mappings are the ASCII ones, it is the ASCII lowercase.
#[verifier::external_body]
pub(crate) fn to_lowercase(s: &str) -> (r: String)
    ensures
        r@ == lowercase(s@),
        is_ascii_text(s@) ==> r@ == ascii_lower(s@),
{
    s.to_lowercase()
}

/// The ASCII uppercase of `c`: `a`..`z` become `A`..`Z`, other characters stay.
pub open spec fn ascii_upper_char(c: char) -> char {
    if 'a' <= c && c <= 'z' {
        ((c as u32) - 32) as char
    } else {
        c
    }
}

/// The ASCII uppercase of `s`, character by character.
pub open spec fn ascii_upper(s: Seq<char>) -> Seq<char> {
    s.map_values(|c: char| ascii_upper_char(c))
}

/// The uppercase of `s` as `str::to_uppercase` gives it: the ASCII uppercase
/// for ASCII text, and otherwise its Unicode uppercase mapping.
pub open spec fn upper_text(s: Seq<char>) -> Seq<char> {
    if is_ascii_text(s) {
        ascii_upper(s)
    } else {
        uppercase(s)
    }
}

/// Calls `str::to_uppercase`. The contract claims that the result is
/// `uppercase(s@)`, and that for a string of ASCII characters, whose Unicode
/// uppercase mappings are the ASCII ones, it is the ASCII uppercase.
#[verifier::external_body]
pub(crate) fn to_uppercase(s: &str) -> (r: String)
    ensures
        r@ == uppercase(s@),
        is_ascii_text(s@) ==> r@ == ascii_upper(s@),
{
    s.to_uppercase()
}

/// Calls `format!("{:?}", s)`, the `Debug` formatting of a string; the contract
/// claims only that the result is `debug_quoted(s@)`.
#[verifier::external_body]
pub(crate) fn debug_string(s: &str) -> (r: String)
    ensures
        r@ == debug_quoted(s@),
{
    format!("{:?}", s)
}

/// Calls `regex::Regex::new(pattern)` and, when it compiles, `Regex::is_match`
/// on `haystack`; the contract claims that the result is
/// `regex_is_match(pattern@, haystack@)`.
#[verifier::external_body]
pub(crate) fn regex_search(pattern: &str, haystack: &str) -> (r: Option<bool>)
    ensures
        r == regex_is_match(pattern@, haystack@),
{
    match regex::Regex::new(pattern) {
        Ok(re) => Some(re.is_match(haystack)),
        Err(_) => None,
    }
}

/// Calls `regex::Regex::new(pattern)`, `Regex::captures` on `haystack` and
/// `Captures::get(1)`; the contract claims that the text of that group is
/// `regex_first_group(pattern@, haystack@)`.
#[verifier::external_body]
pub(crate) fn regex_capture(pattern: &str, haystack: &str) -> (r: Option<String>)
    ensures
        match r {
            Some(g) => regex_first_group(pattern@, haystack@) == Some(g@),
            None => regex_first_group(pattern@, haystack@) is None,
        },
{
    match regex::Regex::new(pattern) {
        Ok(re) => match re.captures(haystack) {
            Some(caps) => match caps.get(1) {
                Some(m) => Some(m.as_str().to_string()),
                None => None,
            },
            None => None,
        },
        Err(_) => None,
    }
}

} // verus!
