//! Rules for Code nodes: forbidden `require()` calls, node types that do not
//! exist, and JavaScript that looks cut off.
use vstd::prelude::*;
use vstd::utf8::{decode_utf8, encode_utf8, is_char_boundary};
use crate::finding::{
    about_node, finding, has_finding, lemma_has_finding_concat, opt_text, views, Finding,
    FindingView, Severity,
};
use crate::model::{code_type, param_text, type_text, Node};
use crate::text::{
    chars_of, contains, contains_chars, decimal, decimal_string, has_prefix, has_suffix, line_bounds,
    lines, occurs_at_exec, pieces, str_contains, str_eq, sub_chars, trim, trim_bounds,
    trim_start_char,
};

verus! {

/// `c` is ASCII white space, as `u8::is_ascii_whitespace` decides it.
pub open spec fn is_ascii_ws(c: u8) -> bool {
    c == 0x20u8 || c == 0x09u8 || c == 0x0au8 || c == 0x0cu8 || c == 0x0du8
}

/// `c` is an ASCII letter.
pub open spec fn is_ascii_letter(c: u8) -> bool {
    (0x41u8 <= c && c <= 0x5au8) || (0x61u8 <= c && c <= 0x7au8)
}

/// Every forbidden-require finding on `n` is about `n`.
proof fn lemma_require_findings_about_node(n: Node, code: Seq<char>, mods: Seq<Seq<char>>)
    ensures
        about_node(require_findings(n, code, mods), opt_text(n.id), opt_text(n.name)),
    decreases mods.len(),
{
    if mods.len() > 0 {
        lemma_require_findings_about_node(n, code, mods.drop_last());
    }
}

/// Every finding of the Code node rules on `n` is about `n`.
pub proof fn lemma_code_findings_about_node(n: Node)
    ensures
        about_node(code_node_findings(n), opt_text(n.id), opt_text(n.name)),
{
    if let Some(code) = param_text(n, "jsCode"@) {
        lemma_require_findings_about_node(n, code, forbidden_modules());
    }
}

/// The Code node rules find nothing in a node that is neither a Code node nor
/// an `executeCommand` node.
pub proof fn lemma_code_rules_only_on_code_nodes(n: Node)
    requires
        type_text(n) != code_type(),
        type_text(n) != "n8n-nodes-base.executeCommand"@,
    ensures
        code_node_findings(n) == Seq::<FindingView>::empty(),
{
    assert(code_node_findings(n) =~= Seq::<FindingView>::empty());
}

/// The last byte before `pos` that is not ASCII white space.
pub open spec fn prev_non_ws(b: Seq<u8>, pos: int) -> Option<u8>
    decreases pos,
{
    if pos <= 0 || pos > b.len() {
        None
    } else if !is_ascii_ws(b[pos - 1]) {
        Some(b[pos - 1])
    } else {
        prev_non_ws(b, pos - 1)
    }
}

/// The index of the first `\n` at or after `k`, or the length of `b`.
pub open spec fn line_end(b: Seq<u8>, k: int) -> int
    decreases b.len() - k,
{
    if k >= b.len() {
        k
    } else if b[k] == 0x0au8 {
        k
    } else {
        line_end(b, k + 1)
    }
}

/// The index of the first `*/` at or after `k`; when there is none, the
/// last index of `b` (or `k`, if that is later).
pub open spec fn block_close(b: Seq<u8>, k: int) -> int
    decreases b.len() - k,
{
    if k + 1 >= b.len() {
        k
    } else if b[k] == 0x2au8 && b[k + 1] == 0x2fu8 {
        k
    } else {
        block_close(b, k + 1)
    }
}

/// The index of the first unescaped `q` at or after `k` (a backslash escapes
/// the byte after it), or the end of `b`.
pub open spec fn quote_close(b: Seq<u8>, k: int, q: u8) -> int
    decreases b.len() + 2 - k,
{
    if k >= b.len() {
        k
    } else if b[k] == 0x5cu8 {
        quote_close(b, k + 2, q)
    } else if b[k] == q {
        k
    } else {
        quote_close(b, k + 1, q)
    }
}

/// The index of the first byte at or after `k` that is not an ASCII letter.
pub open spec fn letters_end(b: Seq<u8>, k: int) -> int
    decreases b.len() - k,
{
    if k >= b.len() {
        k
    } else if is_ascii_letter(b[k]) {
        letters_end(b, k + 1)
    } else {
        k
    }
}

/// A `/` whose previous non-blank byte is one of these starts a regex literal.
pub open spec fn opens_regex(prev: Option<u8>) -> bool {
    match prev {
        Some(c) => c == 0x3du8 || c == 0x28u8 || c == 0x2cu8 || c == 0x3bu8 || c == 0x3au8
            || c == 0x21u8 || c == 0x26u8 || c == 0x7cu8 || c == 0x7bu8 || c == 0x7du8 || c
            == 0x5bu8,
        None => false,
    }
}

/// One step of the scan at index `i < b.len()`: the index where the next step
/// starts, and the change in brace depth. Line comments, block comments,
/// quoted strings (`'`, `"` and backticks) and regex literals are skipped
/// whole; `{` and `}` count one each way.
pub open spec fn scan_step(b: Seq<u8>, i: int) -> (int, int) {
    let ch = b[i];
    if ch == 0x2fu8 && i + 1 < b.len() && b[i + 1] == 0x2fu8 {
        (line_end(b, i), 0)
    } else if ch == 0x2fu8 && i + 1 < b.len() && b[i + 1] == 0x2au8 {
        (block_close(b, i + 2) + 2, 0)
    } else if ch == 0x27u8 || ch == 0x22u8 || ch == 0x60u8 {
        (quote_close(b, i + 1, ch) + 1, 0)
    } else if ch == 0x2fu8 && i > 0 && opens_regex(prev_non_ws(b, i)) {
        (letters_end(b, quote_close(b, i + 1, 0x2fu8) + 1), 0)
    } else if ch == 0x7bu8 {
        (i + 1, 1)
    } else if ch == 0x7du8 {
        (i + 1, -1)
    } else {
        (i + 1, 0)
    }
}

pub proof fn lemma_line_end(b: Seq<u8>, k: int)
    ensures
        line_end(b, k) >= k,
        k < b.len() && b[k] != 0x0au8 ==> line_end(b, k) > k,
    decreases b.len() - k,
{
    if k < b.len() && b[k] != 0x0au8 {
        lemma_line_end(b, k + 1);
    }
}

pub proof fn lemma_block_close(b: Seq<u8>, k: int)
    ensures
        block_close(b, k) >= k,
    decreases b.len() - k,
{
    if k + 1 < b.len() && !(b[k] == 0x2au8 && b[k + 1] == 0x2fu8) {
        lemma_block_close(b, k + 1);
    }
}

pub proof fn lemma_quote_close(b: Seq<u8>, k: int, q: u8)
    ensures
        quote_close(b, k, q) >= k,
    decreases b.len() + 2 - k,
{
    if k < b.len() {
        if b[k] == 0x5cu8 {
            lemma_quote_close(b, k + 2, q);
        } else if b[k] != q {
            lemma_quote_close(b, k + 1, q);
        }
    }
}

pub proof fn lemma_letters_end(b: Seq<u8>, k: int)
    ensures
        letters_end(b, k) >= k,
    decreases b.len() - k,
{
    if k < b.len() && is_ascii_letter(b[k]) {
        lemma_letters_end(b, k + 1);
    }
}

/// Every step moves forward.
pub proof fn lemma_scan_step_advances(b: Seq<u8>, i: int)
    requires
        0 <= i < b.len(),
    ensures
        scan_step(b, i).0 > i,
{
    lemma_line_end(b, i);
    lemma_block_close(b, i + 2);
    lemma_quote_close(b, i + 1, b[i]);
    lemma_quote_close(b, i + 1, 0x2fu8);
    lemma_letters_end(b, quote_close(b, i + 1, 0x2fu8) + 1);
}

/// The net number of braces opened and not closed from index `i` on, with
/// comments, strings and regex literals skipped.
pub open spec fn depth_from(b: Seq<u8>, i: int) -> int
    decreases b.len() - i,
{
    if i < 0 || i >= b.len() {
        0
    } else {
        proof {
            lemma_scan_step_advances(b, i);
        }
        let next = scan_step(b, i).0;
        scan_step(b, i).1 + depth_from(
            b,
            if next > b.len() {
                b.len() as int
            } else {
                next
            },
        )
    }
}

/// Past the end there is nothing to count.
pub proof fn lemma_depth_past_end(b: Seq<u8>, x: int)
    requires
        x >= b.len(),
    ensures
        depth_from(b, x) == 0,
{
}

/// The greatest depth, relative to the depth at index `i`, that the scan
/// reaches from `i` on (at least 0, the depth at `i` itself).
pub open spec fn max_depth_from(b: Seq<u8>, i: int) -> int
    decreases b.len() - i,
{
    if i < 0 || i >= b.len() {
        0
    } else {
        proof {
            lemma_scan_step_advances(b, i);
        }
        let next = scan_step(b, i).0;
        let m = scan_step(b, i).1 + max_depth_from(
            b,
            if next > b.len() {
                b.len() as int
            } else {
                next
            },
        );
        if m > 0 {
            m
        } else {
            0
        }
    }
}

/// The least depth, relative to the depth at index `i`, that the scan reaches
/// from `i` on (at most 0, the depth at `i` itself).
pub open spec fn min_depth_from(b: Seq<u8>, i: int) -> int
    decreases b.len() - i,
{
    if i < 0 || i >= b.len() {
        0
    } else {
        proof {
            lemma_scan_step_advances(b, i);
        }
        let next = scan_step(b, i).0;
        let m = scan_step(b, i).1 + min_depth_from(
            b,
            if next > b.len() {
                b.len() as int
            } else {
                next
            },
        );
        if m < 0 {
            m
        } else {
            0
        }
    }
}

/// `c` opens a string literal: a single quote, a double quote or a backtick.
pub open spec fn is_quote(c: u8) -> bool {
    c == 0x27u8 || c == 0x22u8 || c == 0x60u8
}

/// The scan of `b` from index `i` on enters a string literal that is never
/// closed: the code ends inside a string.
pub open spec fn ends_in_string_from(b: Seq<u8>, i: int) -> bool
    decreases b.len() - i,
{
    if i < 0 || i >= b.len() {
        false
    } else if is_quote(b[i]) && quote_close(b, i + 1, b[i]) >= b.len() {
        true
    } else {
        proof {
            lemma_scan_step_advances(b, i);
        }
        let next = scan_step(b, i).0;
        ends_in_string_from(
            b,
            if next > b.len() {
                b.len() as int
            } else {
                next
            },
        )
    }
}

/// The JavaScript `code` ends inside a string literal that is never closed.
pub open spec fn ends_in_string(code: Seq<char>) -> bool {
    ends_in_string_from(encode_utf8(code), 0)
}

/// A step that does not enter a string left open leaves the question of
/// ending inside a string as it is from where the step lands.
proof fn lemma_string_step(b: Seq<u8>, i: int)
    requires
        0 <= i < b.len(),
        !(is_quote(b[i]) && quote_close(b, i + 1, b[i]) >= b.len()),
    ensures
        ends_in_string_from(b, i) == ends_in_string_from(b, scan_step(b, i).0),
{
    lemma_scan_step_advances(b, i);
    let next = scan_step(b, i).0;
    if next > b.len() {
        assert(!ends_in_string_from(b, next));
        assert(!ends_in_string_from(b, b.len() as int));
    }
}

/// The brace depth stays within the range of `i32` all along the scan of `b`.
pub open spec fn depth_fits_i32(b: Seq<u8>) -> bool {
    max_depth_from(b, 0) <= i32::MAX && min_depth_from(b, 0) >= i32::MIN
}

/// The greatest depth is at least 0 and the least at most 0.
proof fn lemma_extremes_sign(b: Seq<u8>, x: int)
    ensures
        max_depth_from(b, x) >= 0,
        min_depth_from(b, x) <= 0,
{
}

/// A step that skips a comment, a string or a regex literal leaves the depth
/// and its extremes from there on as they are from where it lands.
proof fn lemma_skip_step(b: Seq<u8>, i: int)
    requires
        0 <= i < b.len(),
        scan_step(b, i).1 == 0,
    ensures
        depth_from(b, i) == depth_from(b, scan_step(b, i).0),
        max_depth_from(b, i) == max_depth_from(b, scan_step(b, i).0),
        min_depth_from(b, i) == min_depth_from(b, scan_step(b, i).0),
{
    lemma_scan_step_advances(b, i);
    let next = scan_step(b, i).0;
    let landed = if next > b.len() {
        b.len() as int
    } else {
        next
    };
    lemma_extremes_sign(b, landed);
    if next > b.len() {
        lemma_depth_past_end(b, next);
        lemma_depth_past_end(b, b.len() as int);
    }
}

/// The depth at the end lies between the least and the greatest depth.
pub proof fn lemma_depth_within(b: Seq<u8>, i: int)
    ensures
        min_depth_from(b, i) <= depth_from(b, i) <= max_depth_from(b, i),
    decreases b.len() - i,
{
    if 0 <= i < b.len() {
        lemma_scan_step_advances(b, i);
        let next = scan_step(b, i).0;
        lemma_depth_within(
            b,
            if next > b.len() {
                b.len() as int
            } else {
                next
            },
        );
    }
}

/// The net number of unclosed braces in the JavaScript `code`, skipping
/// strings and comments.
pub open spec fn brace_depth_of(code: Seq<char>) -> int {
    depth_from(vstd::utf8::encode_utf8(code), 0)
}

/// The number of `{` minus the number of `}` in `b` from index `i` on.
pub open spec fn net_braces(b: Seq<u8>, i: int) -> int
    decreases b.len() - i,
{
    if i < 0 || i >= b.len() {
        0
    } else {
        (if b[i] == 0x7bu8 {
            1int
        } else if b[i] == 0x7du8 {
            -1int
        } else {
            0int
        }) + net_braces(b, i + 1)
    }
}

/// `b` has no byte that opens a string or a comment: no quote, backtick or slash.
pub open spec fn no_strings_or_comments(b: Seq<u8>) -> bool {
    forall|k: int|
        0 <= k < b.len() ==> #[trigger] b[k] != 0x2fu8 && b[k] != 0x27u8 && b[k] != 0x22u8 && b[k]
            != 0x60u8
}

/// In code without strings or comments, the brace depth from `i` on is the
/// number of `{` minus the number of `}`.
proof fn lemma_depth_is_net_braces(b: Seq<u8>, i: int)
    requires
        no_strings_or_comments(b),
        0 <= i,
    ensures
        depth_from(b, i) == net_braces(b, i),
    decreases b.len() - i,
{
    if i < b.len() {
        assert(b[i] != 0x2fu8 && b[i] != 0x27u8 && b[i] != 0x22u8 && b[i] != 0x60u8);
        lemma_depth_is_net_braces(b, i + 1);
    }
}

/// The number of times `c` occurs in `s`.
pub open spec fn count_char(s: Seq<char>, c: char) -> nat
    decreases s.len(),
{
    if s.len() == 0 {
        0
    } else {
        (if s[0] == c {
            1nat
        } else {
            0nat
        }) + count_char(s.drop_first(), c)
    }
}

/// No character of `s` can open a comment, a string or a regex literal: no
/// `/`, quote or backtick.
pub open spec fn no_literal_chars(s: Seq<char>) -> bool {
    forall|k: int|
        0 <= k < s.len() ==> #[trigger] s[k] != '/' && s[k] != '\'' && s[k] != '"' && s[k] != '`'
}

/// An ASCII character is encoded as its own byte; every byte of the encoding
/// of any other character is at least 0x80.
proof fn lemma_scalar_bytes(x: char)
    ensures
        (x as u32) < 0x80 ==> vstd::utf8::encode_scalar(x as u32) == seq![(x as u32) as u8],
        (x as u32) < 0x80 ==> ((x as u32) as u8) as u32 == x as u32,
        (x as u32) >= 0x80 ==> forall|k: int|
            0 <= k < vstd::utf8::encode_scalar(x as u32).len() ==> #[trigger] vstd::utf8::encode_scalar(
                x as u32,
            )[k] >= 0x80,
{
    let v = x as u32;
    if v < 0x80 {
        assert((v & 0x7F) as u8 == v as u8 && (v as u8) as u32 == v) by (bit_vector)
            requires
                v < 0x80,
        ;
    } else {
        let b1 = ((v >> 6) & 0x1F) as u8;
        let b2 = ((v >> 12) & 0x0F) as u8;
        let b3 = ((v >> 18) & 0x7) as u8;
        let c1 = (v & 0x3F) as u8;
        let c2 = ((v >> 6) & 0x3F) as u8;
        let c3 = ((v >> 12) & 0x3F) as u8;
        assert((0xC0u8 | b1) >= 0x80) by (bit_vector);
        assert((0xE0u8 | b2) >= 0x80) by (bit_vector);
        assert((0xF0u8 | b3) >= 0x80) by (bit_vector);
        assert((0x80u8 | c1) >= 0x80) by (bit_vector);
        assert((0x80u8 | c2) >= 0x80) by (bit_vector);
        assert((0x80u8 | c3) >= 0x80) by (bit_vector);
    }
}

/// Counting braces from index `i` of `a + b` counts those of `a` from `i`
/// and all those of `b`.
proof fn lemma_net_braces_concat(a: Seq<u8>, b: Seq<u8>, i: int)
    requires
        0 <= i <= a.len(),
    ensures
        net_braces(a + b, i) == net_braces(a, i) + net_braces(b, 0),
    decreases a.len() - i,
{
    if i < a.len() {
        lemma_net_braces_concat(a, b, i + 1);
        assert((a + b)[i] == a[i]);
    } else {
        lemma_net_braces_shift(a, b, 0);
    }
}

/// Counting braces of `a + b` from past `a` counts those of `b`.
proof fn lemma_net_braces_shift(a: Seq<u8>, b: Seq<u8>, j: int)
    requires
        0 <= j <= b.len(),
    ensures
        net_braces(a + b, a.len() + j) == net_braces(b, j),
    decreases b.len() - j,
{
    if j < b.len() {
        lemma_net_braces_shift(a, b, j + 1);
        assert((a + b)[a.len() + j] == b[j]);
    }
}

/// The encoding of text without `/`, quotes or backticks has none of their
/// bytes, and its braces are the text's braces.
proof fn lemma_encoding_braces(s: Seq<char>)
    requires
        no_literal_chars(s),
    ensures
        no_strings_or_comments(encode_utf8(s)),
        net_braces(encode_utf8(s), 0) == count_char(s, '{') - count_char(s, '}'),
    decreases s.len(),
{
    if s.len() > 0 {
        let rest = s.drop_first();
        assert forall|k: int| 0 <= k < rest.len() implies #[trigger] rest[k] != '/' && rest[k]
            != '\'' && rest[k] != '"' && rest[k] != '`' by {
            assert(rest[k] == s[k + 1]);
        }
        lemma_encoding_braces(rest);
        let head = vstd::utf8::encode_scalar(s[0] as u32);
        lemma_scalar_bytes(s[0]);
        assert(s[0] != '/' && s[0] != '\'' && s[0] != '"' && s[0] != '`');
        assert(encode_utf8(s) == head + encode_utf8(rest));
        lemma_net_braces_concat(head, encode_utf8(rest), 0);
        if (s[0] as u32) < 0x80 {
            let x = s[0];
            assert(head[0] as u32 == x as u32);
            vstd::utf8::char_u32_cast(x, x as u32);
            vstd::utf8::char_u32_cast('{', '{' as u32);
            vstd::utf8::char_u32_cast('}', '}' as u32);
            vstd::utf8::char_u32_cast('/', '/' as u32);
            vstd::utf8::char_u32_cast('\'', '\'' as u32);
            vstd::utf8::char_u32_cast('"', '"' as u32);
            vstd::utf8::char_u32_cast('`', '`' as u32);
            assert(head[0] != 0x2fu8 && head[0] != 0x27u8 && head[0] != 0x22u8 && head[0] != 0x60u8);
            assert(net_braces(head, 1) == 0);
            assert(net_braces(head, 0) == (if x == '{' {
                1int
            } else if x == '}' {
                -1int
            } else {
                0int
            }));
        } else {
            assert forall|k: int| 0 <= k < head.len() implies net_braces(head, k) == 0 by {
                lemma_net_braces_high(head, k);
            }
            assert(net_braces(head, 0) == 0);
        }
        let e = encode_utf8(s);
        assert forall|k: int| 0 <= k < e.len() implies #[trigger] e[k] != 0x2fu8 && e[k] != 0x27u8
            && e[k] != 0x22u8 && e[k] != 0x60u8 by {
            if k < head.len() {
                assert(e[k] == head[k]);
            } else {
                assert(e[k] == encode_utf8(rest)[k - head.len()]);
            }
        }
    }
}

/// Bytes of at least 0x80 hold no braces.
proof fn lemma_net_braces_high(b: Seq<u8>, i: int)
    requires
        0 <= i <= b.len(),
        forall|k: int| 0 <= k < b.len() ==> #[trigger] b[k] >= 0x80,
    ensures
        net_braces(b, i) == 0,
    decreases b.len() - i,
{
    if i < b.len() {
        lemma_net_braces_high(b, i + 1);
    }
}

/// The brace depth of JavaScript without `/`, quotes or backticks (so with no
/// comment, string or regex literal) is the number of `{` minus the number of
/// `}`: only comments, strings and regex literals are skipped.
pub proof fn lemma_brace_depth_counts_braces(code: Seq<char>)
    requires
        no_literal_chars(code),
    ensures
        brace_depth_of(code) == count_char(code, '{') - count_char(code, '}'),
{
    lemma_encoding_braces(code);
    lemma_depth_is_net_braces(encode_utf8(code), 0);
}

/// The modules that the Code node sandbox blocks.
pub open spec fn forbidden_modules() -> Seq<Seq<char>> {
    seq![
        "fs"@,
        "child_process"@,
        "path"@,
        "http"@,
        "https"@,
        "os"@,
        "net"@,
        "crypto"@,
        "stream"@,
        "util"@,
        "events"@,
        "dns"@,
        "tls"@,
        "cluster"@,
        "readline"@,
    ]
}

/// The texts that show a `require()` of module `m`.
pub open spec fn require_patterns(m: Seq<char>) -> Seq<Seq<char>> {
    seq![
        "require('"@ + m + "')"@,
        "require(\""@ + m + "\")"@,
        "require('"@ + m + "/"@,
        "require(\""@ + m + "/"@,
    ]
}

/// `code` requires module `m` in one of the ways that `require_patterns` lists.
pub open spec fn requires_module(code: Seq<char>, m: Seq<char>) -> bool {
    exists|k: int| 0 <= k < 4 && contains(code, #[trigger] require_patterns(m)[k])
}

/// The finding for a forbidden `require()` of module `m` in node `n`.
pub open spec fn forbidden_require_finding(n: Node, m: Seq<char>) -> FindingView {
    finding(
        "code-forbidden-require"@,
        Severity::Error,
        "Code node uses require('"@ + m + "') which is blocked in n8n's sandbox"@,
    ).at_node(opt_text(n.id), opt_text(n.name)).suggesting(
        "Code nodes cannot import Node.js built-ins. Use readWriteFile for file ops, HTTP Request for network, SSH node for shell commands"@,
    )
}

/// One finding for each module of `mods`, in order, that `code` requires.
pub open spec fn require_findings(n: Node, code: Seq<char>, mods: Seq<Seq<char>>) -> Seq<
    FindingView,
>
    decreases mods.len(),
{
    if mods.len() == 0 {
        seq![]
    } else {
        require_findings(n, code, mods.drop_last()) + if requires_module(code, mods.last()) {
            seq![forbidden_require_finding(n, mods.last())]
        } else {
            seq![]
        }
    }
}

/// What `check_forbidden_require` finds: for a Code node with `jsCode`, one
/// error for each forbidden module that the code requires, in list order.
pub open spec fn forbidden_require_findings(n: Node) -> Seq<FindingView> {
    if type_text(n) == code_type() {
        match param_text(n, "jsCode"@) {
            Some(code) => require_findings(n, code, forbidden_modules()),
            None => seq![],
        }
    } else {
        seq![]
    }
}

/// What `check_invalid_node_type` finds: an error for an `executeCommand` node.
pub open spec fn invalid_node_type_findings(n: Node) -> Seq<FindingView> {
    if type_text(n) == "n8n-nodes-base.executeCommand"@ {
        seq![
            finding(
                "invalid-node-type"@,
                Severity::Error,
                "executeCommand node does not exist in Docker n8n. Import will fail with 'Unrecognized node type'"@,
            ).at_node(opt_text(n.id), opt_text(n.name)).suggesting(
                "Use SSH node (resource: command, operation: execute) or readWriteFile instead"@,
            ),
        ]
    } else {
        seq![]
    }
}

/// The number of bytes of the UTF-8 encoding of `s`, as `str::len` counts.
pub open spec fn byte_len(s: Seq<char>) -> nat {
    encode_utf8(s).len()
}

/// The encoding of a concatenation is the concatenation of the encodings.
pub proof fn lemma_encode_concat(a: Seq<char>, b: Seq<char>)
    ensures
        encode_utf8(a + b) == encode_utf8(a) + encode_utf8(b),
    decreases a.len(),
{
    if a.len() > 0 {
        assert((a + b).drop_first() =~= a.drop_first() + b);
        lemma_encode_concat(a.drop_first(), b);
        assert(encode_utf8(a + b) =~= encode_utf8(a) + encode_utf8(b));
    } else {
        assert(a + b =~= b);
    }
}

/// A piece of a text has no more bytes than the text.
pub proof fn lemma_byte_len_subrange(s: Seq<char>, a: int, b: int)
    requires
        0 <= a <= b <= s.len(),
    ensures
        byte_len(s.subrange(a, b)) <= byte_len(s),
{
    let x = s.subrange(0, a);
    let y = s.subrange(a, b);
    let z = s.subrange(b, s.len() as int);
    assert(s =~= x + y + z);
    lemma_encode_concat(x + y, z);
    lemma_encode_concat(x, y);
}

/// A line that returns: its trimmed text is not a `//` comment and holds `return `.
pub open spec fn returns_in_line(line: Seq<char>) -> bool {
    !has_prefix(trim(line), "//"@) && contains(trim(line), "return "@)
}

/// `code` has loops, conditionals or constants.
pub open spec fn has_logic(code: Seq<char>) -> bool {
    contains(code, "for "@) || contains(code, "if ("@) || contains(code, "const "@)
}

/// The trimmed text of the last line of `ls` that is not blank.
pub open spec fn last_nonblank(ls: Seq<Seq<char>>) -> Option<Seq<char>>
    decreases ls.len(),
{
    if ls.len() == 0 {
        None
    } else if trim(ls.last()).len() > 0 {
        Some(trim(ls.last()))
    } else {
        last_nonblank(ls.drop_last())
    }
}

/// The characters that a section divider comment is drawn with.
pub open spec fn is_divider_char(c: char) -> bool {
    c == '=' || c == '-' || c == ' ' || c == '\u{2500}' || c == '\u{2550}'
}

/// `t` is a divider comment: longer than ten bytes, drawn with divider
/// characters after its first two.
pub open spec fn is_divider(t: Seq<char>) -> bool {
    byte_len(t) > 10 && forall|i: int| 2 <= i < t.len() ==> is_divider_char(#[trigger] t[i])
}

/// The last non-blank line `t` is a comment cut mid-sentence: a `//` comment,
/// not a divider, not ending a block comment, whose text is not empty and
/// does not end with `.`, `)`, `}` or `;`.
pub open spec fn cut_mid_comment(t: Seq<char>) -> bool {
    let text = trim(trim_start_char(t, '/'));
    &&& has_prefix(t, "//"@)
    &&& !is_divider(t)
    &&& !has_suffix(t, "*/"@)
    &&& text.len() > 0
    &&& text.last() != '.'
    &&& text.last() != ')'
    &&& text.last() != '}'
    &&& text.last() != ';'
}

/// The last non-blank line of `code`, trimmed, when it is a comment cut mid-sentence.
pub open spec fn cut_comment(code: Seq<char>) -> Option<Seq<char>> {
    match last_nonblank(lines(code)) {
        Some(t) => if cut_mid_comment(t) {
            Some(t)
        } else {
            None
        },
        None => None,
    }
}

/// The largest character boundary of the UTF-8 text `b` at or below `k`.
pub open spec fn floor_boundary(b: Seq<u8>, k: int) -> int
    decreases k,
{
    if k <= 0 {
        0
    } else if is_char_boundary(b, k) {
        k
    } else {
        floor_boundary(b, k - 1)
    }
}

/// How a cut comment is quoted: whole up to 60 bytes, else its characters
/// that lie within its first 57 bytes, and `...`.
pub open spec fn comment_preview(t: Seq<char>) -> Seq<char> {
    if byte_len(t) > 60 {
        decode_utf8(encode_utf8(t).subrange(0, floor_boundary(encode_utf8(t), 57))) + "..."@
    } else {
        t
    }
}

/// The truncation checks can run on node `n` without a panic: when `n` is a
/// Code node whose `jsCode` has at least 80 bytes, the brace depth stays
/// within an `i32` all along the scan of the code, and the code's byte length,
/// plus the two bytes that the scan may step past its end, fits in a `usize`.
pub open spec fn code_checkable(n: Node) -> bool {
    match param_text(n, "jsCode"@) {
        Some(code) => type_text(n) == code_type() && byte_len(code) >= 80 ==> {
            &&& depth_fits_i32(encode_utf8(code))
            &&& byte_len(code) + 2 <= usize::MAX
        },
        None => true,
    }
}

/// The message of the unclosed-brace finding.
pub open spec fn unclosed_message(depth: int, len: nat) -> Seq<char> {
    "Code node appears truncated: "@ + decimal(depth as nat)
        + " unclosed brace(s) at end of code ("@ + decimal(len)
        + " chars). This will throw a SyntaxError at runtime."@
}

/// The message of the missing-return finding.
pub open spec fn no_return_message(len: nat) -> Seq<char> {
    "Code node has logic but no return statement ("@ + decimal(len)
        + " chars). Likely truncated or incomplete."@
}

/// The error for braces left open in `code`, if any.
pub open spec fn unclosed_findings(n: Node, code: Seq<char>) -> Seq<FindingView> {
    let depth = brace_depth_of(code);
    if depth > 0 {
        seq![
            finding(
                "code-truncated"@,
                Severity::Error,
                unclosed_message(depth, byte_len(code)),
            ).at_node(opt_text(n.id), opt_text(n.name)).suggesting(
                "The jsCode was likely cut off during a workflow update. Compare against the working version or the source-of-truth and re-paste the full code."@,
            ),
        ]
    } else {
        seq![]
    }
}

/// Some line of `code` returns.
pub open spec fn has_return(code: Seq<char>) -> bool {
    exists|k: int| 0 <= k < lines(code).len() && returns_in_line(#[trigger] lines(code)[k])
}

/// The error for logic without a returning line in `code`, if so.
pub open spec fn no_return_findings(n: Node, code: Seq<char>) -> Seq<FindingView> {
    if has_logic(code) && !has_return(code) {
        seq![
            finding(
                "code-truncated"@,
                Severity::Error,
                no_return_message(byte_len(code)),
            ).at_node(opt_text(n.id), opt_text(n.name)).suggesting(
                "n8n Code nodes must return an array of items. Ensure the code ends with `return [{ json: ... }]`."@,
            ),
        ]
    } else {
        seq![]
    }
}

/// The warning for `code` ending inside a comment cut mid-sentence, if so.
pub open spec fn cut_comment_findings(n: Node, code: Seq<char>) -> Seq<FindingView> {
    match cut_comment(code) {
        Some(t) => seq![
            finding(
                "code-truncated"@,
                Severity::Warning,
                "Code node ends inside a comment: \""@ + comment_preview(t)
                    + "\" \u{2014} may be truncated"@,
            ).at_node(opt_text(n.id), opt_text(n.name)).suggesting(
                "Code appears to end mid-comment. Verify the full jsCode was saved during the last workflow update."@,
            ),
        ],
        None => seq![],
    }
}

/// The message of the unterminated-string finding.
pub open spec fn open_string_message(len: nat) -> Seq<char> {
    "Code node ends inside an unterminated string literal ("@ + decimal(len)
        + " chars). This will throw a SyntaxError at runtime."@
}

/// The error for `code` ending inside a string literal that is never closed.
pub open spec fn open_string_findings(n: Node, code: Seq<char>) -> Seq<FindingView> {
    if ends_in_string(code) {
        seq![
            finding(
                "code-truncated"@,
                Severity::Error,
                open_string_message(byte_len(code)),
            ).at_node(opt_text(n.id), opt_text(n.name)).suggesting(
                "The jsCode was likely cut off during a workflow update. Compare against the working version or the source-of-truth and re-paste the full code."@,
            ),
        ]
    } else {
        seq![]
    }
}

/// What `check_truncated_code` finds in the `jsCode` of a Code node of at
/// least 80 bytes, in this order: an error when braces are left open, an
/// error when there is logic but no line returns, a warning when the code
/// ends inside a comment cut mid-sentence, and an error when it ends inside a
/// string literal that is never closed.
pub open spec fn truncated_code_findings(n: Node) -> Seq<FindingView> {
    if type_text(n) != code_type() {
        seq![]
    } else {
        match param_text(n, "jsCode"@) {
            None => seq![],
            Some(code) => if byte_len(code) < 80 {
                seq![]
            } else {
                unclosed_findings(n, code) + no_return_findings(n, code) + cut_comment_findings(
                    n,
                    code,
                ) + open_string_findings(n, code)
            },
        }
    }
}

/// The text of the comment line `t`: without its leading slashes, trimmed.
pub open spec fn comment_text(t: Seq<char>) -> Seq<char> {
    trim(trim_start_char(t, '/'))
}

/// The comment text `c` reads as finished: it is empty, or ends with `.`,
/// `)`, `}` or `;`.
pub open spec fn finished_text(c: Seq<char>) -> bool {
    c.len() == 0 || c.last() == '.' || c.last() == ')' || c.last() == '}' || c.last() == ';'
}

/// When the last non-blank line of the code of a Code node is a comment that
/// reads as finished, the truncation checks give no warning: every finding
/// they make is an error (unclosed braces, no return, an open string).
pub proof fn lemma_finished_comment_not_cut(n: Node, code: Seq<char>, t: Seq<char>)
    requires
        param_text(n, "jsCode"@) == Some(code),
        last_nonblank(lines(code)) == Some(t),
        finished_text(comment_text(t)),
    ensures
        forall|j: int|
            0 <= j < truncated_code_findings(n).len() ==> (#[trigger] truncated_code_findings(
                n,
            )[j]).severity == Severity::Error,
{
    assert(cut_comment(code) is None);
    let fs = truncated_code_findings(n);
    if type_text(n) == code_type() && byte_len(code) >= 80 {
        let a = unclosed_findings(n, code);
        let b = no_return_findings(n, code);
        let d = open_string_findings(n, code);
        assert(cut_comment_findings(n, code) =~= Seq::<FindingView>::empty());
        assert(fs =~= a + b + d);
        assert forall|j: int| 0 <= j < fs.len() implies (#[trigger] fs[j]).severity
            == Severity::Error by {
            if j < a.len() {
                assert(fs[j] == a[j]);
            } else if j < a.len() + b.len() {
                assert(fs[j] == b[j - a.len()]);
            } else {
                assert(fs[j] == d[j - a.len() - b.len()]);
            }
        }
    }
}

/// When the last non-blank line of the code (at least 80 bytes) of a Code
/// node is a `//` comment, not a divider, not closing a block comment, whose
/// text does not read as finished, the truncation checks warn that the code
/// ends inside a comment.
pub proof fn lemma_unfinished_comment_is_cut(n: Node, code: Seq<char>, t: Seq<char>)
    requires
        type_text(n) == code_type(),
        param_text(n, "jsCode"@) == Some(code),
        byte_len(code) >= 80,
        last_nonblank(lines(code)) == Some(t),
        has_prefix(t, "//"@),
        !is_divider(t),
        !has_suffix(t, "*/"@),
        !finished_text(comment_text(t)),
    ensures
        has_finding(truncated_code_findings(n), "code-truncated"@, Severity::Warning),
{
    assert(cut_comment(code) == Some(t));
    let a = unclosed_findings(n, code);
    let b = no_return_findings(n, code);
    let c = cut_comment_findings(n, code);
    let d = open_string_findings(n, code);
    assert(c[0].severity == Severity::Warning);
    lemma_has_finding_concat(a + b, c, "code-truncated"@, Severity::Warning);
    lemma_has_finding_concat(a + b + c, d, "code-truncated"@, Severity::Warning);
}

/// What `check_all` finds in a node: the forbidden `require()` findings, the
/// invalid node type finding, then the truncation findings.
pub open spec fn code_node_findings(n: Node) -> Seq<FindingView> {
    forbidden_require_findings(n) + invalid_node_type_findings(n) + truncated_code_findings(n)
}

/// The last byte before `pos` that is not ASCII white space.
pub fn find_prev_non_whitespace(bytes: &[u8], pos: usize) -> (r: Option<u8>)
    requires
        pos <= bytes@.len(),
    ensures
        r == prev_non_ws(bytes@, pos as int),
{
    let mut j = pos;
    while j > 0
        invariant
            j <= pos <= bytes@.len(),
            prev_non_ws(bytes@, pos as int) == prev_non_ws(bytes@, j as int),
        decreases j,
    {
        j -= 1;
        let c = bytes[j];
        if !(c == 0x20u8 || c == 0x09u8 || c == 0x0au8 || c == 0x0cu8 || c == 0x0du8) {
            return Some(c);
        }
    }
    None
}

/// The scan of `bytes` for braces, skipping strings and comments: the depth
/// at the end, and the greatest and least depths reached along the way.
fn depth_scan(bytes: &[u8]) -> (r: (i128, i128, i128, bool))
    requires
        bytes@.len() + 2 <= usize::MAX,
    ensures
        r.0 == depth_from(bytes@, 0),
        r.1 == max_depth_from(bytes@, 0),
        r.2 == min_depth_from(bytes@, 0),
        r.3 == ends_in_string_from(bytes@, 0),
{
    let len = bytes.len();
    let ghost b = bytes@;
    let mut depth: i128 = 0;
    let mut deepest: i128 = 0;
    let mut shallowest: i128 = 0;
    let mut open_string = false;
    let mut i: usize = 0;
    while i < len
        invariant
            b == bytes@,
            len == b.len(),
            len + 2 <= usize::MAX,
            i <= len + 2,
            -(i as int) <= shallowest <= depth <= deepest <= i,
            shallowest <= 0 <= deepest,
            depth + depth_from(b, i as int) == depth_from(b, 0),
            ends_in_string_from(b, 0) == (open_string || ends_in_string_from(b, i as int)),
            max_depth_from(b, 0) == if deepest >= depth + max_depth_from(b, i as int) {
                deepest as int
            } else {
                depth + max_depth_from(b, i as int)
            },
            min_depth_from(b, 0) == if shallowest <= depth + min_depth_from(b, i as int) {
                shallowest as int
            } else {
                depth + min_depth_from(b, i as int)
            },
        decreases len + 2 - i,
    {
        let ch = bytes[i];
        proof {
            lemma_scan_step_advances(b, i as int);
        }
        if ch == 0x2fu8 && i + 1 < len && bytes[i + 1] == 0x2fu8 {
            let mut k = i;
            while k < len && bytes[k] != 0x0au8
                invariant
                    i <= k <= len,
                    len == b.len(),
                    len + 2 <= usize::MAX,
                    b == bytes@,
                    line_end(b, i as int) == line_end(b, k as int),
                decreases len - k,
            {
                k += 1;
            }
            assert(line_end(b, i as int) == k);
            proof {
                lemma_skip_step(b, i as int);
                lemma_string_step(b, i as int);
            }
            i = k;
            continue;
        }
        if ch == 0x2fu8 && i + 1 < len && bytes[i + 1] == 0x2au8 {
            let mut k = i + 2;
            while k + 1 < len && !(bytes[k] == 0x2au8 && bytes[k + 1] == 0x2fu8)
                invariant
                    i + 2 <= k,
                    k <= len,
                    len == b.len(),
                    len + 2 <= usize::MAX,
                    b == bytes@,
                    block_close(b, i + 2) == block_close(b, k as int),
                decreases len - k,
            {
                k += 1;
            }
            assert(block_close(b, i + 2) == k);
            proof {
                lemma_skip_step(b, i as int);
                lemma_string_step(b, i as int);
            }
            assert(depth_from(b, i as int) == depth_from(b, k + 2));
            i = k + 2;
            continue;
        }
        if ch == 0x27u8 || ch == 0x22u8 || ch == 0x60u8 {
            let quote = ch;
            let mut k = i + 1;
            while k < len
                invariant
                    i + 1 <= k <= len + 1,
                    len == b.len(),
                    len + 2 <= usize::MAX,
                    b == bytes@,
                    quote_close(b, i + 1, quote) == quote_close(b, k as int, quote),
                    quote != 0x5cu8,
                ensures
                    i + 1 <= k <= len + 1,
                    quote_close(b, i + 1, quote) == k,
                decreases len + 1 - k,
            {
                if bytes[k] == 0x5cu8 {
                    k += 2;
                    continue;
                }
                if bytes[k] == quote {
                    break;
                }
                k += 1;
            }
            proof {
                lemma_skip_step(b, i as int);
            }
            if k >= len {
                open_string = true;
            } else {
                proof {
                    lemma_string_step(b, i as int);
                }
            }
            assert(depth_from(b, i as int) == depth_from(b, k + 1));
            i = k + 1;
            continue;
        }
        if ch == 0x2fu8 && i > 0 {
            let prev = find_prev_non_whitespace(bytes, i);
            if prev == Some(0x3du8) || prev == Some(0x28u8) || prev == Some(0x2cu8) || prev
                == Some(0x3bu8) || prev == Some(0x3au8) || prev == Some(0x21u8) || prev == Some(
                0x26u8,
            ) || prev == Some(0x7cu8) || prev == Some(0x7bu8) || prev == Some(0x7du8) || prev
                == Some(0x5bu8) {
                let mut k = i + 1;
                while k < len
                    invariant
                        i + 1 <= k <= len + 1,
                        len == b.len(),
                        len + 2 <= usize::MAX,
                        b == bytes@,
                        quote_close(b, i + 1, 0x2fu8) == quote_close(b, k as int, 0x2fu8),
                    ensures
                        i + 1 <= k <= len + 1,
                        quote_close(b, i + 1, 0x2fu8) == k,
                    decreases len + 1 - k,
                {
                    if bytes[k] == 0x5cu8 {
                        k += 2;
                        continue;
                    }
                    if bytes[k] == 0x2fu8 {
                        break;
                    }
                    k += 1;
                }
                assert(quote_close(b, i as int + 1, 0x2fu8) == k);
                k += 1;
                while k < len && ((0x41u8 <= bytes[k] && bytes[k] <= 0x5au8) || (0x61u8
                    <= bytes[k] && bytes[k] <= 0x7au8))
                    invariant
                        k <= len + 2,
                        len == b.len(),
                        len + 2 <= usize::MAX,
                        b == bytes@,
                        letters_end(b, quote_close(b, i + 1, 0x2fu8) + 1) == letters_end(
                            b,
                            k as int,
                        ),
                    decreases len + 2 - k,
                {
                    k += 1;
                }
                assert(letters_end(b, quote_close(b, i + 1, 0x2fu8) + 1) == k);
                proof {
                    lemma_skip_step(b, i as int);
                    lemma_string_step(b, i as int);
                }
                assert(depth_from(b, i as int) == depth_from(b, k as int));
                i = k;
                continue;
            }
        }
        proof {
            lemma_string_step(b, i as int);
        }
        if ch == 0x7bu8 {
            depth += 1;
        } else if ch == 0x7du8 {
            depth -= 1;
        }
        if depth > deepest {
            deepest = depth;
        }
        if depth < shallowest {
            shallowest = depth;
        }
        i += 1;
    }
    proof {
        lemma_depth_past_end(b, i as int);
    }
    (depth, deepest, shallowest, open_string)
}

/// The net number of unclosed braces in `code`, skipping strings and comments.
pub fn brace_depth(code: &str) -> (r: i32)
    requires
        depth_fits_i32(encode_utf8(code@)),
        encode_utf8(code@).len() + 2 <= usize::MAX,
    ensures
        r == brace_depth_of(code@),
        no_literal_chars(code@) ==> r == count_char(code@, '{') - count_char(code@, '}'),
{
    let (depth, _, _, _) = depth_scan(code.as_bytes());
    proof {
        lemma_depth_within(encode_utf8(code@), 0);
        if no_literal_chars(code@) {
            lemma_brace_depth_counts_braces(code@);
        }
    }
    depth as i32
}

/// Whether the JavaScript `code` ends inside a string literal that is never
/// closed, as the brace scan finds its strings.
pub fn ends_in_open_string(code: &str) -> (r: bool)
    requires
        encode_utf8(code@).len() + 2 <= usize::MAX,
    ensures
        r == ends_in_string(code@),
{
    let (_, _, _, open_string) = depth_scan(code.as_bytes());
    open_string
}

/// Forbidden module `i`, in list order.
fn forbidden_module(i: usize) -> (r: &'static str)
    requires
        i < 15,
    ensures
        r@ == forbidden_modules()[i as int],
{
    if i == 0 {
        "fs"
    } else if i == 1 {
        "child_process"
    } else if i == 2 {
        "path"
    } else if i == 3 {
        "http"
    } else if i == 4 {
        "https"
    } else if i == 5 {
        "os"
    } else if i == 6 {
        "net"
    } else if i == 7 {
        "crypto"
    } else if i == 8 {
        "stream"
    } else if i == 9 {
        "util"
    } else if i == 10 {
        "events"
    } else if i == 11 {
        "dns"
    } else if i == 12 {
        "tls"
    } else if i == 13 {
        "cluster"
    } else {
        "readline"
    }
}

/// `prefix + m + suffix`, as text.
fn wrap(prefix: &str, m: &str, suffix: &str) -> (r: Vec<char>)
    ensures
        r@ == prefix@ + m@ + suffix@,
{
    let mut p = String::from_str(prefix);
    p.append(m);
    p.append(suffix);
    chars_of(p.as_str())
}

/// Whether `code` requires module `m`.
fn requires_module_exec(code: &Vec<char>, m: &str) -> (r: bool)
    ensures
        r == requires_module(code@, m@),
{
    let p0 = wrap("require('", m, "')");
    let p1 = wrap("require(\"", m, "\")");
    let p2 = wrap("require('", m, "/");
    let p3 = wrap("require(\"", m, "/");
    let r = contains_chars(code, &p0) || contains_chars(code, &p1) || contains_chars(code, &p2)
        || contains_chars(code, &p3);
    proof {
        let ps = require_patterns(m@);
        assert(ps[0] == p0@ && ps[1] == p1@ && ps[2] == p2@ && ps[3] == p3@);
        if r {
            if contains(code@, p0@) {
                assert(contains(code@, ps[0]));
            } else if contains(code@, p1@) {
                assert(contains(code@, ps[1]));
            } else if contains(code@, p2@) {
                assert(contains(code@, ps[2]));
            } else {
                assert(contains(code@, ps[3]));
            }
        }
    }
    r
}

/// Check Code nodes for forbidden `require()` calls.
pub fn check_forbidden_require(node: &Node) -> (r: Vec<Finding>)
    ensures
        views(r@) == forbidden_require_findings(*node),
{
    let mut findings: Vec<Finding> = Vec::new();
    if !node.is_code() {
        assert(views(findings@) =~= Seq::<FindingView>::empty());
        return findings;
    }
    match node.param_str("jsCode") {
        Some(code) => {
            let cv = chars_of(code);
            let mut i: usize = 0;
            assert(views(findings@) =~= require_findings(
                *node,
                code@,
                forbidden_modules().subrange(0, 0),
            ));
            while i < 15
                invariant
                    i <= 15,
                    views(findings@) == require_findings(
                        *node,
                        cv@,
                        forbidden_modules().subrange(0, i as int),
                    ),
                decreases 15 - i,
            {
                let m = forbidden_module(i);
                let ghost mods = forbidden_modules().subrange(0, i + 1);
                assert(mods.drop_last() =~= forbidden_modules().subrange(0, i as int));
                if requires_module_exec(&cv, m) {
                    let mut msg = String::from_str("Code node uses require('");
                    msg.append(m);
                    msg.append("') which is blocked in n8n's sandbox");
                    let f = Finding::error("code-forbidden-require", msg.as_str()).with_node(
                        node.id_str(),
                        node.name_str(),
                    ).with_suggestion(
                        "Code nodes cannot import Node.js built-ins. Use readWriteFile for file ops, HTTP Request for network, SSH node for shell commands",
                    );
                    let ghost before = views(findings@);
                    findings.push(f);
                    assert(views(findings@) =~= before + seq![f@]);
                } else {
                    assert(views(findings@) =~= views(findings@) + Seq::<FindingView>::empty());
                }
                i += 1;
            }
            assert(forbidden_modules().subrange(0, 15) =~= forbidden_modules());
            findings
        },
        None => {
            assert(views(findings@) =~= Seq::<FindingView>::empty());
            findings
        },
    }
}

/// Check for node types that don't exist in Docker n8n.
pub fn check_invalid_node_type(node: &Node) -> (r: Vec<Finding>)
    ensures
        views(r@) == invalid_node_type_findings(*node),
{
    let mut findings: Vec<Finding> = Vec::new();
    if str_eq(node.type_str(), "n8n-nodes-base.executeCommand") {
        let f = Finding::error(
            "invalid-node-type",
            "executeCommand node does not exist in Docker n8n. Import will fail with 'Unrecognized node type'",
        ).with_node(node.id_str(), node.name_str()).with_suggestion(
            "Use SSH node (resource: command, operation: execute) or readWriteFile instead",
        );
        findings.push(f);
        assert(views(findings@) =~= seq![f@]);
    } else {
        assert(views(findings@) =~= Seq::<FindingView>::empty());
    }
    findings
}

/// Whether a trimmed line returns.
fn returns_exec(t: &Vec<char>) -> (r: bool)
    ensures
        r == (!has_prefix(t@, "//"@) && contains(t@, "return "@)),
{
    let slashes = chars_of("//");
    let ret = chars_of("return ");
    !occurs_at_exec(t, &slashes, 0) && contains_chars(t, &ret)
}

/// Whether every character of `t` after the first two is a divider character.
fn drawn_as_divider(t: &Vec<char>) -> (r: bool)
    ensures
        r == forall|j: int| 2 <= j < t@.len() ==> is_divider_char(#[trigger] t@[j]),
{
    let mut i: usize = 2;
    while i < t.len()
        invariant
            2 <= i,
            forall|j: int| 2 <= j < i && j < t@.len() ==> is_divider_char(#[trigger] t@[j]),
        decreases t.len() - i,
    {
        let c = t[i];
        if !(c == '=' || c == '-' || c == ' ' || c == '\u{2500}' || c == '\u{2550}') {
            return false;
        }
        i += 1;
    }
    true
}

/// Whether the trimmed last line `t`, whose UTF-8 encoding has `nbytes` bytes,
/// is a comment cut mid-sentence.
#[verifier::spinoff_prover]
fn cut_mid_comment_exec(t: &Vec<char>, nbytes: usize) -> (r: bool)
    requires
        nbytes == byte_len(t@),
    ensures
        r == cut_mid_comment(t@),
{
    let slashes = chars_of("//");
    let close = chars_of("*/");
    if !occurs_at_exec(t, &slashes, 0) {
        return false;
    }
    if nbytes > 10 && drawn_as_divider(t) {
        return false;
    }
    if t.len() >= close.len() && occurs_at_exec(t, &close, t.len() - close.len()) {
        return false;
    }
    let mut j: usize = 0;
    while j < t.len() && t[j] == '/'
        invariant
            j <= t.len(),
            forall|k: int| 0 <= k < j ==> t@[k] == '/',
        decreases t.len() - j,
    {
        j += 1;
    }
    proof {
        crate::text::lemma_trim_start_char_skip(t@, '/', j as int);
    }
    let (a, b) = trim_bounds(t, j, t.len());
    if a == b {
        return false;
    }
    let last = t[b - 1];
    proof {
        let text = t@.subrange(a as int, b as int);
        assert(text.last() == last);
    }
    last != '.' && last != ')' && last != '}' && last != ';'
}

/// Whether some line of the code `cv`, whose lines lie at `lb`, returns.
#[verifier::spinoff_prover]
fn any_line_returns(cv: &Vec<char>, lb: &Vec<(usize, usize)>) -> (r: bool)
    requires
        forall|k: int| 0 <= k < lb.len() ==> #[trigger] lb[k].0 <= lb[k].1 <= cv.len(),
        pieces(cv@, lb@) == lines(cv@),
    ensures
        r == has_return(cv@),
{
    let mut k: usize = 0;
    while k < lb.len()
        invariant
            k <= lb.len(),
            forall|j: int| 0 <= j < lb.len() ==> #[trigger] lb[j].0 <= lb[j].1 <= cv.len(),
            pieces(cv@, lb@) == lines(cv@),
            forall|j: int| 0 <= j < k ==> !returns_in_line(#[trigger] lines(cv@)[j]),
        decreases lb.len() - k,
    {
        let (lo, hi) = lb[k];
        assert(lb[k as int].0 <= lb[k as int].1 <= cv.len());
        let (a, b) = trim_bounds(cv, lo, hi);
        let t = sub_chars(cv, a, b);
        assert(lines(cv@)[k as int] == cv@.subrange(lo as int, hi as int));
        if returns_exec(&t) {
            assert(returns_in_line(lines(cv@)[k as int]));
            return true;
        }
        k += 1;
    }
    false
}

/// The bounds within `cv` of the trimmed last non-blank line, if there is one.
fn last_nonblank_bounds(cv: &Vec<char>, lb: &Vec<(usize, usize)>) -> (r: Option<(usize, usize)>)
    requires
        forall|k: int| 0 <= k < lb.len() ==> #[trigger] lb[k].0 <= lb[k].1 <= cv.len(),
        pieces(cv@, lb@) == lines(cv@),
    ensures
        match r {
            Some((a, b)) => a <= b <= cv.len() && last_nonblank(lines(cv@)) == Some(
                cv@.subrange(a as int, b as int),
            ),
            None => last_nonblank(lines(cv@)) is None,
        },
{
    let mut k: usize = lb.len();
    assert(lines(cv@).subrange(0, k as int) =~= lines(cv@));
    while k > 0
        invariant
            k <= lb.len(),
            forall|j: int| 0 <= j < lb.len() ==> #[trigger] lb[j].0 <= lb[j].1 <= cv.len(),
            pieces(cv@, lb@) == lines(cv@),
            last_nonblank(lines(cv@)) == last_nonblank(lines(cv@).subrange(0, k as int)),
        decreases k,
    {
        let (lo, hi) = lb[k - 1];
        assert(lb[k - 1].0 <= lb[k - 1].1 <= cv.len());
        let (a, b) = trim_bounds(cv, lo, hi);
        let ghost ls = lines(cv@).subrange(0, k as int);
        assert(ls.last() == cv@.subrange(lo as int, hi as int));
        assert(ls.drop_last() =~= lines(cv@).subrange(0, k - 1));
        if a < b {
            return Some((a, b));
        }
        k -= 1;
    }
    None
}

/// Detect truncated JavaScript in Code nodes.
///
/// Checks for unbalanced braces, missing `return` statements, and code that
/// ends mid-token (inside a comment or a string). A truncated Code node throws
/// a `SyntaxError` at runtime, silently killing the workflow path.
pub fn check_truncated_code(node: &Node) -> (r: Vec<Finding>)
    requires
        code_checkable(*node),
    ensures
        views(r@) == truncated_code_findings(*node),
{
    let mut findings: Vec<Finding> = Vec::new();
    if !node.is_code() {
        assert(views(findings@) =~= Seq::<FindingView>::empty());
        return findings;
    }
    let code = match node.param_str("jsCode") {
        Some(c) => c,
        None => {
            assert(views(findings@) =~= Seq::<FindingView>::empty());
            return findings;
        },
    };
    let len = code.len();
    if len < 80 {
        assert(views(findings@) =~= Seq::<FindingView>::empty());
        return findings;
    }
    let len_text = decimal_string(len as u64);

    let depth = brace_depth(code);
    let ghost f1: Seq<FindingView> = seq![];
    if depth > 0 {
        let mut msg = String::from_str("Code node appears truncated: ");
        let d = decimal_string(depth as u64);
        msg.append(d.as_str());
        msg.append(" unclosed brace(s) at end of code (");
        msg.append(len_text.as_str());
        msg.append(" chars). This will throw a SyntaxError at runtime.");
        let f = Finding::error("code-truncated", msg.as_str()).with_node(
            node.id_str(),
            node.name_str(),
        ).with_suggestion(
            "The jsCode was likely cut off during a workflow update. Compare against the working version or the source-of-truth and re-paste the full code.",
        );
        findings.push(f);
        proof {
            f1 = seq![f@];
        }
    }
    assert(views(findings@) =~= f1);
    assert(f1 == unclosed_findings(*node, code@));

    let cv = chars_of(code);
    let lb = line_bounds(&cv);
    let has_return = any_line_returns(&cv, &lb);
    let logic = str_contains(code, "for ") || str_contains(code, "if (") || str_contains(
        code,
        "const ",
    );
    let ghost f2: Seq<FindingView> = seq![];
    if logic && !has_return {
        let mut msg = String::from_str("Code node has logic but no return statement (");
        msg.append(len_text.as_str());
        msg.append(" chars). Likely truncated or incomplete.");
        let f = Finding::error("code-truncated", msg.as_str()).with_node(
            node.id_str(),
            node.name_str(),
        ).with_suggestion(
            "n8n Code nodes must return an array of items. Ensure the code ends with `return [{ json: ... }]`.",
        );
        findings.push(f);
        proof {
            f2 = seq![f@];
        }
    }
    assert(views(findings@) =~= f1 + f2);
    assert(f2 == no_return_findings(*node, code@));

    let ghost f3: Seq<FindingView> = seq![];
    match last_nonblank_bounds(&cv, &lb) {
        Some((a, b)) => {
            let t = sub_chars(&cv, a, b);
            let t_str = code.substring_char(a, b);
            proof {
                lemma_byte_len_subrange(code@, a as int, b as int);
            }
            let nbytes = t_str.len();
            assert(t_str@ == t@);
            if cut_mid_comment_exec(&t, nbytes) {
                assert(cut_comment(code@) == Some(t@));
                let mut msg = String::from_str("Code node ends inside a comment: \"");
                if nbytes > 60 {
                    let ghost tb = encode_utf8(t@);
                    proof {
                        vstd::utf8::encode_utf8_valid_utf8(t@);
                    }
                    let mut cut: usize = 57;
                    while !t_str.is_char_boundary(cut)
                        invariant
                            0 <= cut <= 57,
                            tb == encode_utf8(t_str@),
                            vstd::utf8::valid_utf8(tb),
                            floor_boundary(tb, 57) == floor_boundary(tb, cut as int),
                        decreases cut,
                    {
                        cut -= 1;
                    }
                    let (head, _) = t_str.split_at(cut);
                    proof {
                        vstd::utf8::encode_utf8_decode_utf8(head@);
                    }
                    msg.append(head);
                    msg.append("...");
                } else {
                    msg.append(t_str);
                }
                msg.append("\" \u{2014} may be truncated");
                assert(msg@ == "Code node ends inside a comment: \""@ + comment_preview(t@)
                    + "\" \u{2014} may be truncated"@);
                let f = Finding::warning("code-truncated", msg.as_str()).with_node(
                    node.id_str(),
                    node.name_str(),
                ).with_suggestion(
                    "Code appears to end mid-comment. Verify the full jsCode was saved during the last workflow update.",
                );
                findings.push(f);
                proof {
                    f3 = seq![f@];
                }
                assert(f3 == cut_comment_findings(*node, code@));
            } else {
                assert(cut_comment(code@) is None);
            }
        },
        None => {},
    }
    assert(f3 == cut_comment_findings(*node, code@));
    assert(views(findings@) =~= f1 + f2 + f3);

    let ghost f4: Seq<FindingView> = seq![];
    if ends_in_open_string(code) {
        let mut msg = String::from_str("Code node ends inside an unterminated string literal (");
        msg.append(len_text.as_str());
        msg.append(" chars). This will throw a SyntaxError at runtime.");
        let f = Finding::error("code-truncated", msg.as_str()).with_node(
            node.id_str(),
            node.name_str(),
        ).with_suggestion(
            "The jsCode was likely cut off during a workflow update. Compare against the working version or the source-of-truth and re-paste the full code.",
        );
        findings.push(f);
        proof {
            f4 = seq![f@];
        }
    }
    assert(f4 == open_string_findings(*node, code@));
    assert(views(findings@) =~= f1 + f2 + f3 + f4);
    findings
}

/// Whether the Code node rules can be run on `node` without a panic (see
/// `code_checkable`).
pub fn is_code_checkable(node: &Node) -> (r: bool)
    ensures
        r == code_checkable(*node),
{
    let code = match node.param_str("jsCode") {
        Some(c) => c,
        None => return true,
    };
    if !node.is_code() {
        return true;
    }
    let code_bytes = code.as_bytes();
    if code_bytes.len() < 80 {
        return true;
    }
    if code_bytes.len() > usize::MAX - 2 {
        return false;
    }
    let (_, deepest, shallowest, _) = depth_scan(code_bytes);
    deepest <= 2147483647 && shallowest >= -2147483648
}

/// Run all code node rules.
pub fn check_all(node: &Node) -> (r: Vec<Finding>)
    requires
        code_checkable(*node),
    ensures
        views(r@) == code_node_findings(*node),
{
    let mut findings = check_forbidden_require(node);
    let mut more = check_invalid_node_type(node);
    findings.append(&mut more);
    let mut more = check_truncated_code(node);
    findings.append(&mut more);
    assert(views(findings@) =~= code_node_findings(*node));
    findings
}

} // verus!
