//! The JSON renderer and the result-model parser: a test run serializes to a
//! JSON object with `passed` and `failed` arrays, and deserializes from the
//! same shape; the two are inverses, field for field.

use vstd::prelude::*;
use vstd::string::*;

use crate::diffing::join_with;
use crate::model::FailedTest;
use crate::model::FailedTestView;
use crate::model::PassedTest;
use crate::model::TestResult;
use crate::model::TestResultView;
use crate::textutil::chars_of;
use crate::textutil::digit_char;
use crate::textutil::push_char;

verus! {

/// The character for one hexadecimal digit, lower case.
pub open spec fn hex_digit(d: nat) -> char
    recommends
        d < 16,
{
    if d < 10 {
        digit_char(d)
    } else {
        ((87 + d) as u8) as char
    }
}

/// How one character appears inside a JSON string literal: quote and backslash
/// are escaped with a backslash, control characters as a four-digit
/// hexadecimal escape, every other character as itself.
pub open spec fn escape_char(c: char) -> Seq<char> {
    if c == '"' {
        seq!['\\', '"']
    } else if c == '\\' {
        seq!['\\', '\\']
    } else if (c as u32) < 32 {
        seq!['\\', 'u', '0', '0', hex_digit(((c as u32) / 16) as nat), hex_digit(
            ((c as u32) % 16) as nat,
        )]
    } else {
        seq![c]
    }
}

/// A text with every character escaped for a JSON string literal.
pub open spec fn escape_str(s: Seq<char>) -> Seq<char>
    decreases s.len(),
{
    if s.len() == 0 {
        Seq::empty()
    } else {
        escape_char(s[0]) + escape_str(s.skip(1))
    }
}

/// A JSON string literal: the escaped text between double quotes.
pub open spec fn jstring_of(s: Seq<char>) -> Seq<char> {
    seq!['"'] + escape_str(s) + seq!['"']
}

/// A JSON array holding the given already-rendered elements.
pub open spec fn json_array(items: Seq<Seq<char>>) -> Seq<char> {
    seq!['['] + join_with(items, seq![',']) + seq![']']
}

/// The JSON object for one passed test.
pub open spec fn passed_json(name: Seq<char>) -> Seq<char> {
    seq!['{'] + jstring_of("passedTest"@) + seq![':'] + jstring_of(name) + seq!['}']
}

/// The JSON object for one failed test.
pub open spec fn failed_json(f: FailedTestView) -> Seq<char> {
    seq!['{'] + jstring_of("expected"@) + seq![':'] + jstring_of(f.expected) + seq![',']
        + jstring_of("failedTest"@) + seq![':'] + jstring_of(f.failed_test) + seq![','] + jstring_of(
        "result"@,
    ) + seq![':'] + jstring_of(f.result) + seq!['}']
}

/// The JSON rendering of a test run: an object with the `passed` array and the
/// `failed` array, in that order, with no added whitespace.
pub open spec fn json_of(v: TestResultView) -> Seq<char> {
    seq!['{'] + jstring_of("passed"@) + seq![':'] + json_array(
        v.passed.map_values(|n: Seq<char>| passed_json(n)),
    ) + seq![','] + jstring_of("failed"@) + seq![':'] + json_array(
        v.failed.map_values(|f: FailedTestView| failed_json(f)),
    ) + seq!['}']
}

/// A JSON whitespace character.
pub open spec fn is_ws(c: char) -> bool {
    c == ' ' || c == '\t' || c == '\n' || c == '\r'
}

/// The suffix of `s` after its leading whitespace.
pub open spec fn skip_ws(s: Seq<char>) -> Seq<char>
    decreases s.len(),
{
    if s.len() > 0 && is_ws(s[0]) {
        skip_ws(s.skip(1))
    } else {
        s
    }
}

/// A hexadecimal digit, either case.
pub open spec fn is_hex_char(c: char) -> bool {
    (48 <= c as u32 && c as u32 <= 57) || (97 <= c as u32 && c as u32 <= 102) || (65 <= c as u32
        && c as u32 <= 70)
}

/// The value of a hexadecimal digit.
pub open spec fn hex_val(c: char) -> nat
    recommends
        is_hex_char(c),
{
    if 48 <= c as u32 && c as u32 <= 57 {
        (c as u32 - 48) as nat
    } else if 97 <= c as u32 && c as u32 <= 102 {
        (c as u32 - 87) as nat
    } else {
        (c as u32 - 55) as nat
    }
}

/// A unicode scalar value: a code point that is not a surrogate.
pub open spec fn is_scalar_code(n: nat) -> bool {
    n < 0xD800 || (0xE000 <= n && n <= 0x10FFFF)
}

/// The character with the given code point.
pub open spec fn char_of_code(n: nat) -> char {
    (n as u32) as char
}

/// What a short escape after a backslash stands for, if it is one.
pub open spec fn short_escape(c: char) -> Option<char> {
    if c == '"' {
        Some('"')
    } else if c == '\\' {
        Some('\\')
    } else if c == '/' {
        Some('/')
    } else if c == 'b' {
        Some('\u{0008}')
    } else if c == 'f' {
        Some('\u{000C}')
    } else if c == 'n' {
        Some('\n')
    } else if c == 'r' {
        Some('\r')
    } else if c == 't' {
        Some('\t')
    } else {
        None
    }
}

/// Parses the four hexadecimal digits of a unicode escape, standing right
/// after the backslash and the `u`: the character and the suffix after the
/// digits. A high surrogate must be followed by a second escape holding a
/// low surrogate; the pair decodes to one character. A lone surrogate is
/// malformed.
pub open spec fn parse_unicode_escape(s: Seq<char>) -> Option<(char, Seq<char>)> {
    if s.len() >= 4 && is_hex_char(s[0]) && is_hex_char(s[1]) && is_hex_char(s[2]) && is_hex_char(
        s[3],
    ) {
        let code = hex_val(s[0]) * 4096 + hex_val(s[1]) * 256 + hex_val(s[2]) * 16 + hex_val(s[3]);
        if code < 0xD800 || code >= 0xE000 {
            Some((char_of_code(code), s.skip(4)))
        } else if code < 0xDC00 {
            if s.len() >= 10 && s[4] == '\\' && s[5] == 'u' && is_hex_char(s[6]) && is_hex_char(
                s[7],
            ) && is_hex_char(s[8]) && is_hex_char(s[9]) {
                let low = hex_val(s[6]) * 4096 + hex_val(s[7]) * 256 + hex_val(s[8]) * 16
                    + hex_val(s[9]);
                if 0xDC00 <= low < 0xE000 {
                    Some((char_of_code((0x10000 + (code - 0xD800) * 0x400 + (low - 0xDC00)) as nat), s.skip(10)))
                } else {
                    None
                }
            } else {
                None
            }
        } else {
            None
        }
    } else {
        None
    }
}

/// Parses the inside of a JSON string literal, after the opening quote: the
/// decoded text and the suffix after the closing quote. Unescaped control
/// characters, bad escapes and lone surrogate code points are malformed.
pub open spec fn parse_string_body(s: Seq<char>) -> Option<(Seq<char>, Seq<char>)>
    decreases s.len(),
{
    if s.len() == 0 {
        None
    } else if s[0] == '"' {
        Some((Seq::empty(), s.skip(1)))
    } else if s[0] == '\\' {
        if s.len() < 2 {
            None
        } else if s[1] == 'u' {
            match parse_unicode_escape(s.skip(2)) {
                Some(p) => if p.1.len() < s.len() {
                    match parse_string_body(p.1) {
                        Some(q) => Some((seq![p.0] + q.0, q.1)),
                        None => None,
                    }
                } else {
                    None
                },
                None => None,
            }
        } else {
            match short_escape(s[1]) {
                Some(c) => match parse_string_body(s.skip(2)) {
                    Some(p) => Some((seq![c] + p.0, p.1)),
                    None => None,
                },
                None => None,
            }
        }
    } else if (s[0] as u32) < 32 {
        None
    } else {
        match parse_string_body(s.skip(1)) {
            Some(p) => Some((seq![s[0]] + p.0, p.1)),
            None => None,
        }
    }
}

/// Parses a JSON string literal: the decoded text and the suffix after it.
pub open spec fn parse_string(s: Seq<char>) -> Option<(Seq<char>, Seq<char>)> {
    if s.len() > 0 && s[0] == '"' {
        parse_string_body(s.skip(1))
    } else {
        None
    }
}

/// A decimal digit.
pub open spec fn is_digit(c: char) -> bool {
    48 <= c as u32 && c as u32 <= 57
}

/// The nesting depth the value skipper follows inside an ignored value:
/// payloads nested deeper are rejected as malformed rather than followed
/// without bound.
pub const SKIP_DEPTH_LIMIT: u32 = 128;

/// The suffix of `s` after its leading decimal digits.
pub open spec fn skip_digits(s: Seq<char>) -> Seq<char>
    decreases s.len(),
{
    if s.len() > 0 && is_digit(s[0]) {
        skip_digits(s.skip(1))
    } else {
        s
    }
}

/// Parses the optional fraction of a JSON number: a dot followed by at least
/// one digit, or nothing consumed.
pub open spec fn parse_number_fraction(s: Seq<char>) -> Option<Seq<char>> {
    if s.len() > 0 && s[0] == '.' {
        if s.len() >= 2 && is_digit(s[1]) {
            Some(skip_digits(s.skip(1)))
        } else {
            None
        }
    } else {
        Some(s)
    }
}

/// Parses the optional exponent of a JSON number: `e` or `E`, an optional
/// sign, and at least one digit, or nothing consumed.
pub open spec fn parse_number_exponent(s: Seq<char>) -> Option<Seq<char>> {
    if s.len() > 0 && (s[0] == 'e' || s[0] == 'E') {
        let t = if s.len() >= 2 && (s[1] == '+' || s[1] == '-') {
            s.skip(2)
        } else {
            s.skip(1)
        };
        if t.len() > 0 && is_digit(t[0]) {
            Some(skip_digits(t))
        } else {
            None
        }
    } else {
        Some(s)
    }
}

/// Parses one JSON number token standing at the head of `s`: an optional
/// minus sign, an integer part that is a single zero or starts with a
/// nonzero digit, then an optional fraction and an optional exponent. The
/// suffix after the token, or nothing where the number grammar is violated.
pub open spec fn parse_number(s: Seq<char>) -> Option<Seq<char>> {
    let t = if s.len() > 0 && s[0] == '-' {
        s.skip(1)
    } else {
        s
    };
    if t.len() > 0 && is_digit(t[0]) {
        let u = if t[0] == '0' {
            t.skip(1)
        } else {
            skip_digits(t)
        };
        match parse_number_fraction(u) {
            Some(w) => parse_number_exponent(w),
            None => None,
        }
    } else {
        None
    }
}

/// Skips one JSON value standing at the head of `s` (no leading whitespace):
/// the suffix after it, or nothing if no well-formed value starts here.
/// Objects and arrays are followed only `depth` levels down.
pub open spec fn skip_value(s: Seq<char>, depth: u32) -> Option<Seq<char>>
    decreases s.len(), 0int,
{
    if s.len() == 0 {
        None
    } else if s[0] == '"' {
        match parse_string_body(s.skip(1)) {
            Some(p) => Some(p.1),
            None => None,
        }
    } else if s[0] == '{' {
        if depth == 0 {
            None
        } else {
            skip_members(s.skip(1), true, (depth - 1) as u32)
        }
    } else if s[0] == '[' {
        if depth == 0 {
            None
        } else {
            skip_elements(s.skip(1), true, (depth - 1) as u32)
        }
    } else if s[0] == 't' {
        if s.len() >= 4 && s[1] == 'r' && s[2] == 'u' && s[3] == 'e' {
            Some(s.skip(4))
        } else {
            None
        }
    } else if s[0] == 'f' {
        if s.len() >= 5 && s[1] == 'a' && s[2] == 'l' && s[3] == 's' && s[4] == 'e' {
            Some(s.skip(5))
        } else {
            None
        }
    } else if s[0] == 'n' {
        if s.len() >= 4 && s[1] == 'u' && s[2] == 'l' && s[3] == 'l' {
            Some(s.skip(4))
        } else {
            None
        }
    } else if s[0] == '-' || is_digit(s[0]) {
        parse_number(s)
    } else {
        None
    }
}

/// Skips the members of an object after its opening brace (or after a comma,
/// when `first` is false): the suffix after the closing brace.
pub open spec fn skip_members(s: Seq<char>, first: bool, depth: u32) -> Option<Seq<char>>
    decreases s.len(), 1int,
{
    let t = skip_ws(s);
    if t.len() == 0 {
        None
    } else if first && t[0] == '}' {
        Some(t.skip(1))
    } else if t[0] == '"' {
        match parse_string_body(t.skip(1)) {
            Some(p) => {
                let u = skip_ws(p.1);
                if u.len() > 0 && u[0] == ':' {
                    let w = skip_ws(u.skip(1));
                    if w.len() <= s.len() {
                        match skip_value(w, depth) {
                            Some(rest) => {
                                let z = skip_ws(rest);
                                if z.len() == 0 {
                                    None
                                } else if z[0] == '}' {
                                    Some(z.skip(1))
                                } else if z[0] == ',' && z.skip(1).len() < s.len() {
                                    skip_members(z.skip(1), false, depth)
                                } else {
                                    None
                                }
                            },
                            None => None,
                        }
                    } else {
                        None
                    }
                } else {
                    None
                }
            },
            None => None,
        }
    } else {
        None
    }
}

/// Skips the elements of an array after its opening bracket (or after a comma,
/// when `first` is false): the suffix after the closing bracket.
pub open spec fn skip_elements(s: Seq<char>, first: bool, depth: u32) -> Option<Seq<char>>
    decreases s.len(), 1int,
{
    let t = skip_ws(s);
    if t.len() == 0 {
        None
    } else if first && t[0] == ']' {
        Some(t.skip(1))
    } else if t.len() <= s.len() {
        match skip_value(t, depth) {
            Some(rest) => {
                let z = skip_ws(rest);
                if z.len() == 0 {
                    None
                } else if z[0] == ']' {
                    Some(z.skip(1))
                } else if z[0] == ',' && z.skip(1).len() < s.len() {
                    skip_elements(z.skip(1), false, depth)
                } else {
                    None
                }
            },
            None => None,
        }
    } else {
        None
    }
}

/// Parses the members of one passed-test object after its opening brace:
/// the test name and the suffix after the closing brace. The `passedTest`
/// field is required and may not repeat; unknown members are ignored.
pub open spec fn parse_passed_members(s: Seq<char>, first: bool, acc: Option<Seq<char>>) -> Option<
    (Seq<char>, Seq<char>),
>
    decreases s.len(),
{
    let t = skip_ws(s);
    if t.len() == 0 {
        None
    } else if first && t[0] == '}' {
        match acc {
            Some(name) => Some((name, t.skip(1))),
            None => None,
        }
    } else if t[0] == '"' {
        match parse_string_body(t.skip(1)) {
            Some(p) => {
                let u = skip_ws(p.1);
                if u.len() > 0 && u[0] == ':' {
                    let w = skip_ws(u.skip(1));
                    if p.0 == "passedTest"@ {
                        if acc is Some {
                            None
                        } else {
                            match parse_string(w) {
                                Some(q) => {
                                    let z = skip_ws(q.1);
                                    if z.len() == 0 {
                                        None
                                    } else if z[0] == '}' {
                                        Some((q.0, z.skip(1)))
                                    } else if z[0] == ',' && z.skip(1).len() < s.len() {
                                        parse_passed_members(z.skip(1), false, Some(q.0))
                                    } else {
                                        None
                                    }
                                },
                                None => None,
                            }
                        }
                    } else {
                        match skip_value(w, SKIP_DEPTH_LIMIT) {
                            Some(rest) => {
                                let z = skip_ws(rest);
                                if z.len() == 0 {
                                    None
                                } else if z[0] == '}' {
                                    match acc {
                                        Some(name) => Some((name, z.skip(1))),
                                        None => None,
                                    }
                                } else if z[0] == ',' && z.skip(1).len() < s.len() {
                                    parse_passed_members(z.skip(1), false, acc)
                                } else {
                                    None
                                }
                            },
                            None => None,
                        }
                    }
                } else {
                    None
                }
            },
            None => None,
        }
    } else {
        None
    }
}

/// Parses one passed-test object: the test name and the suffix after it.
pub open spec fn parse_passed(s: Seq<char>) -> Option<(Seq<char>, Seq<char>)> {
    if s.len() > 0 && s[0] == '{' {
        parse_passed_members(s.skip(1), true, None)
    } else {
        None
    }
}

/// Parses the members of one failed-test object after its opening brace: the
/// record and the suffix after the closing brace. The `expected`, `failedTest`
/// and `result` fields are all required and may not repeat; unknown members
/// are ignored.
pub open spec fn parse_failed_members(
    s: Seq<char>,
    first: bool,
    exp: Option<Seq<char>>,
    name: Option<Seq<char>>,
    res: Option<Seq<char>>,
) -> Option<(FailedTestView, Seq<char>)>
    decreases s.len(),
{
    let t = skip_ws(s);
    if t.len() == 0 {
        None
    } else if first && t[0] == '}' {
        finish_failed(exp, name, res, t.skip(1))
    } else if t[0] == '"' {
        match parse_string_body(t.skip(1)) {
            Some(p) => {
                let u = skip_ws(p.1);
                if u.len() > 0 && u[0] == ':' {
                    let w = skip_ws(u.skip(1));
                    if p.0 == "expected"@ || p.0 == "failedTest"@ || p.0 == "result"@ {
                        if (p.0 == "expected"@ && exp is Some) || (p.0 == "failedTest"@
                            && name is Some) || (p.0 == "result"@ && res is Some) {
                            None
                        } else {
                            match parse_string(w) {
                                Some(q) => {
                                    let exp2 = if p.0 == "expected"@ {
                                        Some(q.0)
                                    } else {
                                        exp
                                    };
                                    let name2 = if p.0 == "failedTest"@ {
                                        Some(q.0)
                                    } else {
                                        name
                                    };
                                    let res2 = if p.0 == "result"@ {
                                        Some(q.0)
                                    } else {
                                        res
                                    };
                                    let z = skip_ws(q.1);
                                    if z.len() == 0 {
                                        None
                                    } else if z[0] == '}' {
                                        finish_failed(exp2, name2, res2, z.skip(1))
                                    } else if z[0] == ',' && z.skip(1).len() < s.len() {
                                        parse_failed_members(z.skip(1), false, exp2, name2, res2)
                                    } else {
                                        None
                                    }
                                },
                                None => None,
                            }
                        }
                    } else {
                        match skip_value(w, SKIP_DEPTH_LIMIT) {
                            Some(rest) => {
                                let z = skip_ws(rest);
                                if z.len() == 0 {
                                    None
                                } else if z[0] == '}' {
                                    finish_failed(exp, name, res, z.skip(1))
                                } else if z[0] == ',' && z.skip(1).len() < s.len() {
                                    parse_failed_members(z.skip(1), false, exp, name, res)
                                } else {
                                    None
                                }
                            },
                            None => None,
                        }
                    }
                } else {
                    None
                }
            },
            None => None,
        }
    } else {
        None
    }
}

/// A failed-test record from its three parsed fields, if all are present.
pub open spec fn finish_failed(
    exp: Option<Seq<char>>,
    name: Option<Seq<char>>,
    res: Option<Seq<char>>,
    rest: Seq<char>,
) -> Option<(FailedTestView, Seq<char>)> {
    match (exp, name, res) {
        (Some(e), Some(n), Some(r)) => Some(
            (FailedTestView { expected: e, failed_test: n, result: r }, rest),
        ),
        _ => None,
    }
}

/// Parses one failed-test object: the record and the suffix after it.
pub open spec fn parse_failed(s: Seq<char>) -> Option<(FailedTestView, Seq<char>)> {
    if s.len() > 0 && s[0] == '{' {
        parse_failed_members(s.skip(1), true, None, None, None)
    } else {
        None
    }
}

/// Parses the elements of the `passed` array after its opening bracket: the
/// passed-test names in order and the suffix after the closing bracket.
pub open spec fn parse_passed_items(s: Seq<char>, first: bool, acc: Seq<Seq<char>>) -> Option<
    (Seq<Seq<char>>, Seq<char>),
>
    decreases s.len(),
{
    let t = skip_ws(s);
    if t.len() == 0 {
        None
    } else if first && t[0] == ']' {
        Some((acc, t.skip(1)))
    } else {
        match parse_passed(t) {
            Some(p) => {
                let z = skip_ws(p.1);
                if z.len() == 0 {
                    None
                } else if z[0] == ']' {
                    Some((acc.push(p.0), z.skip(1)))
                } else if z[0] == ',' && z.skip(1).len() < s.len() {
                    parse_passed_items(z.skip(1), false, acc.push(p.0))
                } else {
                    None
                }
            },
            None => None,
        }
    }
}

/// Parses the `passed` array: the names in order and the suffix after it.
pub open spec fn parse_passed_array(s: Seq<char>) -> Option<(Seq<Seq<char>>, Seq<char>)> {
    if s.len() > 0 && s[0] == '[' {
        parse_passed_items(s.skip(1), true, Seq::empty())
    } else {
        None
    }
}

/// Parses the elements of the `failed` array after its opening bracket: the
/// failed-test records in order and the suffix after the closing bracket.
pub open spec fn parse_failed_items(s: Seq<char>, first: bool, acc: Seq<FailedTestView>) -> Option<
    (Seq<FailedTestView>, Seq<char>),
>
    decreases s.len(),
{
    let t = skip_ws(s);
    if t.len() == 0 {
        None
    } else if first && t[0] == ']' {
        Some((acc, t.skip(1)))
    } else {
        match parse_failed(t) {
            Some(p) => {
                let z = skip_ws(p.1);
                if z.len() == 0 {
                    None
                } else if z[0] == ']' {
                    Some((acc.push(p.0), z.skip(1)))
                } else if z[0] == ',' && z.skip(1).len() < s.len() {
                    parse_failed_items(z.skip(1), false, acc.push(p.0))
                } else {
                    None
                }
            },
            None => None,
        }
    }
}

/// Parses the `failed` array: the records in order and the suffix after it.
pub open spec fn parse_failed_array(s: Seq<char>) -> Option<(Seq<FailedTestView>, Seq<char>)> {
    if s.len() > 0 && s[0] == '[' {
        parse_failed_items(s.skip(1), true, Seq::empty())
    } else {
        None
    }
}

/// Parses the members of the top-level object after its opening brace: the
/// test run and the suffix after the closing brace. The `passed` and `failed`
/// arrays are both required and may not repeat; unknown members are ignored.
pub open spec fn parse_top_members(
    s: Seq<char>,
    first: bool,
    pacc: Option<Seq<Seq<char>>>,
    facc: Option<Seq<FailedTestView>>,
) -> Option<(TestResultView, Seq<char>)>
    decreases s.len(),
{
    let t = skip_ws(s);
    if t.len() == 0 {
        None
    } else if first && t[0] == '}' {
        finish_top(pacc, facc, t.skip(1))
    } else if t[0] == '"' {
        match parse_string_body(t.skip(1)) {
            Some(p) => {
                let u = skip_ws(p.1);
                if u.len() > 0 && u[0] == ':' {
                    let w = skip_ws(u.skip(1));
                    if p.0 == "passed"@ {
                        if pacc is Some {
                            None
                        } else {
                            match parse_passed_array(w) {
                                Some(q) => {
                                    let z = skip_ws(q.1);
                                    if z.len() == 0 {
                                        None
                                    } else if z[0] == '}' {
                                        finish_top(Some(q.0), facc, z.skip(1))
                                    } else if z[0] == ',' && z.skip(1).len() < s.len() {
                                        parse_top_members(z.skip(1), false, Some(q.0), facc)
                                    } else {
                                        None
                                    }
                                },
                                None => None,
                            }
                        }
                    } else if p.0 == "failed"@ {
                        if facc is Some {
                            None
                        } else {
                            match parse_failed_array(w) {
                                Some(q) => {
                                    let z = skip_ws(q.1);
                                    if z.len() == 0 {
                                        None
                                    } else if z[0] == '}' {
                                        finish_top(pacc, Some(q.0), z.skip(1))
                                    } else if z[0] == ',' && z.skip(1).len() < s.len() {
                                        parse_top_members(z.skip(1), false, pacc, Some(q.0))
                                    } else {
                                        None
                                    }
                                },
                                None => None,
                            }
                        }
                    } else {
                        match skip_value(w, SKIP_DEPTH_LIMIT) {
                            Some(rest) => {
                                let z = skip_ws(rest);
                                if z.len() == 0 {
                                    None
                                } else if z[0] == '}' {
                                    finish_top(pacc, facc, z.skip(1))
                                } else if z[0] == ',' && z.skip(1).len() < s.len() {
                                    parse_top_members(z.skip(1), false, pacc, facc)
                                } else {
                                    None
                                }
                            },
                            None => None,
                        }
                    }
                } else {
                    None
                }
            },
            None => None,
        }
    } else {
        None
    }
}

/// A test run from its two parsed arrays, if both are present.
pub open spec fn finish_top(
    pacc: Option<Seq<Seq<char>>>,
    facc: Option<Seq<FailedTestView>>,
    rest: Seq<char>,
) -> Option<(TestResultView, Seq<char>)> {
    match (pacc, facc) {
        (Some(p), Some(f)) => Some((TestResultView { passed: p, failed: f }, rest)),
        _ => None,
    }
}

/// Parses a complete payload: one top-level object with the `passed` and
/// `failed` arrays, with nothing but whitespace after it.
pub open spec fn parse_top(s: Seq<char>) -> Option<TestResultView> {
    let t = skip_ws(s);
    if t.len() > 0 && t[0] == '{' {
        match parse_top_members(t.skip(1), true, None, None) {
            Some(p) => if skip_ws(p.1).len() == 0 {
                Some(p.0)
            } else {
                None
            },
            None => None,
        }
    } else {
        None
    }
}

fn hex_digit_exec(d: u8) -> (r: char)
    requires
        d < 16,
    ensures
        r == hex_digit(d as nat),
{
    if d < 10 {
        (48 + d) as char
    } else {
        (87 + d) as char
    }
}

proof fn lemma_escape_snoc(s: Seq<char>, c: char)
    ensures
        escape_str(s.push(c)) == escape_str(s) + escape_char(c),
    decreases s.len(),
{
    if s.len() == 0 {
        assert(s.push(c)[0] == c);
        assert(s.push(c).skip(1) =~= Seq::<char>::empty());
        assert(escape_str(s.push(c)) == escape_char(c) + escape_str(Seq::<char>::empty()));
        assert(escape_char(c) + Seq::<char>::empty() =~= escape_char(c));
        assert(escape_str(s) + escape_char(c) =~= escape_char(c));
    } else {
        assert(s.push(c)[0] == s[0]);
        assert(s.push(c).skip(1) =~= s.skip(1).push(c));
        lemma_escape_snoc(s.skip(1), c);
        assert(escape_str(s.push(c)) =~= escape_str(s) + escape_char(c));
    }
}

/// Appends the escaped form of `s` to `out`.
fn push_escaped(out: &mut String, s: &str)
    ensures
        final(out)@ == old(out)@ + escape_str(s@),
{
    let cs = chars_of(s);
    let mut i: usize = 0;
    proof {
        assert(cs@.take(0) =~= Seq::<char>::empty());
        assert(old(out)@ + escape_str(Seq::<char>::empty()) =~= old(out)@);
    }
    while i < cs.len()
        invariant
            i <= cs@.len(),
            cs@ == s@,
            out@ == old(out)@ + escape_str(cs@.take(i as int)),
        decreases cs@.len() - i,
    {
        let c = cs[i];
        if c == '"' {
            push_char(out, '\\');
            push_char(out, '"');
        } else if c == '\\' {
            push_char(out, '\\');
            push_char(out, '\\');
        } else if (c as u32) < 32 {
            let code = c as u32;
            push_char(out, '\\');
            push_char(out, 'u');
            push_char(out, '0');
            push_char(out, '0');
            push_char(out, hex_digit_exec((code / 16) as u8));
            push_char(out, hex_digit_exec((code % 16) as u8));
        } else {
            push_char(out, c);
        }
        proof {
            lemma_escape_snoc(cs@.take(i as int), cs@[i as int]);
            assert(cs@.take(i + 1 as int) =~= cs@.take(i as int).push(cs@[i as int]));
            assert(out@ =~= old(out)@ + escape_str(cs@.take(i + 1 as int)));
        }
        i = i + 1;
    }
    proof {
        assert(cs@.take(cs@.len() as int) =~= cs@);
    }
}

/// Appends the JSON string literal for `s` to `out`.
fn push_jstring(out: &mut String, s: &str)
    ensures
        final(out)@ == old(out)@ + jstring_of(s@),
{
    push_char(out, '"');
    push_escaped(out, s);
    push_char(out, '"');
    proof {
        assert(out@ =~= old(out)@ + jstring_of(s@));
    }
}

fn push_passed_obj(out: &mut String, name: &str)
    ensures
        final(out)@ == old(out)@ + passed_json(name@),
{
    push_char(out, '{');
    push_jstring(out, "passedTest");
    push_char(out, ':');
    push_jstring(out, name);
    push_char(out, '}');
    proof {
        assert(out@ =~= old(out)@ + passed_json(name@));
    }
}

fn push_failed_obj(out: &mut String, f: &FailedTest)
    ensures
        final(out)@ == old(out)@ + failed_json(f@),
{
    push_char(out, '{');
    push_jstring(out, "expected");
    push_char(out, ':');
    push_jstring(out, f.expected.as_str());
    push_char(out, ',');
    push_jstring(out, "failedTest");
    push_char(out, ':');
    push_jstring(out, f.failed_test.as_str());
    push_char(out, ',');
    push_jstring(out, "result");
    push_char(out, ':');
    push_jstring(out, f.result.as_str());
    push_char(out, '}');
    proof {
        assert(out@ =~= old(out)@ + failed_json(f@));
    }
}

proof fn lemma_join_comma_snoc(parts: Seq<Seq<char>>, x: Seq<char>)
    requires
        parts.len() >= 1,
    ensures
        join_with(parts.push(x), seq![',']) == join_with(parts, seq![',']) + seq![','] + x,
    decreases parts.len(),
{
    if parts.len() == 1 {
        assert(parts.push(x)[0] == parts[0]);
        assert(parts.push(x).skip(1) =~= seq![x]);
        assert(seq![x][0] == x);
        assert(join_with(seq![x], seq![',']) == x);
        assert(join_with(parts.push(x), seq![',']) == parts.push(x)[0] + seq![','] + join_with(
            parts.push(x).skip(1),
            seq![','],
        ));
        assert(join_with(parts, seq![',']) + seq![','] + x =~= parts[0] + seq![','] + x);
    } else {
        assert(parts.push(x)[0] == parts[0]);
        assert(parts.push(x).skip(1) =~= parts.skip(1).push(x));
        lemma_join_comma_snoc(parts.skip(1), x);
        assert(join_with(parts.push(x), seq![',']) =~= join_with(parts, seq![',']) + seq![','] + x);
    }
}

/// Relies on `char::from_u32`: yields the character with the given code point
/// exactly when the code is a unicode scalar value (not a surrogate and at
/// most the largest code point).
#[verifier::external_body]
fn char_from_code(code: u32) -> (r: Option<char>)
    ensures
        r matches Some(c) ==> c as u32 == code,
        r is Some <==> is_scalar_code(code as nat),
{
    char::from_u32(code)
}

fn hex_val_exec(c: char) -> (r: u32)
    requires
        is_hex_char(c),
    ensures
        r == hex_val(c),
        r < 16,
{
    let n = c as u32;
    if 48 <= n && n <= 57 {
        n - 48
    } else if 97 <= n && n <= 102 {
        n - 87
    } else {
        n - 55
    }
}

fn short_escape_exec(c: char) -> (r: Option<char>)
    ensures
        r == short_escape(c),
{
    if c == '"' {
        Some('"')
    } else if c == '\\' {
        Some('\\')
    } else if c == '/' {
        Some('/')
    } else if c == 'b' {
        Some('\u{0008}')
    } else if c == 'f' {
        Some('\u{000C}')
    } else if c == 'n' {
        Some('\n')
    } else if c == 'r' {
        Some('\r')
    } else if c == 't' {
        Some('\t')
    } else {
        None
    }
}

fn is_ws_exec(c: char) -> (r: bool)
    ensures
        r == is_ws(c),
{
    c == ' ' || c == '\t' || c == '\n' || c == '\r'
}

fn is_digit_exec(c: char) -> (r: bool)
    ensures
        r == is_digit(c),
{
    let n = c as u32;
    48 <= n && n <= 57
}


fn is_hex_char_exec(c: char) -> (r: bool)
    ensures
        r == is_hex_char(c),
{
    let n = c as u32;
    (48 <= n && n <= 57) || (97 <= n && n <= 102) || (65 <= n && n <= 70)
}

fn p_skip_ws(v: &Vec<char>, i: usize) -> (r: usize)
    requires
        i <= v@.len(),
    ensures
        i <= r <= v@.len(),
        v@.skip(r as int) == skip_ws(v@.skip(i as int)),
{
    let mut j = i;
    while j < v.len() && is_ws_exec(v[j])
        invariant
            i <= j <= v@.len(),
            skip_ws(v@.skip(i as int)) == skip_ws(v@.skip(j as int)),
        decreases v@.len() - j,
    {
        proof {
            assert(v@.skip(j as int)[0] == v@[j as int]);
            assert(v@.skip(j as int).skip(1) =~= v@.skip(j + 1 as int));
        }
        j = j + 1;
    }
    proof {
        if j < v@.len() {
            assert(v@.skip(j as int)[0] == v@[j as int]);
        }
        assert(skip_ws(v@.skip(j as int)) == v@.skip(j as int));
    }
    j
}

fn p_skip_digits(v: &Vec<char>, i: usize) -> (r: usize)
    requires
        i <= v@.len(),
    ensures
        i <= r <= v@.len(),
        v@.skip(r as int) == skip_digits(v@.skip(i as int)),
{
    let mut j = i;
    while j < v.len() && is_digit_exec(v[j])
        invariant
            i <= j <= v@.len(),
            skip_digits(v@.skip(i as int)) == skip_digits(v@.skip(j as int)),
        decreases v@.len() - j,
    {
        proof {
            assert(v@.skip(j as int)[0] == v@[j as int]);
            assert(v@.skip(j as int).skip(1) =~= v@.skip(j + 1 as int));
        }
        j = j + 1;
    }
    proof {
        if j < v@.len() {
            assert(v@.skip(j as int)[0] == v@[j as int]);
        }
        assert(skip_digits(v@.skip(j as int)) == v@.skip(j as int));
    }
    j
}

#[verifier::rlimit(100)]
#[verifier::spinoff_prover]
fn p_parse_number(v: &Vec<char>, i: usize) -> (r: Option<usize>)
    requires
        i <= v@.len(),
    ensures
        match r {
            Some(j) => i <= j <= v@.len() && parse_number(v@.skip(i as int)) == Some(
                v@.skip(j as int),
            ),
            None => parse_number(v@.skip(i as int)) is None,
        },
{
    let ghost s = v@.skip(i as int);
    proof {
        if i < v@.len() {
            assert(s[0] == v@[i as int]);
        }
    }
    let jt = if i < v.len() && v[i] == '-' {
        proof {
            assert(s.skip(1) =~= v@.skip(i + 1 as int));
        }
        i + 1
    } else {
        i
    };
    let ghost t = if s.len() > 0 && s[0] == '-' {
        s.skip(1)
    } else {
        s
    };
    proof {
        assert(t =~= v@.skip(jt as int));
    }
    if !(jt < v.len() && is_digit_exec(v[jt])) {
        proof {
            if jt < v@.len() {
                assert(t[0] == v@[jt as int]);
            }
        }
        return None;
    }
    proof {
        assert(t[0] == v@[jt as int]);
    }
    let ju = if v[jt] == '0' {
        proof {
            assert(t.skip(1) =~= v@.skip(jt + 1 as int));
        }
        jt + 1
    } else {
        p_skip_digits(v, jt)
    };
    let ghost u = if t[0] == '0' {
        t.skip(1)
    } else {
        skip_digits(t)
    };
    proof {
        assert(u =~= v@.skip(ju as int));
    }
    // optional fraction
    let jw: usize;
    if ju < v.len() && v[ju] == '.' {
        proof {
            assert(u[0] == v@[ju as int]);
        }
        if ju + 1 < v.len() && is_digit_exec(v[ju + 1]) {
            proof {
                assert(u[1] == v@[ju + 1 as int]);
                assert(u.skip(1) =~= v@.skip(ju + 1 as int));
            }
            jw = p_skip_digits(v, ju + 1);
        } else {
            proof {
                if ju + 1 < v@.len() {
                    assert(u[1] == v@[ju + 1 as int]);
                }
                assert(parse_number_fraction(u) is None);
            }
            return None;
        }
    } else {
        proof {
            if ju < v@.len() {
                assert(u[0] == v@[ju as int]);
            }
        }
        jw = ju;
    }
    let ghost w = match parse_number_fraction(u) {
        Some(w0) => w0,
        None => u,
    };
    proof {
        assert(parse_number_fraction(u) == Some(w));
        assert(w =~= v@.skip(jw as int));
    }
    // optional exponent
    if jw < v.len() && (v[jw] == 'e' || v[jw] == 'E') {
        proof {
            assert(w[0] == v@[jw as int]);
        }
        let js = if jw + 1 < v.len() && (v[jw + 1] == '+' || v[jw + 1] == '-') {
            proof {
                assert(w[1] == v@[jw + 1 as int]);
                assert(w.skip(2) =~= v@.skip(jw + 2 as int));
            }
            jw + 2
        } else {
            proof {
                if jw + 1 < v@.len() {
                    assert(w[1] == v@[jw + 1 as int]);
                }
                assert(w.skip(1) =~= v@.skip(jw + 1 as int));
            }
            jw + 1
        };
        let ghost x = if w.len() >= 2 && (w[1] == '+' || w[1] == '-') {
            w.skip(2)
        } else {
            w.skip(1)
        };
        proof {
            assert(x =~= v@.skip(js as int));
        }
        if js < v.len() && is_digit_exec(v[js]) {
            proof {
                assert(x[0] == v@[js as int]);
            }
            let jx = p_skip_digits(v, js);
            Some(jx)
        } else {
            proof {
                if js < v@.len() {
                    assert(x[0] == v@[js as int]);
                }
            }
            None
        }
    } else {
        proof {
            if jw < v@.len() {
                assert(w[0] == v@[jw as int]);
            }
        }
        Some(jw)
    }
}

#[verifier::rlimit(100)]
fn p_unicode_escape(v: &Vec<char>, i: usize) -> (r: Option<(char, usize)>)
    requires
        i <= v@.len(),
    ensures
        match r {
            Some(p) => i <= p.1 <= v@.len() && parse_unicode_escape(v@.skip(i as int)) == Some(
                (p.0, v@.skip(p.1 as int)),
            ),
            None => parse_unicode_escape(v@.skip(i as int)) is None,
        },
{
    let ghost s = v@.skip(i as int);
    if v.len() - i < 4 {
        proof {
            assert(s.len() < 4);
        }
        return None;
    }
    let h0 = v[i];
    let h1 = v[i + 1];
    let h2 = v[i + 2];
    let h3 = v[i + 3];
    proof {
        assert(s[0] == v@[i as int]);
        assert(s[1] == v@[i + 1 as int]);
        assert(s[2] == v@[i + 2 as int]);
        assert(s[3] == v@[i + 3 as int]);
    }
    if !(is_hex_char_exec(h0) && is_hex_char_exec(h1) && is_hex_char_exec(h2) && is_hex_char_exec(
        h3,
    )) {
        return None;
    }
    let code = hex_val_exec(h0) * 4096 + hex_val_exec(h1) * 256 + hex_val_exec(h2) * 16
        + hex_val_exec(h3);
    if code < 0xD800 || code >= 0xE000 {
        proof {
            assert(s.skip(4) =~= v@.skip(i + 4 as int));
        }
        match char_from_code(code) {
            Some(ch) => {
                proof {
                    assert(is_scalar_code(code as nat));
                    vstd::utf8::char_u32_cast(ch, code);
                    assert(char_of_code(code as nat) == ch);
                }
                Some((ch, i + 4))
            },
            None => {
                proof {
                    assert(is_scalar_code(code as nat));
                    assert(false);
                }
                None
            },
        }
    } else if code < 0xDC00 {
        if v.len() - i < 10 {
            proof {
                assert(s.len() < 10);
            }
            return None;
        }
        let e4 = v[i + 4];
        let e5 = v[i + 5];
        let h6 = v[i + 6];
        let h7 = v[i + 7];
        let h8 = v[i + 8];
        let h9 = v[i + 9];
        proof {
            assert(s.len() >= 10);
            assert(s[4] == v@[i + 4 as int]);
            assert(s[5] == v@[i + 5 as int]);
            assert(s[6] == v@[i + 6 as int]);
            assert(s[7] == v@[i + 7 as int]);
            assert(s[8] == v@[i + 8 as int]);
            assert(s[9] == v@[i + 9 as int]);
        }
        if !(e4 == '\\' && e5 == 'u' && is_hex_char_exec(h6) && is_hex_char_exec(h7)
            && is_hex_char_exec(h8) && is_hex_char_exec(h9)) {
            return None;
        }
        let low = hex_val_exec(h6) * 4096 + hex_val_exec(h7) * 256 + hex_val_exec(h8) * 16
            + hex_val_exec(h9);
        if !(0xDC00 <= low && low < 0xE000) {
            return None;
        }
        let combined = 0x10000 + (code - 0xD800) * 0x400 + (low - 0xDC00);
        proof {
            assert(s.skip(10) =~= v@.skip(i + 10 as int));
        }
        match char_from_code(combined) {
            Some(ch) => {
                proof {
                    assert(is_scalar_code(combined as nat));
                    vstd::utf8::char_u32_cast(ch, combined);
                    assert(char_of_code(combined as nat) == ch);
                }
                Some((ch, i + 10))
            },
            None => {
                proof {
                    assert(is_scalar_code(combined as nat));
                    assert(false);
                }
                None
            },
        }
    } else {
        None
    }
}

/// Whether the continuation of a partially parsed string literal at `s1`,
/// with `acc` already decoded, agrees with parsing the whole literal at `s0`.
spec fn string_body_continues(s0: Seq<char>, acc: Seq<char>, s1: Seq<char>) -> bool {
    parse_string_body(s0) == (match parse_string_body(s1) {
        Some(p) => Some((acc + p.0, p.1)),
        None => None,
    })
}

#[verifier::rlimit(100)]
#[verifier::spinoff_prover]
fn p_string_body(v: &Vec<char>, i: usize) -> (r: Option<(String, usize)>)
    requires
        i <= v@.len(),
    ensures
        match r {
            Some(p) => i <= p.1 <= v@.len() && parse_string_body(v@.skip(i as int)) == Some(
                (p.0@, v@.skip(p.1 as int)),
            ),
            None => parse_string_body(v@.skip(i as int)) is None,
        },
{
    let mut acc: Vec<char> = Vec::new();
    let mut j = i;
    proof {
        match parse_string_body(v@.skip(i as int)) {
            Some(p) => {
                assert(Seq::<char>::empty() + p.0 =~= p.0);
            },
            None => {},
        }
    }
    loop
        invariant
            i <= j <= v@.len(),
            string_body_continues(v@.skip(i as int), acc@, v@.skip(j as int)),
        decreases v@.len() - j,
    {
        let ghost s0 = v@.skip(i as int);
        let ghost sj = v@.skip(j as int);
        if j >= v.len() {
            return None;
        }
        let c = v[j];
        proof {
            assert(sj[0] == v@[j as int]);
        }
        if c == '"' {
            proof {
                assert(sj.skip(1) =~= v@.skip(j + 1 as int));
                assert(acc@ + Seq::<char>::empty() =~= acc@);
            }
            let out = crate::textutil::string_of(&acc);
            return Some((out, j + 1));
        } else if c == '\\' {
            if j + 1 >= v.len() {
                return None;
            }
            let c2 = v[j + 1];
            proof {
                assert(sj[1] == v@[j + 1 as int]);
            }
            if c2 == 'u' {
                proof {
                    assert(sj.skip(2) =~= v@.skip(j + 2 as int));
                }
                match p_unicode_escape(v, j + 2) {
                    Some(p) => {
                        let (ch, jn) = p;
                        proof {
                            assert(v@.skip(jn as int).len() < sj.len());
                            match parse_string_body(v@.skip(jn as int)) {
                                Some(q) => {
                                    assert(acc@ + (seq![ch] + q.0) =~= acc@.push(ch) + q.0);
                                },
                                None => {},
                            }
                        }
                        acc.push(ch);
                        j = jn;
                    },
                    None => {
                        return None;
                    },
                }
            } else {
                match short_escape_exec(c2) {
                    Some(ec) => {
                        proof {
                            assert(sj.skip(2) =~= v@.skip(j + 2 as int));
                            match parse_string_body(v@.skip(j + 2 as int)) {
                                Some(p) => {
                                    assert(acc@ + (seq![ec] + p.0) =~= acc@.push(ec) + p.0);
                                },
                                None => {},
                            }
                        }
                        acc.push(ec);
                        j = j + 2;
                    },
                    None => {
                        return None;
                    },
                }
            }
        } else if (c as u32) < 32 {
            return None;
        } else {
            proof {
                assert(sj.skip(1) =~= v@.skip(j + 1 as int));
                match parse_string_body(v@.skip(j + 1 as int)) {
                    Some(p) => {
                        assert(acc@ + (seq![c] + p.0) =~= acc@.push(c) + p.0);
                    },
                    None => {},
                }
            }
            acc.push(c);
            j = j + 1;
        }
    }
}

fn p_string(v: &Vec<char>, i: usize) -> (r: Option<(String, usize)>)
    requires
        i <= v@.len(),
    ensures
        match r {
            Some(p) => i <= p.1 <= v@.len() && parse_string(v@.skip(i as int)) == Some(
                (p.0@, v@.skip(p.1 as int)),
            ),
            None => parse_string(v@.skip(i as int)) is None,
        },
{
    if i < v.len() && v[i] == '"' {
        proof {
            assert(v@.skip(i as int)[0] == v@[i as int]);
            assert(v@.skip(i as int).skip(1) =~= v@.skip(i + 1 as int));
        }
        p_string_body(v, i + 1)
    } else {
        proof {
            if i < v@.len() {
                assert(v@.skip(i as int)[0] == v@[i as int]);
            }
        }
        None
    }
}

fn p_skip_value(v: &Vec<char>, i: usize, depth: u32) -> (r: Option<usize>)
    requires
        i <= v@.len(),
    ensures
        match r {
            Some(j) => i <= j <= v@.len() && skip_value(v@.skip(i as int), depth) == Some(
                v@.skip(j as int),
            ),
            None => skip_value(v@.skip(i as int), depth) is None,
        },
    decreases v@.len() - i, 0int,
{
    let ghost s = v@.skip(i as int);
    if i >= v.len() {
        return None;
    }
    let c = v[i];
    proof {
        assert(s[0] == v@[i as int]);
        assert(s.skip(1) =~= v@.skip(i + 1 as int));
    }
    if c == '"' {
        match p_string_body(v, i + 1) {
            Some(p) => Some(p.1),
            None => None,
        }
    } else if c == '{' {
        if depth == 0 {
            None
        } else {
            p_skip_members(v, i + 1, true, depth - 1)
        }
    } else if c == '[' {
        if depth == 0 {
            None
        } else {
            p_skip_elements(v, i + 1, true, depth - 1)
        }
    } else if c == 't' {
        if v.len() - i >= 4 && v[i + 1] == 'r' && v[i + 2] == 'u' && v[i + 3] == 'e' {
            proof {
                assert(s[1] == v@[i + 1 as int]);
                assert(s[2] == v@[i + 2 as int]);
                assert(s[3] == v@[i + 3 as int]);
                assert(s.skip(4) =~= v@.skip(i + 4 as int));
            }
            Some(i + 4)
        } else {
            proof {
                if s.len() >= 4 {
                    assert(s[1] == v@[i + 1 as int]);
                    assert(s[2] == v@[i + 2 as int]);
                    assert(s[3] == v@[i + 3 as int]);
                }
            }
            None
        }
    } else if c == 'f' {
        if v.len() - i >= 5 && v[i + 1] == 'a' && v[i + 2] == 'l' && v[i + 3] == 's' && v[i + 4]
            == 'e' {
            proof {
                assert(s[1] == v@[i + 1 as int]);
                assert(s[2] == v@[i + 2 as int]);
                assert(s[3] == v@[i + 3 as int]);
                assert(s[4] == v@[i + 4 as int]);
                assert(s.skip(5) =~= v@.skip(i + 5 as int));
            }
            Some(i + 5)
        } else {
            proof {
                if s.len() >= 5 {
                    assert(s[1] == v@[i + 1 as int]);
                    assert(s[2] == v@[i + 2 as int]);
                    assert(s[3] == v@[i + 3 as int]);
                    assert(s[4] == v@[i + 4 as int]);
                }
            }
            None
        }
    } else if c == 'n' {
        if v.len() - i >= 4 && v[i + 1] == 'u' && v[i + 2] == 'l' && v[i + 3] == 'l' {
            proof {
                assert(s[1] == v@[i + 1 as int]);
                assert(s[2] == v@[i + 2 as int]);
                assert(s[3] == v@[i + 3 as int]);
                assert(s.skip(4) =~= v@.skip(i + 4 as int));
            }
            Some(i + 4)
        } else {
            proof {
                if s.len() >= 4 {
                    assert(s[1] == v@[i + 1 as int]);
                    assert(s[2] == v@[i + 2 as int]);
                    assert(s[3] == v@[i + 3 as int]);
                }
            }
            None
        }
    } else if c == '-' || is_digit_exec(c) {
        p_parse_number(v, i)
    } else {
        None
    }
}

#[verifier::rlimit(100)]
#[verifier::spinoff_prover]
fn p_skip_members(v: &Vec<char>, i: usize, first: bool, depth: u32) -> (r: Option<usize>)
    requires
        i <= v@.len(),
    ensures
        match r {
            Some(j) => i <= j <= v@.len() && skip_members(v@.skip(i as int), first, depth) == Some(
                v@.skip(j as int),
            ),
            None => skip_members(v@.skip(i as int), first, depth) is None,
        },
    decreases v@.len() - i, 1int,
{
    let ghost s = v@.skip(i as int);
    let jt = p_skip_ws(v, i);
    let ghost t = skip_ws(s);
    if jt >= v.len() {
        return None;
    }
    proof {
        assert(t[0] == v@[jt as int]);
        assert(t.skip(1) =~= v@.skip(jt + 1 as int));
    }
    if first && v[jt] == '}' {
        return Some(jt + 1);
    }
    if v[jt] != '"' {
        return None;
    }
    match p_string_body(v, jt + 1) {
        Some(p) => {
            let ju = p_skip_ws(v, p.1);
            let ghost u = skip_ws(v@.skip(p.1 as int));
            if ju >= v.len() {
                return None;
            }
            proof {
                assert(u[0] == v@[ju as int]);
                assert(u.skip(1) =~= v@.skip(ju + 1 as int));
            }
            if v[ju] != ':' {
                return None;
            }
            let jw = p_skip_ws(v, ju + 1);
            match p_skip_value(v, jw, depth) {
                Some(jrest) => {
                    let jz = p_skip_ws(v, jrest);
                    let ghost z = skip_ws(v@.skip(jrest as int));
                    if jz >= v.len() {
                        return None;
                    }
                    proof {
                        assert(z[0] == v@[jz as int]);
                        assert(z.skip(1) =~= v@.skip(jz + 1 as int));
                    }
                    if v[jz] == '}' {
                        Some(jz + 1)
                    } else if v[jz] == ',' {
                        p_skip_members(v, jz + 1, false, depth)
                    } else {
                        None
                    }
                },
                None => None,
            }
        },
        None => None,
    }
}

#[verifier::rlimit(100)]
#[verifier::spinoff_prover]
fn p_skip_elements(v: &Vec<char>, i: usize, first: bool, depth: u32) -> (r: Option<usize>)
    requires
        i <= v@.len(),
    ensures
        match r {
            Some(j) => i <= j <= v@.len() && skip_elements(v@.skip(i as int), first, depth) == Some(
                v@.skip(j as int),
            ),
            None => skip_elements(v@.skip(i as int), first, depth) is None,
        },
    decreases v@.len() - i, 1int,
{
    let ghost s = v@.skip(i as int);
    let jt = p_skip_ws(v, i);
    let ghost t = skip_ws(s);
    if jt >= v.len() {
        return None;
    }
    proof {
        assert(t[0] == v@[jt as int]);
        assert(t.skip(1) =~= v@.skip(jt + 1 as int));
    }
    if first && v[jt] == ']' {
        return Some(jt + 1);
    }
    match p_skip_value(v, jt, depth) {
        Some(jrest) => {
            let jz = p_skip_ws(v, jrest);
            let ghost z = skip_ws(v@.skip(jrest as int));
            if jz >= v.len() {
                return None;
            }
            proof {
                assert(z[0] == v@[jz as int]);
                assert(z.skip(1) =~= v@.skip(jz + 1 as int));
            }
            if v[jz] == ']' {
                Some(jz + 1)
            } else if v[jz] == ',' {
                p_skip_elements(v, jz + 1, false, depth)
            } else {
                None
            }
        },
        None => None,
    }
}

/// The model of an optional decoded text.
spec fn opt_str_view(o: Option<String>) -> Option<Seq<char>> {
    match o {
        Some(s) => Some(s@),
        None => None,
    }
}

#[verifier::rlimit(100)]
#[verifier::spinoff_prover]
fn p_passed_members(v: &Vec<char>, i: usize, first: bool, acc: Option<String>) -> (r: Option<
    (String, usize),
>)
    requires
        i <= v@.len(),
    ensures
        match r {
            Some(p) => i <= p.1 <= v@.len() && parse_passed_members(
                v@.skip(i as int),
                first,
                opt_str_view(acc),
            ) == Some((p.0@, v@.skip(p.1 as int))),
            None => parse_passed_members(v@.skip(i as int), first, opt_str_view(acc)) is None,
        },
    decreases v@.len() - i,
{
    let ghost s = v@.skip(i as int);
    let jt = p_skip_ws(v, i);
    let ghost t = skip_ws(s);
    if jt >= v.len() {
        return None;
    }
    proof {
        assert(t[0] == v@[jt as int]);
        assert(t.skip(1) =~= v@.skip(jt + 1 as int));
    }
    if first && v[jt] == '}' {
        return match acc {
            Some(name) => Some((name, jt + 1)),
            None => None,
        };
    }
    if v[jt] != '"' {
        return None;
    }
    match p_string_body(v, jt + 1) {
        Some(p) => {
            let (key, jk) = p;
            let ju = p_skip_ws(v, jk);
            let ghost u = skip_ws(v@.skip(jk as int));
            if ju >= v.len() {
                return None;
            }
            proof {
                assert(u[0] == v@[ju as int]);
                assert(u.skip(1) =~= v@.skip(ju + 1 as int));
            }
            if v[ju] != ':' {
                return None;
            }
            let jw = p_skip_ws(v, ju + 1);
            if key == "passedTest".to_owned() {
                if acc.is_some() {
                    return None;
                }
                match p_string(v, jw) {
                    Some(q) => {
                        let (val, jq) = q;
                        let jz = p_skip_ws(v, jq);
                        let ghost z = skip_ws(v@.skip(jq as int));
                        if jz >= v.len() {
                            return None;
                        }
                        proof {
                            assert(z[0] == v@[jz as int]);
                            assert(z.skip(1) =~= v@.skip(jz + 1 as int));
                        }
                        if v[jz] == '}' {
                            Some((val, jz + 1))
                        } else if v[jz] == ',' {
                            p_passed_members(v, jz + 1, false, Some(val))
                        } else {
                            None
                        }
                    },
                    None => None,
                }
            } else {
                match p_skip_value(v, jw, SKIP_DEPTH_LIMIT) {
                    Some(jrest) => {
                        let jz = p_skip_ws(v, jrest);
                        let ghost z = skip_ws(v@.skip(jrest as int));
                        if jz >= v.len() {
                            return None;
                        }
                        proof {
                            assert(z[0] == v@[jz as int]);
                            assert(z.skip(1) =~= v@.skip(jz + 1 as int));
                        }
                        if v[jz] == '}' {
                            match acc {
                                Some(name) => Some((name, jz + 1)),
                                None => None,
                            }
                        } else if v[jz] == ',' {
                            p_passed_members(v, jz + 1, false, acc)
                        } else {
                            None
                        }
                    },
                    None => None,
                }
            }
        },
        None => None,
    }
}

fn p_passed_obj(v: &Vec<char>, i: usize) -> (r: Option<(String, usize)>)
    requires
        i <= v@.len(),
    ensures
        match r {
            Some(p) => i <= p.1 <= v@.len() && parse_passed(v@.skip(i as int)) == Some(
                (p.0@, v@.skip(p.1 as int)),
            ),
            None => parse_passed(v@.skip(i as int)) is None,
        },
{
    if i < v.len() && v[i] == '{' {
        proof {
            assert(v@.skip(i as int)[0] == v@[i as int]);
            assert(v@.skip(i as int).skip(1) =~= v@.skip(i + 1 as int));
        }
        p_passed_members(v, i + 1, true, None)
    } else {
        proof {
            if i < v@.len() {
                assert(v@.skip(i as int)[0] == v@[i as int]);
            }
        }
        None
    }
}

#[verifier::rlimit(100)]
#[verifier::spinoff_prover]
fn p_failed_members(
    v: &Vec<char>,
    i: usize,
    first: bool,
    exp: Option<String>,
    name: Option<String>,
    res: Option<String>,
) -> (r: Option<(FailedTest, usize)>)
    requires
        i <= v@.len(),
    ensures
        match r {
            Some(p) => i <= p.1 <= v@.len() && parse_failed_members(
                v@.skip(i as int),
                first,
                opt_str_view(exp),
                opt_str_view(name),
                opt_str_view(res),
            ) == Some((p.0@, v@.skip(p.1 as int))),
            None => parse_failed_members(
                v@.skip(i as int),
                first,
                opt_str_view(exp),
                opt_str_view(name),
                opt_str_view(res),
            ) is None,
        },
    decreases v@.len() - i,
{
    proof {
        reveal_strlit("expected");
        reveal_strlit("failedTest");
        reveal_strlit("result");
        assert("expected"@.len() == 8);
        assert("failedTest"@.len() == 10);
        assert("result"@.len() == 6);
    }
    let ghost s = v@.skip(i as int);
    let jt = p_skip_ws(v, i);
    let ghost t = skip_ws(s);
    if jt >= v.len() {
        return None;
    }
    proof {
        assert(t[0] == v@[jt as int]);
        assert(t.skip(1) =~= v@.skip(jt + 1 as int));
    }
    if first && v[jt] == '}' {
        return match (exp, name, res) {
            (Some(e), Some(n), Some(r)) => Some(
                (FailedTest { expected: e, failed_test: n, result: r }, jt + 1),
            ),
            _ => None,
        };
    }
    if v[jt] != '"' {
        return None;
    }
    match p_string_body(v, jt + 1) {
        Some(p) => {
            let (key, jk) = p;
            let ju = p_skip_ws(v, jk);
            let ghost u = skip_ws(v@.skip(jk as int));
            if ju >= v.len() {
                return None;
            }
            proof {
                assert(u[0] == v@[ju as int]);
                assert(u.skip(1) =~= v@.skip(ju + 1 as int));
            }
            if v[ju] != ':' {
                return None;
            }
            let jw = p_skip_ws(v, ju + 1);
            let is_exp = key == "expected".to_owned();
            let is_name = key == "failedTest".to_owned();
            let is_res = key == "result".to_owned();
            if is_exp || is_name || is_res {
                if (is_exp && exp.is_some()) || (is_name && name.is_some()) || (is_res
                    && res.is_some()) {
                    return None;
                }
                match p_string(v, jw) {
                    Some(q) => {
                        let (val, jq) = q;
                        let (exp2, name2, res2) = if is_exp {
                            (Some(val), name, res)
                        } else if is_name {
                            (exp, Some(val), res)
                        } else {
                            (exp, name, Some(val))
                        };
                        let jz = p_skip_ws(v, jq);
                        let ghost z = skip_ws(v@.skip(jq as int));
                        if jz >= v.len() {
                            return None;
                        }
                        proof {
                            assert(z[0] == v@[jz as int]);
                            assert(z.skip(1) =~= v@.skip(jz + 1 as int));
                        }
                        if v[jz] == '}' {
                            match (exp2, name2, res2) {
                                (Some(e), Some(n), Some(r)) => Some(
                                    (FailedTest { expected: e, failed_test: n, result: r }, jz + 1),
                                ),
                                _ => None,
                            }
                        } else if v[jz] == ',' {
                            p_failed_members(v, jz + 1, false, exp2, name2, res2)
                        } else {
                            None
                        }
                    },
                    None => None,
                }
            } else {
                match p_skip_value(v, jw, SKIP_DEPTH_LIMIT) {
                    Some(jrest) => {
                        let jz = p_skip_ws(v, jrest);
                        let ghost z = skip_ws(v@.skip(jrest as int));
                        if jz >= v.len() {
                            return None;
                        }
                        proof {
                            assert(z[0] == v@[jz as int]);
                            assert(z.skip(1) =~= v@.skip(jz + 1 as int));
                        }
                        if v[jz] == '}' {
                            match (exp, name, res) {
                                (Some(e), Some(n), Some(r)) => Some(
                                    (FailedTest { expected: e, failed_test: n, result: r }, jz + 1),
                                ),
                                _ => None,
                            }
                        } else if v[jz] == ',' {
                            p_failed_members(v, jz + 1, false, exp, name, res)
                        } else {
                            None
                        }
                    },
                    None => None,
                }
            }
        },
        None => None,
    }
}

fn p_failed_obj(v: &Vec<char>, i: usize) -> (r: Option<(FailedTest, usize)>)
    requires
        i <= v@.len(),
    ensures
        match r {
            Some(p) => i <= p.1 <= v@.len() && parse_failed(v@.skip(i as int)) == Some(
                (p.0@, v@.skip(p.1 as int)),
            ),
            None => parse_failed(v@.skip(i as int)) is None,
        },
{
    if i < v.len() && v[i] == '{' {
        proof {
            assert(v@.skip(i as int)[0] == v@[i as int]);
            assert(v@.skip(i as int).skip(1) =~= v@.skip(i + 1 as int));
        }
        p_failed_members(v, i + 1, true, None, None, None)
    } else {
        proof {
            if i < v@.len() {
                assert(v@.skip(i as int)[0] == v@[i as int]);
            }
        }
        None
    }
}

fn p_passed_items(v: &Vec<char>, i: usize, first: bool, acc: Vec<PassedTest>) -> (r: Option<
    (Vec<PassedTest>, usize),
>)
    requires
        i <= v@.len(),
    ensures
        match r {
            Some(p) => i <= p.1 <= v@.len() && parse_passed_items(
                v@.skip(i as int),
                first,
                acc@.map_values(|x: PassedTest| x@),
            ) == Some((p.0@.map_values(|x: PassedTest| x@), v@.skip(p.1 as int))),
            None => parse_passed_items(
                v@.skip(i as int),
                first,
                acc@.map_values(|x: PassedTest| x@),
            ) is None,
        },
    decreases v@.len() - i,
{
    let ghost s = v@.skip(i as int);
    let ghost accv = acc@.map_values(|x: PassedTest| x@);
    let jt = p_skip_ws(v, i);
    let ghost t = skip_ws(s);
    if jt >= v.len() {
        return None;
    }
    proof {
        assert(t[0] == v@[jt as int]);
        assert(t.skip(1) =~= v@.skip(jt + 1 as int));
    }
    if first && v[jt] == ']' {
        return Some((acc, jt + 1));
    }
    match p_passed_obj(v, jt) {
        Some(p) => {
            let (name, jp) = p;
            let mut acc2 = acc;
            acc2.push(PassedTest { passed_test: name });
            proof {
                assert(acc2@.map_values(|x: PassedTest| x@) =~= accv.push(name@));
            }
            let jz = p_skip_ws(v, jp);
            let ghost z = skip_ws(v@.skip(jp as int));
            if jz >= v.len() {
                return None;
            }
            proof {
                assert(z[0] == v@[jz as int]);
                assert(z.skip(1) =~= v@.skip(jz + 1 as int));
            }
            if v[jz] == ']' {
                Some((acc2, jz + 1))
            } else if v[jz] == ',' {
                p_passed_items(v, jz + 1, false, acc2)
            } else {
                None
            }
        },
        None => None,
    }
}

fn p_failed_items(v: &Vec<char>, i: usize, first: bool, acc: Vec<FailedTest>) -> (r: Option<
    (Vec<FailedTest>, usize),
>)
    requires
        i <= v@.len(),
    ensures
        match r {
            Some(p) => i <= p.1 <= v@.len() && parse_failed_items(
                v@.skip(i as int),
                first,
                acc@.map_values(|x: FailedTest| x@),
            ) == Some((p.0@.map_values(|x: FailedTest| x@), v@.skip(p.1 as int))),
            None => parse_failed_items(
                v@.skip(i as int),
                first,
                acc@.map_values(|x: FailedTest| x@),
            ) is None,
        },
    decreases v@.len() - i,
{
    let ghost s = v@.skip(i as int);
    let ghost accv = acc@.map_values(|x: FailedTest| x@);
    let jt = p_skip_ws(v, i);
    let ghost t = skip_ws(s);
    if jt >= v.len() {
        return None;
    }
    proof {
        assert(t[0] == v@[jt as int]);
        assert(t.skip(1) =~= v@.skip(jt + 1 as int));
    }
    if first && v[jt] == ']' {
        return Some((acc, jt + 1));
    }
    match p_failed_obj(v, jt) {
        Some(p) => {
            let (rec, jp) = p;
            let ghost recv = rec@;
            let mut acc2 = acc;
            acc2.push(rec);
            proof {
                assert(acc2@.map_values(|x: FailedTest| x@) =~= accv.push(recv));
            }
            let jz = p_skip_ws(v, jp);
            let ghost z = skip_ws(v@.skip(jp as int));
            if jz >= v.len() {
                return None;
            }
            proof {
                assert(z[0] == v@[jz as int]);
                assert(z.skip(1) =~= v@.skip(jz + 1 as int));
            }
            if v[jz] == ']' {
                Some((acc2, jz + 1))
            } else if v[jz] == ',' {
                p_failed_items(v, jz + 1, false, acc2)
            } else {
                None
            }
        },
        None => None,
    }
}

fn p_passed_array(v: &Vec<char>, i: usize) -> (r: Option<(Vec<PassedTest>, usize)>)
    requires
        i <= v@.len(),
    ensures
        match r {
            Some(p) => i <= p.1 <= v@.len() && parse_passed_array(v@.skip(i as int)) == Some(
                (p.0@.map_values(|x: PassedTest| x@), v@.skip(p.1 as int)),
            ),
            None => parse_passed_array(v@.skip(i as int)) is None,
        },
{
    if i < v.len() && v[i] == '[' {
        proof {
            assert(v@.skip(i as int)[0] == v@[i as int]);
            assert(v@.skip(i as int).skip(1) =~= v@.skip(i + 1 as int));
        }
        let acc: Vec<PassedTest> = Vec::new();
        proof {
            assert(acc@.map_values(|x: PassedTest| x@) =~= Seq::<Seq<char>>::empty());
        }
        p_passed_items(v, i + 1, true, acc)
    } else {
        proof {
            if i < v@.len() {
                assert(v@.skip(i as int)[0] == v@[i as int]);
            }
        }
        None
    }
}

fn p_failed_array(v: &Vec<char>, i: usize) -> (r: Option<(Vec<FailedTest>, usize)>)
    requires
        i <= v@.len(),
    ensures
        match r {
            Some(p) => i <= p.1 <= v@.len() && parse_failed_array(v@.skip(i as int)) == Some(
                (p.0@.map_values(|x: FailedTest| x@), v@.skip(p.1 as int)),
            ),
            None => parse_failed_array(v@.skip(i as int)) is None,
        },
{
    if i < v.len() && v[i] == '[' {
        proof {
            assert(v@.skip(i as int)[0] == v@[i as int]);
            assert(v@.skip(i as int).skip(1) =~= v@.skip(i + 1 as int));
        }
        let acc: Vec<FailedTest> = Vec::new();
        proof {
            assert(acc@.map_values(|x: FailedTest| x@) =~= Seq::<FailedTestView>::empty());
        }
        p_failed_items(v, i + 1, true, acc)
    } else {
        proof {
            if i < v@.len() {
                assert(v@.skip(i as int)[0] == v@[i as int]);
            }
        }
        None
    }
}

/// The model of an optional parsed `passed` array.
spec fn opt_passed_view(o: Option<Vec<PassedTest>>) -> Option<Seq<Seq<char>>> {
    match o {
        Some(p) => Some(p@.map_values(|x: PassedTest| x@)),
        None => None,
    }
}

/// The model of an optional parsed `failed` array.
spec fn opt_failed_view(o: Option<Vec<FailedTest>>) -> Option<Seq<FailedTestView>> {
    match o {
        Some(f) => Some(f@.map_values(|x: FailedTest| x@)),
        None => None,
    }
}

#[verifier::rlimit(100)]
#[verifier::spinoff_prover]
fn p_top_members(
    v: &Vec<char>,
    i: usize,
    first: bool,
    pacc: Option<Vec<PassedTest>>,
    facc: Option<Vec<FailedTest>>,
) -> (r: Option<(TestResult, usize)>)
    requires
        i <= v@.len(),
    ensures
        match r {
            Some(p) => i <= p.1 <= v@.len() && parse_top_members(
                v@.skip(i as int),
                first,
                opt_passed_view(pacc),
                opt_failed_view(facc),
            ) == Some((p.0@, v@.skip(p.1 as int))),
            None => parse_top_members(
                v@.skip(i as int),
                first,
                opt_passed_view(pacc),
                opt_failed_view(facc),
            ) is None,
        },
    decreases v@.len() - i,
{
    proof {
        reveal_strlit("passed");
        reveal_strlit("failed");
        assert("passed"@.len() == 6);
        assert("failed"@[0] == 'f');
        assert("passed"@[0] == 'p');
    }
    let ghost s = v@.skip(i as int);
    let jt = p_skip_ws(v, i);
    let ghost t = skip_ws(s);
    if jt >= v.len() {
        return None;
    }
    proof {
        assert(t[0] == v@[jt as int]);
        assert(t.skip(1) =~= v@.skip(jt + 1 as int));
    }
    if first && v[jt] == '}' {
        return match (pacc, facc) {
            (Some(p), Some(f)) => Some((TestResult { passed: p, failed: f }, jt + 1)),
            _ => None,
        };
    }
    if v[jt] != '"' {
        return None;
    }
    match p_string_body(v, jt + 1) {
        Some(p) => {
            let (key, jk) = p;
            let ju = p_skip_ws(v, jk);
            let ghost u = skip_ws(v@.skip(jk as int));
            if ju >= v.len() {
                return None;
            }
            proof {
                assert(u[0] == v@[ju as int]);
                assert(u.skip(1) =~= v@.skip(ju + 1 as int));
            }
            if v[ju] != ':' {
                return None;
            }
            let jw = p_skip_ws(v, ju + 1);
            let is_passed = key == "passed".to_owned();
            let is_failed = key == "failed".to_owned();
            if is_passed {
                if pacc.is_some() {
                    return None;
                }
                match p_passed_array(v, jw) {
                    Some(q) => {
                        let (arr, jq) = q;
                        let jz = p_skip_ws(v, jq);
                        let ghost z = skip_ws(v@.skip(jq as int));
                        if jz >= v.len() {
                            return None;
                        }
                        proof {
                            assert(z[0] == v@[jz as int]);
                            assert(z.skip(1) =~= v@.skip(jz + 1 as int));
                        }
                        if v[jz] == '}' {
                            match facc {
                                Some(f) => Some((TestResult { passed: arr, failed: f }, jz + 1)),
                                None => None,
                            }
                        } else if v[jz] == ',' {
                            p_top_members(v, jz + 1, false, Some(arr), facc)
                        } else {
                            None
                        }
                    },
                    None => None,
                }
            } else if is_failed {
                if facc.is_some() {
                    return None;
                }
                match p_failed_array(v, jw) {
                    Some(q) => {
                        let (arr, jq) = q;
                        let jz = p_skip_ws(v, jq);
                        let ghost z = skip_ws(v@.skip(jq as int));
                        if jz >= v.len() {
                            return None;
                        }
                        proof {
                            assert(z[0] == v@[jz as int]);
                            assert(z.skip(1) =~= v@.skip(jz + 1 as int));
                        }
                        if v[jz] == '}' {
                            match pacc {
                                Some(p2) => Some((TestResult { passed: p2, failed: arr }, jz + 1)),
                                None => None,
                            }
                        } else if v[jz] == ',' {
                            p_top_members(v, jz + 1, false, pacc, Some(arr))
                        } else {
                            None
                        }
                    },
                    None => None,
                }
            } else {
                match p_skip_value(v, jw, SKIP_DEPTH_LIMIT) {
                    Some(jrest) => {
                        let jz = p_skip_ws(v, jrest);
                        let ghost z = skip_ws(v@.skip(jrest as int));
                        if jz >= v.len() {
                            return None;
                        }
                        proof {
                            assert(z[0] == v@[jz as int]);
                            assert(z.skip(1) =~= v@.skip(jz + 1 as int));
                        }
                        if v[jz] == '}' {
                            match (pacc, facc) {
                                (Some(p2), Some(f)) => Some(
                                    (TestResult { passed: p2, failed: f }, jz + 1),
                                ),
                                _ => None,
                            }
                        } else if v[jz] == ',' {
                            p_top_members(v, jz + 1, false, pacc, facc)
                        } else {
                            None
                        }
                    },
                    None => None,
                }
            }
        },
        None => None,
    }
}

impl TestResult {
    /// Deserializes a test run from its JSON rendering: one top-level object
    /// with the `passed` and `failed` arrays. A payload that is not such an
    /// object, in full, is rejected as a malformed result; no partial record
    /// is ever returned.
    pub fn parse(s: &str) -> (r: Result<TestResult, crate::model::ReportError>)
        ensures
            match parse_top(s@) {
                Some(m) => r matches Ok(out) && out@ == m,
                None => r matches Err(e) && e is MalformedResult,
            },
    {
        let v = chars_of(s);
        let jt = p_skip_ws(&v, 0);
        proof {
            assert(v@.skip(0) =~= v@);
        }
        let ghost t = skip_ws(v@);
        if jt >= v.len() {
            return Err(
                crate::model::ReportError::MalformedResult(
                    "the test result payload is empty".to_owned(),
                ),
            );
        }
        proof {
            assert(t[0] == v@[jt as int]);
            assert(t.skip(1) =~= v@.skip(jt + 1 as int));
        }
        if v[jt] != '{' {
            return Err(
                crate::model::ReportError::MalformedResult(
                    "the test result payload is not a JSON object".to_owned(),
                ),
            );
        }
        match p_top_members(&v, jt + 1, true, None, None) {
            Some(p) => {
                let (out, jr) = p;
                let jz = p_skip_ws(&v, jr);
                if jz >= v.len() {
                    proof {
                        assert(skip_ws(v@.skip(jr as int)).len() == 0);
                    }
                    Ok(out)
                } else {
                    proof {
                        assert(skip_ws(v@.skip(jr as int)).len() > 0);
                    }
                    Err(
                        crate::model::ReportError::MalformedResult(
                            "unexpected text after the test result object".to_owned(),
                        ),
                    )
                }
            },
            None => Err(
                crate::model::ReportError::MalformedResult(
                    "the test result object is malformed".to_owned(),
                ),
            ),
        }
    }
}

impl TestResult {
    /// The JSON rendering of this test run: the same shape, field names and
    /// order as the input record, with no added whitespace.
    pub fn json(&self) -> (r: String)
        ensures
            r@ == json_of(self@),
    {
        let ghost pitems = self@.passed.map_values(|n: Seq<char>| passed_json(n));
        let ghost fitems = self@.failed.map_values(|f: FailedTestView| failed_json(f));
        let mut out = String::new();
        push_char(&mut out, '{');
        push_jstring(&mut out, "passed");
        push_char(&mut out, ':');
        push_char(&mut out, '[');
        let ghost prefix1 = out@;
        let mut i: usize = 0;
        proof {
            assert(pitems.take(0) =~= Seq::<Seq<char>>::empty());
        }
        while i < self.passed.len()
            invariant
                i <= self.passed@.len(),
                pitems == self@.passed.map_values(|n: Seq<char>| passed_json(n)),
                pitems.len() == self.passed@.len(),
                out@ == prefix1 + join_with(pitems.take(i as int), seq![',']),
            decreases self.passed@.len() - i,
        {
            if i > 0 {
                push_char(&mut out, ',');
            }
            push_passed_obj(&mut out, self.passed[i].passed_test.as_str());
            proof {
                assert(pitems[i as int] == passed_json(self.passed@[i as int].passed_test@));
                assert(pitems.take(i + 1 as int) =~= pitems.take(i as int).push(pitems[i as int]));
                if i > 0 {
                    lemma_join_comma_snoc(pitems.take(i as int), pitems[i as int]);
                    assert(out@ =~= prefix1 + join_with(pitems.take(i + 1 as int), seq![',']));
                } else {
                    assert(pitems.take(1) =~= seq![pitems[0]]);
                    assert(out@ =~= prefix1 + join_with(pitems.take(1), seq![',']));
                }
            }
            i = i + 1;
        }
        proof {
            assert(pitems.take(pitems.len() as int) =~= pitems);
        }
        push_char(&mut out, ']');
        push_char(&mut out, ',');
        push_jstring(&mut out, "failed");
        push_char(&mut out, ':');
        push_char(&mut out, '[');
        let ghost prefix2 = out@;
        let mut k: usize = 0;
        proof {
            assert(fitems.take(0) =~= Seq::<Seq<char>>::empty());
        }
        while k < self.failed.len()
            invariant
                k <= self.failed@.len(),
                fitems == self@.failed.map_values(|f: FailedTestView| failed_json(f)),
                fitems.len() == self.failed@.len(),
                out@ == prefix2 + join_with(fitems.take(k as int), seq![',']),
            decreases self.failed@.len() - k,
        {
            if k > 0 {
                push_char(&mut out, ',');
            }
            push_failed_obj(&mut out, &self.failed[k]);
            proof {
                assert(fitems[k as int] == failed_json(self.failed@[k as int]@));
                assert(fitems.take(k + 1 as int) =~= fitems.take(k as int).push(fitems[k as int]));
                if k > 0 {
                    lemma_join_comma_snoc(fitems.take(k as int), fitems[k as int]);
                    assert(out@ =~= prefix2 + join_with(fitems.take(k + 1 as int), seq![',']));
                } else {
                    assert(fitems.take(1) =~= seq![fitems[0]]);
                    assert(out@ =~= prefix2 + join_with(fitems.take(1), seq![',']));
                }
            }
            k = k + 1;
        }
        proof {
            assert(fitems.take(fitems.len() as int) =~= fitems);
        }
        push_char(&mut out, ']');
        push_char(&mut out, '}');
        proof {
            assert(out@ =~= json_of(self@));
        }
        out
    }
}

proof fn lemma_hex_digit(d: nat)
    requires
        d < 16,
    ensures
        is_hex_char(hex_digit(d)),
        hex_val(hex_digit(d)) == d,
{
    if d < 10 {
        assert(hex_digit(d) as u32 == 48 + d);
    } else {
        assert(hex_digit(d) as u32 == 87 + d);
    }
}

#[verifier::rlimit(100)]
#[verifier::spinoff_prover]
proof fn lemma_string_body_roundtrip(s: Seq<char>, rest: Seq<char>)
    ensures
        parse_string_body(escape_str(s) + seq!['"'] + rest) == Some((s, rest)),
    decreases s.len(),
{
    let e = escape_str(s) + seq!['"'] + rest;
    if s.len() == 0 {
        assert(e =~= seq!['"'] + rest);
        assert(e[0] == '"');
        assert(e.skip(1) =~= rest);
        assert(parse_string_body(e) == Some((Seq::<char>::empty(), rest)));
        assert(Seq::<char>::empty() =~= s);
    } else {
        let c = s[0];
        let t = escape_str(s.skip(1)) + seq!['"'] + rest;
        assert(escape_str(s) == escape_char(c) + escape_str(s.skip(1)));
        assert(e =~= escape_char(c) + t);
        lemma_string_body_roundtrip(s.skip(1), rest);
        if c == '"' {
            assert(e =~= seq!['\\', '"'] + t);
            assert(e[0] == '\\');
            assert(e[1] == '"');
            assert(e.len() >= 2);
            assert(short_escape('"') == Some('"'));
            assert(e.skip(2) =~= t);
            assert(parse_string_body(e) == Some((seq!['"'] + s.skip(1), rest)));
            assert(seq!['"'] + s.skip(1) =~= s);
        } else if c == '\\' {
            assert(e =~= seq!['\\', '\\'] + t);
            assert(e[0] == '\\');
            assert(e[1] == '\\');
            assert(e.len() >= 2);
            assert(short_escape('\\') == Some('\\'));
            assert(e.skip(2) =~= t);
            assert(parse_string_body(e) == Some((seq!['\\'] + s.skip(1), rest)));
            assert(seq!['\\'] + s.skip(1) =~= s);
        } else if (c as u32) < 32 {
            let hi = ((c as u32) / 16) as nat;
            let lo = ((c as u32) % 16) as nat;
            assert(e =~= seq!['\\', 'u', '0', '0', hex_digit(hi), hex_digit(lo)] + t);
            assert(e[0] == '\\');
            assert(e[1] == 'u');
            let u = seq!['0', '0', hex_digit(hi), hex_digit(lo)] + t;
            assert(e.skip(2) =~= u);
            assert(u[0] == '0');
            assert(u[1] == '0');
            assert(u[2] == hex_digit(hi));
            assert(u[3] == hex_digit(lo));
            assert(u.len() >= 4);
            assert('0' as u32 == 48);
            assert(is_hex_char('0'));
            assert(hex_val('0') == 0);
            lemma_hex_digit(hi);
            lemma_hex_digit(lo);
            let code = hex_val(u[0]) * 4096 + hex_val(u[1]) * 256 + hex_val(u[2]) * 16 + hex_val(
                u[3],
            );
            assert(code == hi * 16 + lo);
            assert(code == c as u32);
            assert(code < 0xD800);
            vstd::utf8::char_u32_cast(c, c as u32);
            assert(char_of_code(code) == c);
            assert(u.skip(4) =~= t);
            assert(parse_unicode_escape(u) == Some((c, t)));
            assert(t.len() < e.len());
            assert(parse_string_body(e) == Some((seq![c] + s.skip(1), rest)));
            assert(seq![c] + s.skip(1) =~= s);
        } else {
            assert(e =~= seq![c] + t);
            assert(e[0] == c);
            assert(e.skip(1) =~= t);
            assert(parse_string_body(e) == Some((seq![c] + s.skip(1), rest)));
            assert(seq![c] + s.skip(1) =~= s);
        }
    }
}

proof fn lemma_string_roundtrip(s: Seq<char>, rest: Seq<char>)
    ensures
        parse_string(jstring_of(s) + rest) == Some((s, rest)),
{
    let e = jstring_of(s) + rest;
    assert(e =~= seq!['"'] + (escape_str(s) + seq!['"'] + rest));
    assert(e[0] == '"');
    assert(e.skip(1) =~= escape_str(s) + seq!['"'] + rest);
    lemma_string_body_roundtrip(s, rest);
}

#[verifier::rlimit(50)]
proof fn lemma_passed_roundtrip(name: Seq<char>, rest: Seq<char>)
    ensures
        parse_passed(passed_json(name) + rest) == Some((name, rest)),
{
    let r3 = jstring_of(name) + (seq!['}'] + rest);
    let r2 = seq![':'] + r3;
    let r1 = jstring_of("passedTest"@) + r2;
    let e = passed_json(name) + rest;
    assert(e =~= seq!['{'] + r1);
    assert(e[0] == '{');
    assert(e.skip(1) =~= r1);
    assert(r1[0] == '"');
    assert(!is_ws('"'));
    assert(skip_ws(r1) == r1);
    assert(r1.skip(1) =~= escape_str("passedTest"@) + seq!['"'] + r2);
    lemma_string_body_roundtrip("passedTest"@, r2);
    assert(parse_string_body(r1.skip(1)) == Some(("passedTest"@, r2)));
    assert(r2[0] == ':');
    assert(!is_ws(':'));
    assert(skip_ws(r2) == r2);
    assert(r2.skip(1) =~= r3);
    assert(r3[0] == '"');
    assert(skip_ws(r3) == r3);
    lemma_string_roundtrip(name, seq!['}'] + rest);
    assert(parse_string(r3) == Some((name, seq!['}'] + rest)));
    let z = seq!['}'] + rest;
    assert(z[0] == '}');
    assert(!is_ws('}'));
    assert(skip_ws(z) == z);
    assert(z.skip(1) =~= rest);
    assert(parse_passed_members(r1, true, None) == Some((name, rest)));
}

#[verifier::rlimit(100)]
#[verifier::spinoff_prover]
proof fn lemma_failed_member_result(f: FailedTestView, rest: Seq<char>)
    ensures
        parse_failed_members(
            jstring_of("result"@) + (seq![':'] + (jstring_of(f.result) + (seq!['}'] + rest))),
            false,
            Some(f.expected),
            Some(f.failed_test),
            None,
        ) == Some((f, rest)),
{
    reveal_strlit("expected");
    reveal_strlit("failedTest");
    reveal_strlit("result");
    assert("expected"@.len() == 8);
    assert("failedTest"@.len() == 10);
    assert("result"@.len() == 6);
    let tail3 = seq!['}'] + rest;
    let m3 = jstring_of("result"@) + (seq![':'] + (jstring_of(f.result) + tail3));
    assert(m3[0] == '"');
    assert(skip_ws(m3) == m3);
    let t2 = seq![':'] + (jstring_of(f.result) + tail3);
    assert(m3.skip(1) =~= escape_str("result"@) + seq!['"'] + t2);
    lemma_string_body_roundtrip("result"@, t2);
    assert(t2[0] == ':');
    assert(skip_ws(t2) == t2);
    let t3 = jstring_of(f.result) + tail3;
    assert(t2.skip(1) =~= t3);
    assert(t3[0] == '"');
    assert(skip_ws(t3) == t3);
    lemma_string_roundtrip(f.result, tail3);
    assert(tail3[0] == '}');
    assert(skip_ws(tail3) == tail3);
    assert(tail3.skip(1) =~= rest);
    assert("result"@ != "expected"@ && "result"@ != "failedTest"@);
    assert(finish_failed(Some(f.expected), Some(f.failed_test), Some(f.result), rest) == Some(
        (FailedTestView { expected: f.expected, failed_test: f.failed_test, result: f.result },
        rest),
    ));
    assert(FailedTestView {
        expected: f.expected,
        failed_test: f.failed_test,
        result: f.result,
    } =~= f);
}

#[verifier::rlimit(100)]
#[verifier::spinoff_prover]
proof fn lemma_failed_member_name(f: FailedTestView, rest: Seq<char>)
    ensures
        parse_failed_members(
            jstring_of("failedTest"@) + (seq![':'] + (jstring_of(f.failed_test) + (seq![',']
                + (jstring_of("result"@) + (seq![':'] + (jstring_of(f.result) + (seq!['}']
                + rest))))))),
            false,
            Some(f.expected),
            None,
            None,
        ) == Some((f, rest)),
{
    reveal_strlit("expected");
    reveal_strlit("failedTest");
    reveal_strlit("result");
    assert("expected"@.len() == 8);
    assert("failedTest"@.len() == 10);
    assert("result"@.len() == 6);
    let m3 = jstring_of("result"@) + (seq![':'] + (jstring_of(f.result) + (seq!['}'] + rest)));
    let m2 = jstring_of("failedTest"@) + (seq![':'] + (jstring_of(f.failed_test) + (seq![',']
        + m3)));
    assert(m2[0] == '"');
    assert(skip_ws(m2) == m2);
    let s2 = seq![':'] + (jstring_of(f.failed_test) + (seq![','] + m3));
    assert(m2.skip(1) =~= escape_str("failedTest"@) + seq!['"'] + s2);
    lemma_string_body_roundtrip("failedTest"@, s2);
    assert(s2[0] == ':');
    assert(skip_ws(s2) == s2);
    let s3 = jstring_of(f.failed_test) + (seq![','] + m3);
    assert(s2.skip(1) =~= s3);
    assert(s3[0] == '"');
    assert(skip_ws(s3) == s3);
    lemma_string_roundtrip(f.failed_test, seq![','] + m3);
    let z2 = seq![','] + m3;
    assert(z2[0] == ',');
    assert(skip_ws(z2) == z2);
    assert(z2.skip(1) =~= m3);
    assert("failedTest"@ != "expected"@ && "failedTest"@ != "result"@);
    lemma_failed_member_result(f, rest);
}

#[verifier::rlimit(100)]
#[verifier::spinoff_prover]
proof fn lemma_failed_roundtrip(f: FailedTestView, rest: Seq<char>)
    ensures
        parse_failed(failed_json(f) + rest) == Some((f, rest)),
{
    reveal_strlit("expected");
    reveal_strlit("failedTest");
    reveal_strlit("result");
    assert("expected"@.len() == 8);
    assert("failedTest"@.len() == 10);
    assert("result"@.len() == 6);
    let m3 = jstring_of("result"@) + (seq![':'] + (jstring_of(f.result) + (seq!['}'] + rest)));
    let m2 = jstring_of("failedTest"@) + (seq![':'] + (jstring_of(f.failed_test) + (seq![',']
        + m3)));
    let m1 = jstring_of("expected"@) + (seq![':'] + (jstring_of(f.expected) + (seq![','] + m2)));
    let e = failed_json(f) + rest;
    assert(e =~= seq!['{'] + m1);
    assert(e[0] == '{');
    assert(e.skip(1) =~= m1);
    assert(m1[0] == '"');
    assert(skip_ws(m1) == m1);
    let r2 = seq![':'] + (jstring_of(f.expected) + (seq![','] + m2));
    assert(m1.skip(1) =~= escape_str("expected"@) + seq!['"'] + r2);
    lemma_string_body_roundtrip("expected"@, r2);
    assert(r2[0] == ':');
    assert(skip_ws(r2) == r2);
    let r3 = jstring_of(f.expected) + (seq![','] + m2);
    assert(r2.skip(1) =~= r3);
    assert(r3[0] == '"');
    assert(skip_ws(r3) == r3);
    lemma_string_roundtrip(f.expected, seq![','] + m2);
    let z1 = seq![','] + m2;
    assert(z1[0] == ',');
    assert(skip_ws(z1) == z1);
    assert(z1.skip(1) =~= m2);
    assert("expected"@ != "failedTest"@ && "expected"@ != "result"@);
    lemma_failed_member_name(f, rest);
    assert(parse_failed_members(m1, true, None, None, None) == parse_failed_members(
        m2,
        false,
        Some(f.expected),
        None,
        None,
    ));
}

#[verifier::rlimit(100)]
#[verifier::spinoff_prover]
proof fn lemma_passed_items_roundtrip(
    names: Seq<Seq<char>>,
    first: bool,
    acc: Seq<Seq<char>>,
    rest: Seq<char>,
)
    requires
        names.len() >= 1,
    ensures
        parse_passed_items(
            join_with(names.map_values(|n: Seq<char>| passed_json(n)), seq![',']) + seq![']']
                + rest,
            first,
            acc,
        ) == Some((acc + names, rest)),
    decreases names.len(),
{
    let items = names.map_values(|n: Seq<char>| passed_json(n));
    let e = join_with(items, seq![',']) + seq![']'] + rest;
    assert(items[0] == passed_json(names[0]));
    if names.len() == 1 {
        assert(join_with(items, seq![',']) == items[0]);
        assert(e =~= passed_json(names[0]) + (seq![']'] + rest));
        lemma_passed_roundtrip(names[0], seq![']'] + rest);
        assert(skip_ws(e) == e);
        assert(e[0] == '{');
        let z = seq![']'] + rest;
        assert(z[0] == ']');
        assert(skip_ws(z) == z);
        assert(z.skip(1) =~= rest);
        assert(acc.push(names[0]) =~= acc + names);
    } else {
        let jrest = join_with(items.skip(1), seq![',']);
        assert(join_with(items, seq![',']) == items[0] + seq![','] + jrest);
        let e2 = jrest + seq![']'] + rest;
        assert(e =~= passed_json(names[0]) + (seq![','] + e2));
        lemma_passed_roundtrip(names[0], seq![','] + e2);
        assert(skip_ws(e) == e);
        assert(e[0] == '{');
        let z = seq![','] + e2;
        assert(z[0] == ',');
        assert(skip_ws(z) == z);
        assert(z.skip(1) =~= e2);
        assert(items.skip(1) =~= names.skip(1).map_values(|n: Seq<char>| passed_json(n)));
        lemma_passed_items_roundtrip(names.skip(1), false, acc.push(names[0]), rest);
        assert(acc.push(names[0]) + names.skip(1) =~= acc + names);
        assert(e2.len() < e.len());
    }
}

#[verifier::spinoff_prover]
proof fn lemma_passed_array_roundtrip(names: Seq<Seq<char>>, rest: Seq<char>)
    ensures
        parse_passed_array(
            json_array(names.map_values(|n: Seq<char>| passed_json(n))) + rest,
        ) == Some((names, rest)),
{
    let items = names.map_values(|n: Seq<char>| passed_json(n));
    let e = json_array(items) + rest;
    assert(e =~= seq!['['] + (join_with(items, seq![',']) + seq![']'] + rest));
    assert(e[0] == '[');
    assert(e.skip(1) =~= join_with(items, seq![',']) + seq![']'] + rest);
    if names.len() == 0 {
        assert(join_with(items, seq![',']) == Seq::<char>::empty());
        assert(e.skip(1) =~= seq![']'] + rest);
        let t = seq![']'] + rest;
        assert(t[0] == ']');
        assert(skip_ws(t) == t);
        assert(t.skip(1) =~= rest);
        assert(Seq::<Seq<char>>::empty() + names =~= names);
        assert(parse_passed_items(e.skip(1), true, Seq::empty()) == Some((names, rest)));
    } else {
        lemma_passed_items_roundtrip(names, true, Seq::empty(), rest);
        assert(Seq::<Seq<char>>::empty() + names =~= names);
    }
}

#[verifier::rlimit(100)]
#[verifier::spinoff_prover]
proof fn lemma_failed_items_roundtrip(
    records: Seq<FailedTestView>,
    first: bool,
    acc: Seq<FailedTestView>,
    rest: Seq<char>,
)
    requires
        records.len() >= 1,
    ensures
        parse_failed_items(
            join_with(records.map_values(|f: FailedTestView| failed_json(f)), seq![',']) + seq![
                ']',
            ] + rest,
            first,
            acc,
        ) == Some((acc + records, rest)),
    decreases records.len(),
{
    let items = records.map_values(|f: FailedTestView| failed_json(f));
    let e = join_with(items, seq![',']) + seq![']'] + rest;
    assert(items[0] == failed_json(records[0]));
    if records.len() == 1 {
        assert(join_with(items, seq![',']) == items[0]);
        assert(e =~= failed_json(records[0]) + (seq![']'] + rest));
        lemma_failed_roundtrip(records[0], seq![']'] + rest);
        assert(skip_ws(e) == e);
        assert(e[0] == '{');
        let z = seq![']'] + rest;
        assert(z[0] == ']');
        assert(skip_ws(z) == z);
        assert(z.skip(1) =~= rest);
        assert(acc.push(records[0]) =~= acc + records);
    } else {
        let jrest = join_with(items.skip(1), seq![',']);
        assert(join_with(items, seq![',']) == items[0] + seq![','] + jrest);
        let e2 = jrest + seq![']'] + rest;
        assert(e =~= failed_json(records[0]) + (seq![','] + e2));
        lemma_failed_roundtrip(records[0], seq![','] + e2);
        assert(skip_ws(e) == e);
        assert(e[0] == '{');
        let z = seq![','] + e2;
        assert(z[0] == ',');
        assert(skip_ws(z) == z);
        assert(z.skip(1) =~= e2);
        assert(items.skip(1) =~= records.skip(1).map_values(|f: FailedTestView| failed_json(f)));
        lemma_failed_items_roundtrip(records.skip(1), false, acc.push(records[0]), rest);
        assert(acc.push(records[0]) + records.skip(1) =~= acc + records);
        assert(e2.len() < e.len());
    }
}

#[verifier::rlimit(100)]
#[verifier::spinoff_prover]
proof fn lemma_failed_array_roundtrip(records: Seq<FailedTestView>, rest: Seq<char>)
    ensures
        parse_failed_array(
            json_array(records.map_values(|f: FailedTestView| failed_json(f))) + rest,
        ) == Some((records, rest)),
{
    let items = records.map_values(|f: FailedTestView| failed_json(f));
    let e = json_array(items) + rest;
    assert(e =~= seq!['['] + (join_with(items, seq![',']) + seq![']'] + rest));
    assert(e[0] == '[');
    assert(e.skip(1) =~= join_with(items, seq![',']) + seq![']'] + rest);
    if records.len() == 0 {
        assert(join_with(items, seq![',']) == Seq::<char>::empty());
        assert(e.skip(1) =~= seq![']'] + rest);
        let t = seq![']'] + rest;
        assert(t[0] == ']');
        assert(skip_ws(t) == t);
        assert(t.skip(1) =~= rest);
        assert(Seq::<FailedTestView>::empty() + records =~= records);
        assert(parse_failed_items(e.skip(1), true, Seq::empty()) == Some((records, rest)));
    } else {
        lemma_failed_items_roundtrip(records, true, Seq::empty(), rest);
        assert(Seq::<FailedTestView>::empty() + records =~= records);
    }
}

/// The JSON renderer and the result-model parser are inverses, field for
/// field: parsing the JSON rendering of any test run yields exactly that run.
#[verifier::rlimit(100)]
#[verifier::spinoff_prover]
pub proof fn lemma_json_roundtrip(v: TestResultView)
    ensures
        parse_top(json_of(v)) == Some(v),
{
    reveal_strlit("passed");
    reveal_strlit("failed");
    assert("passed"@.len() == 6);
    assert("passed"@[0] == 'p');
    assert("failed"@[0] == 'f');
    let parr = json_array(v.passed.map_values(|n: Seq<char>| passed_json(n)));
    let farr = json_array(v.failed.map_values(|f: FailedTestView| failed_json(f)));
    let t2 = jstring_of("failed"@) + (seq![':'] + (farr + seq!['}']));
    let t1 = jstring_of("passed"@) + (seq![':'] + (parr + (seq![','] + t2)));
    let e = json_of(v);
    assert(e =~= seq!['{'] + t1);
    assert(e[0] == '{');
    assert(!is_ws('{'));
    assert(skip_ws(e) == e);
    assert(e.skip(1) =~= t1);
    // first member: "passed"
    assert(t1[0] == '"');
    assert(skip_ws(t1) == t1);
    let r2 = seq![':'] + (parr + (seq![','] + t2));
    assert(t1.skip(1) =~= escape_str("passed"@) + seq!['"'] + r2);
    lemma_string_body_roundtrip("passed"@, r2);
    assert(r2[0] == ':');
    assert(skip_ws(r2) == r2);
    let r3 = parr + (seq![','] + t2);
    assert(r2.skip(1) =~= r3);
    assert(r3[0] == '[');
    assert(skip_ws(r3) == r3);
    lemma_passed_array_roundtrip(v.passed, seq![','] + t2);
    assert(parse_passed_array(r3) == Some((v.passed, seq![','] + t2)));
    let z1 = seq![','] + t2;
    assert(z1[0] == ',');
    assert(skip_ws(z1) == z1);
    assert(z1.skip(1) =~= t2);
    assert("passed"@ != "failed"@);
    assert(parse_top_members(t1, true, None, None) == parse_top_members(
        t2,
        false,
        Some(v.passed),
        None,
    ));
    // second member: "failed"
    assert(t2[0] == '"');
    assert(skip_ws(t2) == t2);
    let s2 = seq![':'] + (farr + seq!['}']);
    assert(t2.skip(1) =~= escape_str("failed"@) + seq!['"'] + s2);
    lemma_string_body_roundtrip("failed"@, s2);
    assert(s2[0] == ':');
    assert(skip_ws(s2) == s2);
    let s3 = farr + seq!['}'];
    assert(s2.skip(1) =~= s3);
    assert(s3[0] == '[');
    assert(skip_ws(s3) == s3);
    lemma_failed_array_roundtrip(v.failed, seq!['}']);
    assert(parse_failed_array(s3) == Some((v.failed, seq!['}'])));
    let z2 = seq!['}'];
    assert(z2[0] == '}');
    assert(skip_ws(z2) == z2);
    assert(z2.skip(1) =~= Seq::<char>::empty());
    assert(finish_top(Some(v.passed), Some(v.failed), Seq::empty()) == Some(
        (TestResultView { passed: v.passed, failed: v.failed }, Seq::<char>::empty()),
    ));
    assert(TestResultView { passed: v.passed, failed: v.failed } =~= v);
    assert(parse_top_members(t2, false, Some(v.passed), None) == Some(
        (v, Seq::<char>::empty()),
    ));
    assert(skip_ws(Seq::<char>::empty()).len() == 0);
}

} // verus!
