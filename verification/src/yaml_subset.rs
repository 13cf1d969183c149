//! The lexical check of the Masterdata YAML subset: plain scalars that YAML
//! would read as something else are refused or quoted before the document
//! reaches a YAML parser.

use vstd::prelude::*;

use crate::numeric::{
    all_digits, all_digits_in, find_char, find_exponent_marker, first_exponent_marker, first_index_of, is_digit,
    lemma_first_exponent_marker, lemma_first_index_of,
};
use crate::config_edit::{contains_char, lines_from, lines_view, newline_from, skip_space, skip_space_at, source_lines, split_lines, trim_end_at, trim_end_from, Quote, SourceLine};
use crate::error::{fresh_diagnostic, DiagnosticView, ErrorKind, MasterdataError};
use crate::text::{chars_of, is_ascii_whitespace, splice_chars, str_eq, string_from_chars, string_from_range};

verus! {

pub open spec fn ascii_lower(c: char) -> char {
    if 'A' <= c && c <= 'Z' { ((c as int) + 32) as char } else { c }
}

/// Whether `v` lowercased (ASCII letters only) is `lower`.
pub open spec fn lowers_to(v: Seq<char>, lower: Seq<char>) -> bool {
    v.len() == lower.len() && forall|i: int| 0 <= i < v.len() ==> ascii_lower(#[trigger] v[i]) == lower[i]
}

/// `s` without one leading `c`.
pub open spec fn without_prefix(s: Seq<char>, c: char) -> Seq<char> {
    if s.len() > 0 && s[0] == c { s.drop_first() } else { s }
}

/// `s` without one leading `+` or `-`.
pub open spec fn without_sign(s: Seq<char>) -> Seq<char> {
    if s.len() > 0 && (s[0] == '+' || s[0] == '-') { s.drop_first() } else { s }
}

/// NaN and infinity spellings, ASCII case ignored.
pub open spec fn nonfinite_float(v: Seq<char>) -> bool {
    ||| lowers_to(v, "nan"@) ||| lowers_to(v, "+nan"@) ||| lowers_to(v, "-nan"@)
    ||| lowers_to(v, "infinity"@) ||| lowers_to(v, "+infinity"@) ||| lowers_to(v, "-infinity"@)
    ||| lowers_to(v, ".nan"@) ||| lowers_to(v, "+.nan"@) ||| lowers_to(v, "-.nan"@)
    ||| lowers_to(v, ".inf"@) ||| lowers_to(v, "+.inf"@) ||| lowers_to(v, "-.inf"@)
    ||| lowers_to(v, "inf"@) ||| lowers_to(v, "+inf"@) ||| lowers_to(v, "-inf"@)
}

/// The integer grammar: `0`, `-0`, or an optional `-` and digits without a
/// leading zero.
pub open spec fn integer_lexeme(v: Seq<char>) -> bool {
    let digits = without_prefix(v, '-');
    ||| v == "0"@
    ||| v == "-0"@
    ||| digits.len() > 0 && is_digit(digits[0]) && digits[0] != '0' && all_digits(digits)
}

/// The float grammar: an optional `-`, then `digits.digits`, optionally
/// with one exponent, or digits with an exponent; the exponent an optional
/// sign and digits.
pub open spec fn float_lexeme(value: Seq<char>) -> bool {
    let v = without_prefix(value, '-');
    let e = first_exponent_marker(v);
    let mantissa = v.subrange(0, e);
    let exponent = if e < v.len() { without_sign(v.subrange(e + 1, v.len() as int)) } else { Seq::empty() };
    let dot = first_index_of(mantissa, '.');
    &&& v.len() > 0 && v[0] != '+'
    &&& e < v.len() ==> first_exponent_marker(v.subrange(e + 1, v.len() as int)) == v.len() - e - 1
    &&& e < v.len() ==> exponent.len() > 0 && all_digits(exponent)
    &&& if dot < mantissa.len() {
        dot > 0 && dot + 1 < mantissa.len() && all_digits(mantissa.subrange(0, dot))
            && all_digits(mantissa.subrange(dot + 1, mantissa.len() as int))
    } else {
        e < v.len() && all_digits(mantissa)
    }
}

/// A scalar that reads as a float: a NaN or infinity, a `.`, or digits
/// before an exponent marker.
pub open spec fn float_like(v: Seq<char>) -> bool {
    let u = without_sign(v);
    let e = first_exponent_marker(u);
    ||| nonfinite_float(v)
    ||| v.contains('.')
    ||| e < u.len() && all_digits(u.subrange(0, e))
}

pub open spec fn digit_dot_underscore(c: char) -> bool {
    is_digit(c) || c == '.' || c == '_'
}

pub open spec fn all_number_chars(s: Seq<char>) -> bool {
    forall|i: int| 0 <= i < s.len() ==> digit_dot_underscore(#[trigger] s[i])
}

/// A scalar YAML could read as a number: a NaN or infinity, a `.` and a
/// digit, or a digit start with digits, a base prefix, an exponent, or
/// digits, dots and underscores.
pub open spec fn numeric_looking(v: Seq<char>) -> bool {
    let u = without_sign(v);
    if u.len() == 0 {
        false
    } else if nonfinite_float(v) {
        true
    } else if u[0] == '.' {
        u.len() > 1 && is_digit(u[1])
    } else if is_digit(u[0]) {
        let e = first_exponent_marker(u);
        if all_digits(u) {
            true
        } else if u.len() > 1 && u[0] == '0' && (u[1] == 'x' || u[1] == 'X' || u[1] == 'o' || u[1] == 'O' || u[1] == 'b' || u[1] == 'B') {
            true
        } else if e < u.len() {
            let mantissa = u.subrange(0, e);
            let exponent = without_sign(u.subrange(e + 1, u.len() as int));
            &&& mantissa.len() > 0
            &&& all_number_chars(mantissa)
            &&& exists|i: int| 0 <= i < mantissa.len() && is_digit(#[trigger] mantissa[i])
            &&& exponent.len() > 0
            &&& all_digits(exponent)
        } else {
            all_number_chars(u)
        }
    } else {
        false
    }
}

/// YAML 1.1 booleans and nulls in other spellings, which the subset keeps
/// as strings by quoting them.
pub open spec fn noncanonical_word(token: Seq<char>) -> bool {
    let lowered = lowers_to(token, "true"@) || lowers_to(token, "false"@) || lowers_to(token, "null"@)
        || lowers_to(token, "yes"@) || lowers_to(token, "no"@) || lowers_to(token, "on"@) || lowers_to(token, "off"@);
    lowered && token != "true"@ && token != "false"@ && token != "null"@
}

/// What the lexical check does with a plain scalar token.
pub enum ScalarCheck {
    Accept,
    Quote(Seq<char>),
    Reject(Seq<char>, Seq<char>, Seq<char>),
}

/// Whether the value, leading whitespace skipped, starts with `'` or `"`.
pub open spec fn quoted_scalar(v: Seq<char>) -> bool {
    let k = skip_space(v, 0, v.len() as int);
    k < v.len() && (v[k] == '\'' || v[k] == '"')
}

/// The check of a plain scalar token; `type_integer` when it is an enum or
/// flags member's `value`.
pub open spec fn plain_scalar_check(token: Seq<char>, type_integer: bool) -> ScalarCheck {
    if token.len() == 0 || quoted_scalar(token) {
        ScalarCheck::Accept
    } else if type_integer && (numeric_looking(token) || nonfinite_float(token)) {
        if integer_lexeme(token) {
            ScalarCheck::Accept
        } else {
            ScalarCheck::Reject("E-YAML-INVALID-INTEGER"@,
                "Enum/Flags member integer `"@ + token + "` does not match the Masterdata YAML integer grammar"@,
                "YAML-SUBSET-011"@)
        }
    } else if token == "~"@ {
        ScalarCheck::Reject("E-YAML-INVALID-NULL"@, "`~` is not supported as a Masterdata null literal"@, "YAML-SUBSET-010"@)
    } else if noncanonical_word(token) {
        ScalarCheck::Quote(seq!['\''] + token + seq!['\''])
    } else if token == "true"@ || token == "false"@ || token == "null"@ {
        ScalarCheck::Accept
    } else if nonfinite_float(token) || numeric_looking(token) {
        if integer_lexeme(token) || float_lexeme(token) {
            ScalarCheck::Accept
        } else if float_like(token) {
            ScalarCheck::Reject("E-YAML-INVALID-FLOAT"@,
                "floating-point scalar `"@ + token + "` is not supported by the Masterdata YAML subset"@, "YAML-SUBSET-012"@)
        } else {
            ScalarCheck::Reject("E-YAML-INVALID-INTEGER"@,
                "integer scalar `"@ + token + "` is not supported by the Masterdata YAML subset"@, "YAML-SUBSET-011"@)
        }
    } else {
        ScalarCheck::Accept
    }
}


pub(crate) fn ascii_lower_of(c: char) -> (lower: char)
    ensures
        lower == ascii_lower(c),
{
    if 'A' <= c && c <= 'Z' {
        let b = c as u8;
        assert(b == c as int);
        (b + 32) as char
    } else {
        c
    }
}

fn lowers_to_text(v: &Vec<char>, lower: &str) -> (result: bool)
    ensures
        result == lowers_to(v@, lower@),
{
    let l = chars_of(lower);
    if v.len() != l.len() {
        return false;
    }
    let mut i: usize = 0;
    while i < v.len()
        invariant
            i <= v@.len(),
            v@.len() == l@.len(),
            l@ == lower@,
            forall|k: int| 0 <= k < i ==> ascii_lower(#[trigger] v@[k]) == l@[k],
        decreases v@.len() - i,
    {
        if ascii_lower_of(v[i]) != l[i] {
            return false;
        }
        i = i + 1;
    }
    true
}

fn is_nonfinite_float(v: &Vec<char>) -> (result: bool)
    ensures
        result == nonfinite_float(v@),
{
    lowers_to_text(v, "nan") || lowers_to_text(v, "+nan") || lowers_to_text(v, "-nan")
        || lowers_to_text(v, "infinity") || lowers_to_text(v, "+infinity") || lowers_to_text(v, "-infinity")
        || lowers_to_text(v, ".nan") || lowers_to_text(v, "+.nan") || lowers_to_text(v, "-.nan")
        || lowers_to_text(v, ".inf") || lowers_to_text(v, "+.inf") || lowers_to_text(v, "-.inf")
        || lowers_to_text(v, "inf") || lowers_to_text(v, "+inf") || lowers_to_text(v, "-inf")
}

fn equals_text(v: &Vec<char>, text: &str) -> (result: bool)
    ensures
        result == (v@ == text@),
{
    let t = chars_of(text);
    if v.len() != t.len() {
        return false;
    }
    let mut i: usize = 0;
    while i < v.len()
        invariant
            i <= v@.len(),
            v@.len() == t@.len(),
            t@ == text@,
            forall|k: int| 0 <= k < i ==> v@[k] == t@[k],
        decreases v@.len() - i,
    {
        if v[i] != t[i] {
            return false;
        }
        i = i + 1;
    }
    proof {
        assert(v@ =~= t@);
    }
    true
}

fn is_integer_lexeme(v: &Vec<char>) -> (result: bool)
    ensures
        result == integer_lexeme(v@),
{
    if equals_text(v, "0") || equals_text(v, "-0") {
        return true;
    }
    let from: usize = if v.len() > 0 && v[0] == '-' { 1 } else { 0 };
    proof {
        assert(without_prefix(v@, '-') =~= v@.subrange(from as int, v@.len() as int));
    }
    from < v.len() && '0' <= v[from] && v[from] <= '9' && v[from] != '0' && all_digits_in(v.as_slice(), from, v.len())
}

fn is_float_lexeme(value: &Vec<char>) -> (result: bool)
    ensures
        result == float_lexeme(value@),
{
    let from: usize = if value.len() > 0 && value[0] == '-' { 1 } else { 0 };
    let n = value.len();
    let ghost v = without_prefix(value@, '-');
    proof {
        assert(v =~= value@.subrange(from as int, n as int));
    }
    if from >= n || value[from] == '+' {
        return false;
    }
    proof {
        assert(v[0] == value@[from as int]);
    }
    let e = find_exponent_marker(value.as_slice(), from, n);
    proof {
        lemma_first_exponent_marker(v);
    }
    let ghost ev = e - from;
    if e < n {
        let again = find_exponent_marker(value.as_slice(), e + 1, n);
        proof {
            assert(value@.subrange(e + 1, n as int) =~= v.subrange(ev + 1, v.len() as int));
            lemma_first_exponent_marker(value@.subrange(e + 1, n as int));
        }
        if again < n {
            return false;
        }
        proof {
            assert(first_exponent_marker(v.subrange(ev + 1, v.len() as int)) == v.len() - ev - 1);
        }
        let sign: usize = if e + 1 < n && (value[e + 1] == '+' || value[e + 1] == '-') { 1 } else { 0 };
        proof {
            assert(without_sign(v.subrange(ev + 1, v.len() as int)) =~= value@.subrange(e + 1 + sign, n as int));
        }
        if e + 1 + sign >= n || !all_digits_in(value.as_slice(), e + 1 + sign, n) {
            return false;
        }
    }
    let dot = find_char(value.as_slice(), from, e, '.');
    proof {
        assert(v.subrange(0, ev) =~= value@.subrange(from as int, e as int));
        lemma_first_index_of(v.subrange(0, ev), '.');
    }
    proof {
        assert(ev == first_exponent_marker(v));
        assert(e < n <==> ev < v.len());
    }
    if dot < e {
        proof {
            assert(v.subrange(0, ev).subrange(0, dot - from) =~= value@.subrange(from as int, dot as int));
            assert(v.subrange(0, ev).subrange(dot - from + 1, ev) =~= value@.subrange(dot + 1, e as int));
        }
        dot > from && dot + 1 < e && all_digits_in(value.as_slice(), from, dot) && all_digits_in(value.as_slice(), dot + 1, e)
    } else {
        e < n && all_digits_in(value.as_slice(), from, e)
    }
}


fn sign_length(v: &Vec<char>) -> (k: usize)
    ensures
        k <= v@.len(),
        without_sign(v@) =~= v@.subrange(k as int, v@.len() as int),
{
    if v.len() > 0 && (v[0] == '+' || v[0] == '-') { 1 } else { 0 }
}

fn is_float_like(v: &Vec<char>) -> (result: bool)
    ensures
        result == float_like(v@),
{
    if is_nonfinite_float(v) || contains_char(v, '.') {
        return true;
    }
    let n = v.len();
    let from = sign_length(v);
    let e = find_exponent_marker(v.as_slice(), from, n);
    proof {
        lemma_first_exponent_marker(v@.subrange(from as int, n as int));
        let u = without_sign(v@);
        assert(u.subrange(0, e - from) =~= v@.subrange(from as int, e as int));
    }
    e < n && all_digits_in(v.as_slice(), from, e)
}

fn all_number_chars_in(s: &Vec<char>, from: usize, to: usize) -> (result: bool)
    requires
        from <= to <= s@.len(),
    ensures
        result == all_number_chars(s@.subrange(from as int, to as int)),
{
    let ghost sub = s@.subrange(from as int, to as int);
    let mut i = from;
    while i < to
        invariant
            from <= i <= to <= s@.len(),
            sub == s@.subrange(from as int, to as int),
            forall|j: int| from <= j < i ==> digit_dot_underscore(#[trigger] s@[j]),
        decreases to - i,
    {
        let c = s[i];
        if !(('0' <= c && c <= '9') || c == '.' || c == '_') {
            proof {
                assert(sub[i - from] == s@[i as int]);
            }
            return false;
        }
        i = i + 1;
    }
    proof {
        assert forall|j: int| 0 <= j < sub.len() implies digit_dot_underscore(#[trigger] sub[j]) by {
            assert(sub[j] == s@[from + j]);
        }
    }
    true
}

fn any_digit_in(s: &Vec<char>, from: usize, to: usize) -> (result: bool)
    requires
        from <= to <= s@.len(),
    ensures
        result == exists|i: int| 0 <= i < to - from && is_digit(#[trigger] s@.subrange(from as int, to as int)[i]),
{
    let ghost sub = s@.subrange(from as int, to as int);
    let mut i = from;
    while i < to
        invariant
            from <= i <= to <= s@.len(),
            sub == s@.subrange(from as int, to as int),
            forall|j: int| from <= j < i ==> !is_digit(#[trigger] s@[j]),
        decreases to - i,
    {
        if '0' <= s[i] && s[i] <= '9' {
            proof {
                assert(is_digit(sub[i - from]));
            }
            return true;
        }
        i = i + 1;
    }
    proof {
        assert forall|j: int| 0 <= j < to - from implies !is_digit(#[trigger] sub[j]) by {
            assert(sub[j] == s@[from + j]);
        }
    }
    false
}

#[verifier::rlimit(30)]
fn looks_numeric(v: &Vec<char>) -> (result: bool)
    ensures
        result == numeric_looking(v@),
{
    let n = v.len();
    let from = sign_length(v);
    let ghost u = without_sign(v@);
    if from >= n {
        return false;
    }
    if is_nonfinite_float(v) {
        return true;
    }
    let c = v[from];
    proof {
        assert(u[0] == c);
    }
    if c == '.' {
        proof {
            if n - from > 1 {
                assert(u[1] == v@[from + 1]);
            }
        }
        return n - from > 1 && '0' <= v[from + 1] && v[from + 1] <= '9';
    }
    if !('0' <= c && c <= '9') {
        return false;
    }
    if all_digits_in(v.as_slice(), from, n) {
        return true;
    }
    if n - from > 1 && c == '0' {
        let b = v[from + 1];
        proof {
            assert(u[1] == b);
        }
        if b == 'x' || b == 'X' || b == 'o' || b == 'O' || b == 'b' || b == 'B' {
            return true;
        }
    }
    let e = find_exponent_marker(v.as_slice(), from, n);
    let ghost ev = e - from;
    proof {
        lemma_first_exponent_marker(v@.subrange(from as int, n as int));
        assert(u.subrange(0, ev) =~= v@.subrange(from as int, e as int));
    }
    if e < n {
        let sign: usize = if e + 1 < n && (v[e + 1] == '+' || v[e + 1] == '-') { 1 } else { 0 };
        proof {
            assert(without_sign(u.subrange(ev + 1, u.len() as int)) =~= v@.subrange(e + 1 + sign, n as int));
        }
        return e > from && all_number_chars_in(v, from, e) && any_digit_in(v, from, e) && e + 1 + sign < n
            && all_digits_in(v.as_slice(), e + 1 + sign, n);
    }
    all_number_chars_in(v, from, n)
}

fn is_noncanonical_word(token: &Vec<char>) -> (result: bool)
    ensures
        result == noncanonical_word(token@),
{
    let lowered = lowers_to_text(token, "true") || lowers_to_text(token, "false") || lowers_to_text(token, "null")
        || lowers_to_text(token, "yes") || lowers_to_text(token, "no") || lowers_to_text(token, "on")
        || lowers_to_text(token, "off");
    lowered && !equals_text(token, "true") && !equals_text(token, "false") && !equals_text(token, "null")
}

fn is_quoted_scalar(v: &Vec<char>) -> (result: bool)
    ensures
        result == quoted_scalar(v@),
{
    let k = skip_space_at(v, 0, v.len());
    k < v.len() && (v[k] == '\'' || v[k] == '"')
}

/// The lexical verdict on a plain scalar, as returned.
#[derive(Debug)]
pub enum ScalarVerdict {
    Accept,
    Quote(String),
    Reject { code: &'static str, message: String, requirement: &'static str },
}

pub open spec fn verdict_view(v: ScalarVerdict) -> ScalarCheck {
    match v {
        ScalarVerdict::Accept => ScalarCheck::Accept,
        ScalarVerdict::Quote(text) => ScalarCheck::Quote(text@),
        ScalarVerdict::Reject { code, message, requirement } => ScalarCheck::Reject(code@, message@, requirement@),
    }
}

fn around(before: &str, token: &Vec<char>, after: &str) -> (text: String)
    ensures
        text@ == before@ + token@ + after@,
{
    let mut text = String::from_str(before);
    let middle = crate::text::string_from_chars(token.as_slice());
    text.append(middle.as_str());
    text.append(after);
    text
}

/// Check one plain scalar token; `type_integer` when it is an enum or
/// flags member's `value`.
pub fn check_plain_scalar(token: &Vec<char>, type_integer: bool) -> (verdict: ScalarVerdict)
    ensures
        verdict_view(verdict) == plain_scalar_check(token@, type_integer),
{
    if token.len() == 0 || is_quoted_scalar(token) {
        return ScalarVerdict::Accept;
    }
    let numeric = looks_numeric(token);
    let nonfinite = is_nonfinite_float(token);
    if type_integer && (numeric || nonfinite) {
        if is_integer_lexeme(token) {
            return ScalarVerdict::Accept;
        }
        return ScalarVerdict::Reject {
            code: "E-YAML-INVALID-INTEGER",
            message: around("Enum/Flags member integer `", token, "` does not match the Masterdata YAML integer grammar"),
            requirement: "YAML-SUBSET-011",
        };
    }
    if equals_text(token, "~") {
        return ScalarVerdict::Reject {
            code: "E-YAML-INVALID-NULL",
            message: String::from_str("`~` is not supported as a Masterdata null literal"),
            requirement: "YAML-SUBSET-010",
        };
    }
    if is_noncanonical_word(token) {
        let quoted = around("'", token, "'");
        proof {
            reveal_strlit("'");
            assert("'"@ =~= seq!['\'']);
            assert(quoted@ =~= seq!['\''] + token@ + seq!['\'']);
        }
        return ScalarVerdict::Quote(quoted);
    }
    if equals_text(token, "true") || equals_text(token, "false") || equals_text(token, "null") {
        return ScalarVerdict::Accept;
    }
    if nonfinite || numeric {
        if is_integer_lexeme(token) || is_float_lexeme(token) {
            return ScalarVerdict::Accept;
        }
        if is_float_like(token) {
            return ScalarVerdict::Reject {
                code: "E-YAML-INVALID-FLOAT",
                message: around("floating-point scalar `", token, "` is not supported by the Masterdata YAML subset"),
                requirement: "YAML-SUBSET-012",
            };
        }
        return ScalarVerdict::Reject {
            code: "E-YAML-INVALID-INTEGER",
            message: around("integer scalar `", token, "` is not supported by the Masterdata YAML subset"),
            requirement: "YAML-SUBSET-011",
        };
    }
    ScalarVerdict::Accept
}


/// Where the comment of the line `s[a..b]` starts, or `b`: the first `#` at
/// the line start or after ASCII whitespace, outside quoted scalars (`''`
/// inside single quotes, `\` escaping one character inside double quotes).
pub open spec fn comment_from(s: Seq<char>, a: int, b: int, i: int, quote: Quote) -> int
    decreases b - i,
{
    if i < a || i >= b {
        b
    } else {
        match quote {
            Quote::Single => {
                if s[i] == '\'' && i + 1 < b && s[i + 1] == '\'' {
                    comment_from(s, a, b, i + 2, Quote::Single)
                } else if s[i] == '\'' {
                    comment_from(s, a, b, i + 1, Quote::Outside)
                } else {
                    comment_from(s, a, b, i + 1, Quote::Single)
                }
            },
            Quote::Double => {
                if s[i] == '\\' {
                    if i + 2 >= b { b } else { comment_from(s, a, b, i + 2, Quote::Double) }
                } else if s[i] == '"' {
                    comment_from(s, a, b, i + 1, Quote::Outside)
                } else {
                    comment_from(s, a, b, i + 1, Quote::Double)
                }
            },
            Quote::Outside => {
                if s[i] == '\'' {
                    comment_from(s, a, b, i + 1, Quote::Single)
                } else if s[i] == '"' {
                    comment_from(s, a, b, i + 1, Quote::Double)
                } else if s[i] == '#' && (i == a || is_ascii_whitespace(s[i - 1])) {
                    i
                } else {
                    comment_from(s, a, b, i + 1, Quote::Outside)
                }
            },
        }
    }
}

pub open spec fn code_end(s: Seq<char>, a: int, b: int) -> int {
    comment_from(s, a, b, a, Quote::Outside)
}

/// The first mapping `:` of `s[a..b]`: outside quoted scalars, followed by
/// the end or ASCII whitespace.
pub open spec fn colon_from(s: Seq<char>, b: int, i: int, quote: Quote) -> Option<int>
    decreases b - i,
{
    if i < 0 || i >= b {
        None
    } else {
        match quote {
            Quote::Single => {
                if s[i] == '\'' && i + 1 < b && s[i + 1] == '\'' {
                    colon_from(s, b, i + 2, Quote::Single)
                } else if s[i] == '\'' {
                    colon_from(s, b, i + 1, Quote::Outside)
                } else {
                    colon_from(s, b, i + 1, Quote::Single)
                }
            },
            Quote::Double => {
                if s[i] == '\\' {
                    if i + 2 >= b { None } else { colon_from(s, b, i + 2, Quote::Double) }
                } else if s[i] == '"' {
                    colon_from(s, b, i + 1, Quote::Outside)
                } else {
                    colon_from(s, b, i + 1, Quote::Double)
                }
            },
            Quote::Outside => {
                if s[i] == '\'' {
                    colon_from(s, b, i + 1, Quote::Single)
                } else if s[i] == '"' {
                    colon_from(s, b, i + 1, Quote::Double)
                } else if s[i] == ':' && (i + 1 >= b || is_ascii_whitespace(s[i + 1])) {
                    Some(i)
                } else {
                    colon_from(s, b, i + 1, Quote::Outside)
                }
            },
        }
    }
}

fn ascii_space(c: char) -> (result: bool)
    ensures
        result == is_ascii_whitespace(c),
{
    c == ' ' || c == '\t' || c == '\n' || c == '\r' || c == '\x0C'
}

fn code_end_at(s: &Vec<char>, a: usize, b: usize) -> (c: usize)
    requires
        a <= b <= s@.len(),
    ensures
        c as int == code_end(s@, a as int, b as int),
        a <= c <= b,
{
    let mut i = a;
    let mut quote = Quote::Outside;
    while i < b
        invariant
            a <= i,
            b <= s@.len(),
            code_end(s@, a as int, b as int) == comment_from(s@, a as int, b as int, i as int, quote),
        decreases b - i,
    {
        let c = s[i];
        match quote {
            Quote::Single => {
                if c == '\'' && b - i > 1 && s[i + 1] == '\'' {
                    i = i + 2;
                } else {
                    if c == '\'' {
                        quote = Quote::Outside;
                    }
                    i = i + 1;
                }
            },
            Quote::Double => {
                if c == '\\' {
                    if b - i <= 2 {
                        return b;
                    }
                    i = i + 2;
                } else {
                    if c == '"' {
                        quote = Quote::Outside;
                    }
                    i = i + 1;
                }
            },
            Quote::Outside => {
                if c == '\'' {
                    quote = Quote::Single;
                } else if c == '"' {
                    quote = Quote::Double;
                } else if c == '#' && (i == a || ascii_space(s[i - 1])) {
                    return i;
                }
                i = i + 1;
            },
        }
    }
    b
}

fn colon_at(s: &Vec<char>, from: usize, b: usize) -> (found: Option<usize>)
    requires
        from <= b <= s@.len(),
    ensures
        match found {
            Some(c) => colon_from(s@, b as int, from as int, Quote::Outside) == Some(c as int) && from <= c < b,
            None => colon_from(s@, b as int, from as int, Quote::Outside) is None,
        },
{
    let mut i = from;
    let mut quote = Quote::Outside;
    while i < b
        invariant
            from <= i,
            b <= s@.len(),
            colon_from(s@, b as int, from as int, Quote::Outside) == colon_from(s@, b as int, i as int, quote),
        decreases b - i,
    {
        let c = s[i];
        match quote {
            Quote::Single => {
                if c == '\'' && b - i > 1 && s[i + 1] == '\'' {
                    i = i + 2;
                } else {
                    if c == '\'' {
                        quote = Quote::Outside;
                    }
                    i = i + 1;
                }
            },
            Quote::Double => {
                if c == '\\' {
                    if b - i <= 2 {
                        return None;
                    }
                    i = i + 2;
                } else {
                    if c == '"' {
                        quote = Quote::Outside;
                    }
                    i = i + 1;
                }
            },
            Quote::Outside => {
                if c == '\'' {
                    quote = Quote::Single;
                } else if c == '"' {
                    quote = Quote::Double;
                } else if c == ':' && (b - i <= 1 || ascii_space(s[i + 1])) {
                    return Some(i);
                }
                i = i + 1;
            },
        }
    }
    None
}


/// A `key: value` entry of a line, possibly a sequence item `- key: value`:
/// the key's trimmed range and where the raw value starts (it runs to the
/// end of the code).
pub struct EntryView {
    pub sequence_item: bool,
    pub key_start: int,
    pub key_end: int,
    pub value_start: int,
}

pub open spec fn dash_item(s: Seq<char>, t: int, b: int) -> bool {
    t + 1 < b && s[t] == '-' && is_ascii_whitespace(s[t + 1])
}

/// The entry of the code `s[a..b]`, if it is one.
pub open spec fn mapping_entry(s: Seq<char>, a: int, b: int) -> Option<EntryView> {
    let t = skip_space(s, a, b);
    let lone_dash = t + 1 == b && s[t] == '-';
    let sequence_item = lone_dash || dash_item(s, t, b);
    let ms = if lone_dash { b } else if dash_item(s, t, b) { skip_space(s, t + 1, b) } else { t };
    if ms >= b {
        if sequence_item { Some(EntryView { sequence_item: true, key_start: b, key_end: b, value_start: b }) } else { None }
    } else {
        match colon_from(s, b, ms, Quote::Outside) {
            None => None,
            Some(c) => {
                let ks = skip_space(s, ms, c);
                let ke = trim_end_at(s, ks, c);
                if ks >= ke {
                    None
                } else {
                    Some(EntryView { sequence_item, key_start: ks, key_end: ke, value_start: skip_space(s, c + 1, b) })
                }
            },
        }
    }
}

/// End of the run of spaces starting at `i`.
pub open spec fn spaces_end(s: Seq<char>, i: int, b: int) -> int
    decreases b - i,
{
    if 0 <= i < b && s[i] == ' ' { spaces_end(s, i + 1, b) } else { i }
}

/// Whether the code `s[a..b]`, leading whitespace skipped, is a block
/// sequence marker: `-` alone or followed by ASCII whitespace.
pub open spec fn sequence_marker(s: Seq<char>, a: int, b: int) -> bool {
    let t = skip_space(s, a, b);
    (t + 1 == b && s[t] == '-') || dash_item(s, t, b)
}

/// Where the scalar of a block sequence item `- value` starts, when the
/// item is a non-empty scalar without a mapping colon.
pub open spec fn sequence_scalar(s: Seq<char>, a: int, b: int) -> Option<int> {
    let t = skip_space(s, a, b);
    if !(t < b && s[t] == '-') {
        None
    } else if t + 1 < b && !is_ascii_whitespace(s[t + 1]) {
        None
    } else {
        let vs = skip_space(s, t + 1, b);
        if vs >= b || colon_from(s, b, vs, Quote::Outside) is Some { None } else { Some(vs) }
    }
}

/// Whether the value `s[vs..b]` starts a block scalar (`|` or `>`).
pub open spec fn block_scalar_indicator(s: Seq<char>, vs: int, b: int) -> bool {
    let t = skip_space(s, vs, b);
    t < b && (s[t] == '|' || s[t] == '>')
}

/// An entry as located.
#[derive(Debug, Clone, Copy)]
pub struct Entry {
    pub sequence_item: bool,
    pub key_start: usize,
    pub key_end: usize,
    pub value_start: usize,
}

pub open spec fn entry_view(e: Entry) -> EntryView {
    EntryView { sequence_item: e.sequence_item, key_start: e.key_start as int, key_end: e.key_end as int, value_start: e.value_start as int }
}

fn mapping_entry_at(s: &Vec<char>, a: usize, b: usize) -> (found: Option<Entry>)
    requires
        a <= b <= s@.len(),
    ensures
        match found {
            Some(e) => mapping_entry(s@, a as int, b as int) == Some(entry_view(e))
                && a <= e.key_start <= e.key_end <= e.value_start <= b,
            None => mapping_entry(s@, a as int, b as int) is None,
        },
{
    let t = skip_space_at(s, a, b);
    let lone_dash = b - t == 1 && s[t] == '-';
    let dash = b - t > 1 && s[t] == '-' && ascii_space(s[t + 1]);
    let sequence_item = lone_dash || dash;
    let ms = if lone_dash { b } else if dash { skip_space_at(s, t + 1, b) } else { t };
    if ms >= b {
        if sequence_item {
            return Some(Entry { sequence_item: true, key_start: b, key_end: b, value_start: b });
        }
        return None;
    }
    match colon_at(s, ms, b) {
        None => None,
        Some(c) => {
            let ks = skip_space_at(s, ms, c);
            let ke = trim_end_from(s, ks, c);
            if ks >= ke {
                None
            } else {
                let vs = skip_space_at(s, c + 1, b);
                Some(Entry { sequence_item, key_start: ks, key_end: ke, value_start: vs })
            }
        },
    }
}

fn spaces_end_at(s: &Vec<char>, i: usize, b: usize) -> (end: usize)
    requires
        i <= b <= s@.len(),
    ensures
        end as int == spaces_end(s@, i as int, b as int),
        i <= end <= b,
{
    let mut j = i;
    while j < b && s[j] == ' '
        invariant
            i <= j <= b <= s@.len(),
            spaces_end(s@, i as int, b as int) == spaces_end(s@, j as int, b as int),
        decreases b - j,
    {
        j = j + 1;
    }
    j
}

fn sequence_marker_at(s: &Vec<char>, a: usize, b: usize) -> (result: bool)
    requires
        a <= b <= s@.len(),
    ensures
        result == sequence_marker(s@, a as int, b as int),
{
    let t = skip_space_at(s, a, b);
    (b - t == 1 && s[t] == '-') || (b - t > 1 && s[t] == '-' && ascii_space(s[t + 1]))
}

fn sequence_scalar_at(s: &Vec<char>, a: usize, b: usize) -> (found: Option<usize>)
    requires
        a <= b <= s@.len(),
    ensures
        match found {
            Some(vs) => sequence_scalar(s@, a as int, b as int) == Some(vs as int) && a <= vs < b,
            None => sequence_scalar(s@, a as int, b as int) is None,
        },
{
    let t = skip_space_at(s, a, b);
    if !(t < b && s[t] == '-') {
        return None;
    }
    if b - t > 1 && !ascii_space(s[t + 1]) {
        return None;
    }
    let vs = skip_space_at(s, t + 1, b);
    if vs >= b {
        return None;
    }
    match colon_at(s, vs, b) {
        Some(_) => None,
        None => Some(vs),
    }
}

fn block_scalar_indicator_at(s: &Vec<char>, vs: usize, b: usize) -> (result: bool)
    requires
        vs <= b <= s@.len(),
    ensures
        result == block_scalar_indicator(s@, vs as int, b as int),
{
    let t = skip_space_at(s, vs, b);
    t < b && (s[t] == '|' || s[t] == '>')
}


/// What `serde_yaml` reads from `text` when it is a YAML string scalar.
pub uninterp spec fn yaml_string_scalar(text: Seq<char>) -> Option<Seq<char>>;

/// Read `text` with `serde_yaml::from_str::<serde_yaml::Value>`: the
/// contract names the decoded string, when the text is a string scalar.
#[verifier::external_body]
fn decode_yaml_string(text: &str) -> (decoded: Option<String>)
    ensures
        match decoded {
            Some(d) => yaml_string_scalar(text@) == Some(d@),
            None => yaml_string_scalar(text@) is None,
        },
{
    match serde_yaml::from_str::<serde_yaml::Value>(text) {
        Ok(serde_yaml::Value::String(decoded)) => Some(decoded),
        _ => None,
    }
}

/// Whether a key is `expected`, as written or as the string YAML reads.
pub open spec fn key_is(key: Seq<char>, expected: Seq<char>) -> bool {
    key == expected || yaml_string_scalar(key) == Some(expected)
}

fn key_is_text(key: &str, expected: &str) -> (result: bool)
    ensures
        result == key_is(key@, expected@),
{
    if str_eq(key, expected) {
        return true;
    }
    match decode_yaml_string(key) {
        Some(decoded) => str_eq(decoded.as_str(), expected),
        None => false,
    }
}

/// Where a type document's enum or flags declaration stands, by indent:
/// the category key, its `members` list, the current member, its fields.
#[derive(Debug, Clone, Copy)]
pub struct IntegerState {
    pub category: Option<usize>,
    pub members: Option<usize>,
    pub member: Option<usize>,
    pub member_fields: Option<usize>,
}

/// The state after a line at `indent` with the entry `entry`, and whether
/// the entry is a member's `value` (an integer position).
pub open spec fn integer_step(st: IntegerState, indent: int, s: Seq<char>, entry: Option<EntryView>) -> (IntegerState, bool) {
    let st1 = match st.members {
        Some(mi) => {
            let item = entry matches Some(e) && e.sequence_item;
            if indent < mi || (indent == mi && !item) {
                IntegerState { members: None, member: None, member_fields: None, ..st }
            } else {
                st
            }
        },
        None => st,
    };
    let st2 = match st1.member {
        Some(m) => if indent < m { IntegerState { member: None, member_fields: None, ..st1 } } else { st1 },
        None => st1,
    };
    match entry {
        None => (st2, false),
        Some(e) => {
            let key = s.subrange(e.key_start, e.key_end);
            if key_is(key, "enum"@) || key_is(key, "flags"@) {
                (IntegerState { category: Some(indent as usize), members: None, member: None, member_fields: None }, false)
            } else if key_is(key, "members"@) && (st2.category matches Some(c) && indent > c) {
                (IntegerState { members: Some(indent as usize), member: None, member_fields: None, ..st2 }, false)
            } else {
                match st2.members {
                    None => (st2, false),
                    Some(mi) => {
                        if indent < mi || (indent == mi && !e.sequence_item) {
                            (st2, false)
                        } else if e.sequence_item && key.len() == 0 {
                            (IntegerState { member: Some(indent as usize), member_fields: None, ..st2 }, false)
                        } else {
                            let st3 = if e.sequence_item { IntegerState { member: Some(indent as usize), member_fields: None, ..st2 } } else { st2 };
                            if !e.sequence_item && st2.member is None {
                                (st3, false)
                            } else if !e.sequence_item && (st2.member matches Some(m) && indent < m) {
                                (st3, false)
                            } else if !e.sequence_item && (st3.member_fields matches Some(f) && indent != f) {
                                (st3, false)
                            } else {
                                let st4 = if !e.sequence_item && st3.member_fields is None {
                                    IntegerState { member_fields: Some(indent as usize), ..st3 }
                                } else {
                                    st3
                                };
                                (st4, key_is(key, "value"@))
                            }
                        }
                    },
                }
            }
        },
    }
}

fn integer_step_at(st: &mut IntegerState, indent: usize, s: &Vec<char>, entry: Option<Entry>) -> (value_position: bool)
    requires
        forall|e: Entry| entry == Some(e) ==> e.key_start <= e.key_end <= s@.len(),
    ensures
        (*final(st), value_position) == integer_step(*old(st), indent as int, s@,
            match entry { Some(e) => Some(entry_view(e)), None => None }),
{
    if let Some(mi) = st.members {
        let item = match entry { Some(e) => e.sequence_item, None => false };
        if indent < mi || (indent == mi && !item) {
            st.members = None;
            st.member = None;
            st.member_fields = None;
        }
    }
    if let Some(m) = st.member {
        if indent < m {
            st.member = None;
            st.member_fields = None;
        }
    }
    let e = match entry {
        None => {
            return false;
        },
        Some(e) => e,
    };
    let key = string_from_range(s.as_slice(), e.key_start, e.key_end);
    if key_is_text(key.as_str(), "enum") || key_is_text(key.as_str(), "flags") {
        st.category = Some(indent);
        st.members = None;
        st.member = None;
        st.member_fields = None;
        return false;
    }
    let above = match st.category { Some(c) => indent > c, None => false };
    if key_is_text(key.as_str(), "members") && above {
        st.members = Some(indent);
        st.member = None;
        st.member_fields = None;
        return false;
    }
    let mi = match st.members {
        None => {
            return false;
        },
        Some(mi) => mi,
    };
    if indent < mi || (indent == mi && !e.sequence_item) {
        return false;
    }
    if e.sequence_item && e.key_start == e.key_end {
        st.member = Some(indent);
        st.member_fields = None;
        return false;
    }
    if e.sequence_item {
        st.member = Some(indent);
        st.member_fields = None;
    } else {
        let outside = match st.member { Some(m) => indent < m, None => true };
        if outside {
            return false;
        }
    }
    if !e.sequence_item {
        match st.member_fields {
            Some(f) => {
                if indent != f {
                    return false;
                }
            },
            None => {
                st.member_fields = Some(indent);
            },
        }
    }
    key_is_text(key.as_str(), "value")
}


/// Whether the first line with code after line `j - 1` holds a nested block
/// value for a parent at `parent` indentation: deeper, or, when allowed, an
/// indentless sequence marker at the same indentation.
pub open spec fn nested_from(s: Seq<char>, lines: Seq<(int, int)>, j: int, parent: int, allow: bool) -> bool
    decreases lines.len() - j,
{
    if j < 0 || j >= lines.len() {
        false
    } else {
        let (a, b) = lines[j];
        let c = code_end(s, a, b);
        if skip_space(s, a, c) >= c {
            nested_from(s, lines, j + 1, parent, allow)
        } else {
            let indent = spaces_end(s, a, b) - a;
            indent > parent || (allow && indent == parent && sequence_marker(s, a, c))
        }
    }
}

fn nested_from_at(s: &Vec<char>, lines: &Vec<SourceLine>, from: usize, parent: usize, allow: bool) -> (result: bool)
    requires
        forall|k: int| 0 <= k < lines@.len() ==> #[trigger] lines@[k].start <= lines@[k].end <= s@.len(),
    ensures
        result == nested_from(s@, lines_view(lines@), from as int, parent as int, allow),
{
    let ghost lv = lines_view(lines@);
    let mut j = from;
    while j < lines.len()
        invariant
            from <= j,
            lv == lines_view(lines@),
            forall|k: int| 0 <= k < lines@.len() ==> #[trigger] lines@[k].start <= lines@[k].end <= s@.len(),
            nested_from(s@, lv, from as int, parent as int, allow) == nested_from(s@, lv, j as int, parent as int, allow),
        decreases lines@.len() - j,
    {
        let line = lines[j];
        proof {
            assert(lv[j as int] == (line.start as int, line.end as int));
        }
        let c = code_end_at(s, line.start, line.end);
        if skip_space_at(s, line.start, c) < c {
            let indent = spaces_end_at(s, line.start, line.end) - line.start;
            return indent > parent || (allow && indent == parent && sequence_marker_at(s, line.start, c));
        }
        j = j + 1;
    }
    false
}


/// A replacement of `s[start..end]` by `text`.
pub struct RepView {
    pub start: int,
    pub end: int,
    pub text: Seq<char>,
}

/// A refused scalar: code, message, requirement.
pub type Refusal = (Seq<char>, Seq<char>, Seq<char>);

/// Check the token that started at `token` and ends before `end`, trimmed.
pub open spec fn finish_token(s: Seq<char>, token: Option<int>, end: int, ti: bool, reps: Seq<RepView>) -> Result<Seq<RepView>, Refusal> {
    match token {
        None => Ok(reps),
        Some(st) => {
            let ts = skip_space(s, st, end);
            let te = trim_end_at(s, ts, end);
            if ts >= te {
                Ok(reps)
            } else {
                match plain_scalar_check(s.subrange(ts, te), ti) {
                    ScalarCheck::Accept => Ok(reps),
                    ScalarCheck::Quote(t) => Ok(reps.push(RepView { start: ts, end: te, text: t })),
                    ScalarCheck::Reject(c, m, q) => Err((c, m, q)),
                }
            }
        }
    }
}

/// Where a flow sequence scan stands across lines: bracket depth and quote.
#[derive(Debug, Clone, Copy)]
pub struct FlowState {
    pub depth: usize,
    pub quote: Quote,
}

pub open spec fn flow_delimiter(s: Seq<char>, fb: int, i: int) -> bool {
    let c = s[i];
    ||| c == '[' || c == ']' || c == ',' || c == '{' || c == '}'
    ||| c == ':' && (i + 1 >= fb || is_ascii_whitespace(s[i + 1]) || s[i + 1] == ']')
}

pub open spec fn depth_after(depth: int, c: char) -> int {
    if c == '[' { depth + 1 } else if c == ']' { if depth > 0 { depth - 1 } else { 0 } } else { depth }
}

/// Scan the flow fragment `s[fa..fb]` from `i`: plain tokens between
/// delimiters are checked, quoted scalars skipped, a comment ends the scan.
pub open spec fn flow_scan(s: Seq<char>, fa: int, fb: int, i: int, token: Option<int>, depth: int, quote: Quote, ti: bool, reps: Seq<RepView>)
    -> Result<(Seq<RepView>, int, Quote), Refusal>
    decreases fb - i,
{
    if i < fa || i >= fb {
        match finish_token(s, token, fb, ti, reps) {
            Ok(r) => Ok((r, depth, quote)),
            Err(e) => Err(e),
        }
    } else {
        match quote {
            Quote::Single => {
                if s[i] == '\'' && i + 1 < fb && s[i + 1] == '\'' {
                    flow_scan(s, fa, fb, i + 2, token, depth, Quote::Single, ti, reps)
                } else if s[i] == '\'' {
                    flow_scan(s, fa, fb, i + 1, token, depth, Quote::Outside, ti, reps)
                } else {
                    flow_scan(s, fa, fb, i + 1, token, depth, Quote::Single, ti, reps)
                }
            },
            Quote::Double => {
                if s[i] == '\\' {
                    if i + 2 >= fb {
                        match finish_token(s, token, fb, ti, reps) {
                            Ok(r) => Ok((r, depth, quote)),
                            Err(e) => Err(e),
                        }
                    } else {
                        flow_scan(s, fa, fb, i + 2, token, depth, Quote::Double, ti, reps)
                    }
                } else if s[i] == '"' {
                    flow_scan(s, fa, fb, i + 1, token, depth, Quote::Outside, ti, reps)
                } else {
                    flow_scan(s, fa, fb, i + 1, token, depth, Quote::Double, ti, reps)
                }
            },
            Quote::Outside => {
                if s[i] == '\'' {
                    flow_scan(s, fa, fb, i + 1, None, depth, Quote::Single, ti, reps)
                } else if s[i] == '"' {
                    flow_scan(s, fa, fb, i + 1, None, depth, Quote::Double, ti, reps)
                } else if flow_delimiter(s, fb, i) {
                    match finish_token(s, token, i, ti, reps) {
                        Err(e) => Err(e),
                        Ok(r) => flow_scan(s, fa, fb, i + 1, None, depth_after(depth, s[i]), Quote::Outside, ti, r),
                    }
                } else if s[i] == '#' && (i == fa || is_ascii_whitespace(s[i - 1])) {
                    match finish_token(s, token, i, ti, reps) {
                        Err(e) => Err(e),
                        Ok(r) => Ok((r, depth, quote)),
                    }
                } else if !is_ascii_whitespace(s[i]) && token is None {
                    flow_scan(s, fa, fb, i + 1, Some(i), depth, Quote::Outside, ti, reps)
                } else {
                    flow_scan(s, fa, fb, i + 1, token, depth, Quote::Outside, ti, reps)
                }
            },
        }
    }
}

/// A replacement as located.
#[derive(Debug)]
pub struct Replacement {
    pub start: usize,
    pub end: usize,
    pub text: String,
}

pub open spec fn rep_view(r: Replacement) -> RepView {
    RepView { start: r.start as int, end: r.end as int, text: r.text@ }
}

pub open spec fn reps_view(reps: Seq<Replacement>) -> Seq<RepView> {
    reps.map_values(|r: Replacement| rep_view(r))
}

/// A refused scalar as returned.
#[derive(Debug)]
pub struct ScalarRefusal {
    pub code: &'static str,
    pub message: String,
    pub requirement: &'static str,
}

pub open spec fn refusal_view(r: ScalarRefusal) -> Refusal {
    (r.code@, r.message@, r.requirement@)
}

fn finish_token_at(s: &Vec<char>, token: Option<usize>, end: usize, ti: bool, reps: &mut Vec<Replacement>) -> (result: Result<(), ScalarRefusal>)
    requires
        end <= s@.len(),
        token matches Some(t) ==> t <= end,
    ensures
        match result {
            Ok(()) => finish_token(s@, match token { Some(t) => Some(t as int), None => None }, end as int, ti, reps_view(old(reps)@))
                == Ok::<Seq<RepView>, Refusal>(reps_view(final(reps)@)),
            Err(e) => finish_token(s@, match token { Some(t) => Some(t as int), None => None }, end as int, ti, reps_view(old(reps)@))
                == Err::<Seq<RepView>, Refusal>(refusal_view(e)),
        },
{
    let st = match token {
        None => {
            return Ok(());
        },
        Some(st) => st,
    };
    let ts = skip_space_at(s, st, end);
    let te = trim_end_from(s, ts, end);
    if ts >= te {
        return Ok(());
    }
    let text = string_from_range(s.as_slice(), ts, te);
    let token_chars = chars_of(text.as_str());
    match check_plain_scalar(&token_chars, ti) {
        ScalarVerdict::Accept => Ok(()),
        ScalarVerdict::Quote(t) => {
            let ghost before = reps_view(reps@);
            let r = Replacement { start: ts, end: te, text: t };
            reps.push(r);
            proof {
                assert(reps_view(reps@) =~= before.push(rep_view(r)));
            }
            Ok(())
        },
        ScalarVerdict::Reject { code, message, requirement } => Err(ScalarRefusal { code, message, requirement }),
    }
}

fn is_flow_delimiter(s: &Vec<char>, fb: usize, i: usize) -> (result: bool)
    requires
        i < fb <= s@.len(),
    ensures
        result == flow_delimiter(s@, fb as int, i as int),
{
    let c = s[i];
    c == '[' || c == ']' || c == ',' || c == '{' || c == '}'
        || (c == ':' && (fb - i <= 1 || ascii_space(s[i + 1]) || s[i + 1] == ']'))
}

fn scan_flow_at(s: &Vec<char>, fa: usize, fb: usize, state: &mut FlowState, ti: bool, reps: &mut Vec<Replacement>)
    -> (result: Result<(), ScalarRefusal>)
    requires
        fa <= fb <= s@.len(),
        old(state).depth <= fa,
    ensures
        match result {
            Ok(()) => flow_scan(s@, fa as int, fb as int, fa as int, None, old(state).depth as int, old(state).quote, ti, reps_view(old(reps)@))
                == Ok::<(Seq<RepView>, int, Quote), Refusal>((reps_view(final(reps)@), final(state).depth as int, final(state).quote))
                && final(state).depth <= fb,
            Err(e) => flow_scan(s@, fa as int, fb as int, fa as int, None, old(state).depth as int, old(state).quote, ti, reps_view(old(reps)@))
                == Err::<(Seq<RepView>, int, Quote), Refusal>(refusal_view(e)),
        },
{
    let ghost goal = flow_scan(s@, fa as int, fb as int, fa as int, None, state.depth as int, state.quote, ti, reps_view(reps@));
    let mut i = fa;
    let mut token: Option<usize> = None;
    while i < fb
        invariant
            fa <= i <= fb,
            fb <= s@.len(),
            state.depth <= i,
            token matches Some(t) ==> fa <= t < i,
            goal == flow_scan(s@, fa as int, fb as int, fa as int, None, old(state).depth as int, old(state).quote, ti, reps_view(old(reps)@)),
            goal == flow_scan(s@, fa as int, fb as int, i as int, match token { Some(t) => Some(t as int), None => None },
                state.depth as int, state.quote, ti, reps_view(reps@)),
        decreases fb - i,
    {
        let c = s[i];
        match state.quote {
            Quote::Single => {
                if c == '\'' && fb - i > 1 && s[i + 1] == '\'' {
                    i = i + 2;
                } else {
                    if c == '\'' {
                        state.quote = Quote::Outside;
                    }
                    i = i + 1;
                }
            },
            Quote::Double => {
                if c == '\\' {
                    if fb - i <= 2 {
                        let r = finish_token_at(s, token, fb, ti, reps);
                        return r;
                    }
                    i = i + 2;
                } else {
                    if c == '"' {
                        state.quote = Quote::Outside;
                    }
                    i = i + 1;
                }
            },
            Quote::Outside => {
                if c == '\'' {
                    token = None;
                    state.quote = Quote::Single;
                    i = i + 1;
                } else if c == '"' {
                    token = None;
                    state.quote = Quote::Double;
                    i = i + 1;
                } else if is_flow_delimiter(s, fb, i) {
                    let r = finish_token_at(s, token, i, ti, reps);
                    if r.is_err() {
                        return r;
                    }
                    token = None;
                    if c == '[' {
                        state.depth = state.depth + 1;
                    } else if c == ']' {
                        if state.depth > 0 {
                            state.depth = state.depth - 1;
                        }
                    }
                    i = i + 1;
                } else if c == '#' && (i == fa || ascii_space(s[i - 1])) {
                    let r = finish_token_at(s, token, i, ti, reps);
                    if r.is_err() {
                        return r;
                    }
                    return Ok(());
                } else if !ascii_space(c) && token.is_none() {
                    token = Some(i);
                    i = i + 1;
                } else {
                    i = i + 1;
                }
            },
        }
    }
    finish_token_at(s, token, fb, ti, reps)
}


/// Whether the document declares `kind: type`: the first top-level `kind`
/// key decides, its value read as written or as the string YAML reads.
pub open spec fn declares_type_from(s: Seq<char>, lines: Seq<(int, int)>, k: int) -> bool
    decreases lines.len() - k,
{
    if k < 0 || k >= lines.len() {
        false
    } else {
        let (a, b) = lines[k];
        if spaces_end(s, a, b) != a {
            declares_type_from(s, lines, k + 1)
        } else {
            let c = code_end(s, a, b);
            match mapping_entry(s, a, c) {
                None => declares_type_from(s, lines, k + 1),
                Some(e) => {
                    if !e.sequence_item && key_is(s.subrange(e.key_start, e.key_end), "kind"@) {
                        let raw = s.subrange(e.value_start, trim_end_at(s, e.value_start, c));
                        raw == "type"@ || yaml_string_scalar(raw) == Some("type"@)
                    } else {
                        declares_type_from(s, lines, k + 1)
                    }
                },
            }
        }
    }
}

pub open spec fn missing_value(key: Seq<char>) -> Refusal {
    ("E-YAML-MISSING-VALUE"@, "mapping entry `"@ + key + "` has no explicit value"@, "YAML-SUBSET-017"@)
}

pub open spec fn no_integer_state() -> IntegerState {
    IntegerState { category: None, members: None, member: None, member_fields: None }
}

/// The lexical check of the lines from `k`: block scalars are skipped, then each
/// line's code is read as a mapping entry, a line of an open flow sequence,
/// or a block sequence scalar, and its plain scalars checked.
pub open spec fn lines_scan(
    s: Seq<char>,
    lines: Seq<(int, int)>,
    k: int,
    type_doc: bool,
    ti: IntegerState,
    block: Option<int>,
    depth: int,
    quote: Quote,
    reps: Seq<RepView>,
) -> Result<Seq<RepView>, Refusal>
    decreases lines.len() - k,
{
    if k < 0 || k >= lines.len() {
        Ok(reps)
    } else {
        let (a, b) = lines[k];
        let indent = spaces_end(s, a, b) - a;
        if block matches Some(p) && (skip_space(s, a, b) >= b || indent > p) {
            lines_scan(s, lines, k + 1, type_doc, ti, block, depth, quote, reps)
        } else {
            let c = if quote is Outside { code_end(s, a, b) } else { b };
            if skip_space(s, a, c) >= c {
                lines_scan(s, lines, k + 1, type_doc, ti, None, depth, quote, reps)
            } else {
                let entry = mapping_entry(s, a, c);
                let stepped = if type_doc { integer_step(ti, indent, s, entry) } else { (ti, false) };
                let ti2 = stepped.0;
                let type_integer = stepped.1;
                match entry {
                    Some(e) => {
                        if e.sequence_item && e.key_start == e.key_end {
                            lines_scan(s, lines, k + 1, type_doc, ti2, None, depth, quote, reps)
                        } else if block_scalar_indicator(s, e.value_start, c) {
                            lines_scan(s, lines, k + 1, type_doc, ti2, Some(indent), depth, quote, reps)
                        } else if e.value_start >= c {
                            if !nested_from(s, lines, k + 1, indent, !e.sequence_item) {
                                Err(missing_value(s.subrange(e.key_start, e.key_end)))
                            } else {
                                lines_scan(s, lines, k + 1, type_doc, ti2, None, depth, quote, reps)
                            }
                        } else if s[e.value_start] == '[' {
                            match flow_scan(s, e.value_start, c, e.value_start, None, depth, quote, type_integer, reps) {
                                Err(r) => Err(r),
                                Ok((r, d, q)) => lines_scan(s, lines, k + 1, type_doc, ti2, None, d, q, r),
                            }
                        } else {
                            match finish_token(s, Some(e.value_start), c, type_integer, reps) {
                                Err(r) => Err(r),
                                Ok(r) => lines_scan(s, lines, k + 1, type_doc, ti2, None, depth, quote, r),
                            }
                        }
                    },
                    None => {
                        if depth > 0 {
                            match flow_scan(s, a, c, a, None, depth, quote, false, reps) {
                                Err(r) => Err(r),
                                Ok((r, d, q)) => lines_scan(s, lines, k + 1, type_doc, ti2, None, d, q, r),
                            }
                        } else {
                            match sequence_scalar(s, a, c) {
                                None => lines_scan(s, lines, k + 1, type_doc, ti2, None, depth, quote, reps),
                                Some(vs) => {
                                    if s[vs] == '[' {
                                        match flow_scan(s, vs, trim_end_at(s, vs, c), vs, None, depth, quote, false, reps) {
                                            Err(r) => Err(r),
                                            Ok((r, d, q)) => lines_scan(s, lines, k + 1, type_doc, ti2, None, d, q, r),
                                        }
                                    } else {
                                        match finish_token(s, Some(vs), c, false, reps) {
                                            Err(r) => Err(r),
                                            Ok(r) => lines_scan(s, lines, k + 1, type_doc, ti2, None, depth, quote, r),
                                        }
                                    }
                                },
                            }
                        }
                    },
                }
            }
        }
    }
}


/// Lines in order, inside the text: each ends before the next starts.
pub open spec fn lines_ordered(lines: Seq<(int, int)>, lo: int, len: int) -> bool {
    &&& forall|k: int| 0 <= k < lines.len() ==> lo <= #[trigger] lines[k].0 <= lines[k].1 <= len
    &&& forall|k: int, m: int| 0 <= k < m < lines.len() ==> #[trigger] lines[k].1 <= #[trigger] lines[m].0
}

proof fn lemma_newline_bound(s: Seq<char>, p: int)
    requires
        0 <= p <= s.len(),
    ensures
        p <= newline_from(s, p) <= s.len(),
    decreases s.len() - p,
{
    if p < s.len() && s[p] != '\n' {
        lemma_newline_bound(s, p + 1);
    }
}

proof fn lemma_lines_from_ordered(s: Seq<char>, p: int)
    requires
        0 <= p,
    ensures
        lines_ordered(lines_from(s, p), p, s.len() as int),
    decreases s.len() - p,
{
    if p < s.len() {
        lemma_newline_bound(s, p);
        let q = newline_from(s, p);
        let next = if q < s.len() { q + 1 } else { s.len() as int };
        let end = if q > p && s[q - 1] == '\r' { q - 1 } else { q };
        if next > p {
            lemma_lines_from_ordered(s, next);
            let rest = lines_from(s, next);
            let all = lines_from(s, p);
            assert(all == seq![(p, end)] + rest);
            assert forall|k: int| 0 <= k < all.len() implies p <= #[trigger] all[k].0 <= all[k].1 <= s.len() by {
                if k > 0 {
                    assert(all[k] == rest[k - 1]);
                }
            }
            assert forall|k: int, m: int| 0 <= k < m < all.len() implies #[trigger] all[k].1 <= #[trigger] all[m].0 by {
                assert(all[m] == rest[m - 1]);
                if k > 0 {
                    assert(all[k] == rest[k - 1]);
                }
            }
        }
    }
}

pub proof fn lemma_source_lines_ordered(s: Seq<char>)
    ensures
        lines_ordered(source_lines(s), 0, s.len() as int),
{
    if s.len() > 0 {
        lemma_lines_from_ordered(s, 0);
    }
}

fn declares_type_at(s: &Vec<char>, lines: &Vec<SourceLine>) -> (result: bool)
    requires
        forall|k: int| 0 <= k < lines@.len() ==> #[trigger] lines@[k].start <= lines@[k].end <= s@.len(),
    ensures
        result == declares_type_from(s@, lines_view(lines@), 0),
{
    let ghost lv = lines_view(lines@);
    let mut k: usize = 0;
    while k < lines.len()
        invariant
            k <= lines@.len(),
            lv == lines_view(lines@),
            forall|m: int| 0 <= m < lines@.len() ==> #[trigger] lines@[m].start <= lines@[m].end <= s@.len(),
            declares_type_from(s@, lv, 0) == declares_type_from(s@, lv, k as int),
        decreases lines@.len() - k,
    {
        let line = lines[k];
        proof {
            assert(lv[k as int] == (line.start as int, line.end as int));
        }
        if spaces_end_at(s, line.start, line.end) == line.start {
            let c = code_end_at(s, line.start, line.end);
            if let Some(e) = mapping_entry_at(s, line.start, c) {
                let key = string_from_range(s.as_slice(), e.key_start, e.key_end);
                if !e.sequence_item && key_is_text(key.as_str(), "kind") {
                    let ve = trim_end_from(s, e.value_start, c);
                    let raw = string_from_range(s.as_slice(), e.value_start, ve);
                    if str_eq(raw.as_str(), "type") {
                        return true;
                    }
                    return match decode_yaml_string(raw.as_str()) {
                        Some(decoded) => str_eq(decoded.as_str(), "type"),
                        None => false,
                    };
                }
            }
        }
        k = k + 1;
    }
    false
}


pub open spec fn block_view(block: Option<usize>) -> Option<int> {
    match block {
        Some(p) => Some(p as int),
        None => None,
    }
}

/// The line's next fragment may not start before `depth`.
pub open spec fn depth_fits(depth: int, lines: Seq<(int, int)>, k: int, len: int) -> bool {
    depth <= if k < lines.len() { lines[k].0 } else { len }
}

#[verifier::rlimit(60)]
fn lines_scan_at(s: &Vec<char>, lines: &Vec<SourceLine>, type_doc: bool) -> (result: Result<Vec<Replacement>, ScalarRefusal>)
    requires
        forall|k: int| 0 <= k < lines@.len() ==> #[trigger] lines@[k].start <= lines@[k].end <= s@.len(),
        lines_ordered(lines_view(lines@), 0, s@.len() as int),
    ensures
        match result {
            Ok(reps) => lines_scan(s@, lines_view(lines@), 0, type_doc, no_integer_state(), None, 0, Quote::Outside, Seq::empty())
                == Ok::<Seq<RepView>, Refusal>(reps_view(reps@)),
            Err(e) => lines_scan(s@, lines_view(lines@), 0, type_doc, no_integer_state(), None, 0, Quote::Outside, Seq::empty())
                == Err::<Seq<RepView>, Refusal>(refusal_view(e)),
        },
{
    let ghost lv = lines_view(lines@);
    let ghost goal = lines_scan(s@, lv, 0, type_doc, no_integer_state(), None, 0, Quote::Outside, Seq::empty());
    let mut ti = IntegerState { category: None, members: None, member: None, member_fields: None };
    let mut block: Option<usize> = None;
    let mut flow = FlowState { depth: 0, quote: Quote::Outside };
    let mut reps: Vec<Replacement> = Vec::new();
    let mut k: usize = 0;
    proof {
        assert(reps_view(reps@) =~= Seq::<RepView>::empty());
    }
    while k < lines.len()
        invariant
            k <= lines@.len(),
            lv == lines_view(lines@),
            forall|m: int| 0 <= m < lines@.len() ==> #[trigger] lines@[m].start <= lines@[m].end <= s@.len(),
            lines_ordered(lv, 0, s@.len() as int),
            depth_fits(flow.depth as int, lv, k as int, s@.len() as int),
            goal == lines_scan(s@, lv, 0, type_doc, no_integer_state(), None, 0, Quote::Outside, Seq::empty()),
            goal == lines_scan(s@, lv, k as int, type_doc, ti, block_view(block), flow.depth as int, flow.quote, reps_view(reps@)),
        decreases lines@.len() - k,
    {
        let line = lines[k];
        let a = line.start;
        let b = line.end;
        proof {
            assert(lv[k as int] == (a as int, b as int));
            if k + 1 < lines@.len() {
                assert(lv[k as int].1 <= lv[k + 1].0);
            }
        }
        let indent = spaces_end_at(s, a, b) - a;
        let skip = match block {
            Some(p) => skip_space_at(s, a, b) >= b || indent > p,
            None => false,
        };
        if skip {
            k = k + 1;
            continue;
        }
        block = None;
        let c = match flow.quote {
            Quote::Outside => code_end_at(s, a, b),
            _ => b,
        };
        if skip_space_at(s, a, c) >= c {
            k = k + 1;
            continue;
        }
        let entry = mapping_entry_at(s, a, c);
        let type_integer = if type_doc { integer_step_at(&mut ti, indent, s, entry) } else { false };
        match entry {
            Some(e) => {
                if e.sequence_item && e.key_start == e.key_end {
                    k = k + 1;
                    continue;
                }
                if block_scalar_indicator_at(s, e.value_start, c) {
                    block = Some(indent);
                    k = k + 1;
                    continue;
                }
                if e.value_start >= c {
                    if !nested_from_at(s, lines, k + 1, indent, !e.sequence_item) {
                        let mut message = String::from_str("mapping entry `");
                        let key = string_from_range(s.as_slice(), e.key_start, e.key_end);
                        message.append(key.as_str());
                        message.append("` has no explicit value");
                        return Err(ScalarRefusal { code: "E-YAML-MISSING-VALUE", message, requirement: "YAML-SUBSET-017" });
                    }
                    k = k + 1;
                    continue;
                }
                if s[e.value_start] == '[' {
                    let r = scan_flow_at(s, e.value_start, c, &mut flow, type_integer, &mut reps);
                    if let Err(refusal) = r {
                        return Err(refusal);
                    }
                } else {
                    let r = finish_token_at(s, Some(e.value_start), c, type_integer, &mut reps);
                    if let Err(refusal) = r {
                        return Err(refusal);
                    }
                }
            },
            None => {
                if flow.depth > 0 {
                    let r = scan_flow_at(s, a, c, &mut flow, false, &mut reps);
                    if let Err(refusal) = r {
                        return Err(refusal);
                    }
                } else {
                    match sequence_scalar_at(s, a, c) {
                        None => {},
                        Some(vs) => {
                            if s[vs] == '[' {
                                let te = trim_end_from(s, vs, c);
                                let r = scan_flow_at(s, vs, te, &mut flow, false, &mut reps);
                                if let Err(refusal) = r {
                                    return Err(refusal);
                                }
                            } else {
                                let r = finish_token_at(s, Some(vs), c, false, &mut reps);
                                if let Err(refusal) = r {
                                    return Err(refusal);
                                }
                            }
                        },
                    }
                }
            },
        }
        k = k + 1;
    }
    Ok(reps)
}


/// Replacements in source order, non-empty, each ending before the next
/// starts, all before `hi`.
pub open spec fn reps_within(reps: Seq<RepView>, hi: int) -> bool {
    &&& forall|k: int| 0 <= k < reps.len() ==> 0 <= #[trigger] reps[k].start < reps[k].end <= hi
    &&& forall|k: int, m: int| 0 <= k < m < reps.len() ==> #[trigger] reps[k].end <= #[trigger] reps[m].start
}

proof fn lemma_within_widen(reps: Seq<RepView>, lo: int, hi: int)
    requires
        reps_within(reps, lo),
        lo <= hi,
    ensures
        reps_within(reps, hi),
{
}

proof fn lemma_finish_within(s: Seq<char>, token: Option<int>, end: int, ti: bool, reps: Seq<RepView>, lo: int)
    requires
        reps_within(reps, lo),
        lo <= end,
        token matches Some(t) ==> 0 <= lo <= t <= end,
    ensures
        finish_token(s, token, end, ti, reps) matches Ok(r) ==> reps_within(r, end),
{
    if let Some(t) = token {
        let ts = skip_space(s, t, end);
        let te = trim_end_at(s, ts, end);
        lemma_skip_space_bounds(s, t, end);
        lemma_trim_end_bounds(s, ts, end);
        if ts < te {
            if let ScalarCheck::Quote(text) = plain_scalar_check(s.subrange(ts, te), ti) {
                let r = reps.push(RepView { start: ts, end: te, text });
                assert forall|k: int, m: int| 0 <= k < m < r.len() implies #[trigger] r[k].end <= #[trigger] r[m].start by {
                    if m < reps.len() {
                        assert(r[k] == reps[k] && r[m] == reps[m]);
                    } else {
                        assert(r[k] == reps[k]);
                        assert(0 <= reps[k].start < reps[k].end <= lo);
                        assert(r[m].start == ts);
                    }
                }
                assert forall|k: int| 0 <= k < r.len() implies 0 <= #[trigger] r[k].start < r[k].end <= end by {
                    if k < reps.len() {
                        assert(r[k] == reps[k]);
                    }
                }
            }
        }
    }
}

proof fn lemma_skip_space_bounds(s: Seq<char>, i: int, to: int)
    requires
        i <= to,
    ensures
        i <= skip_space(s, i, to) <= to,
    decreases to - i,
{
    if i < to && is_unicode_whitespace_char(s[i]) {
        lemma_skip_space_bounds(s, i + 1, to);
    }
}

pub open spec fn is_unicode_whitespace_char(c: char) -> bool {
    crate::config::is_unicode_whitespace(c)
}

proof fn lemma_trim_end_bounds(s: Seq<char>, from: int, to: int)
    requires
        from <= to,
    ensures
        from <= trim_end_at(s, from, to) <= to,
    decreases to - from,
{
    if from < to && is_unicode_whitespace_char(s[to - 1]) {
        lemma_trim_end_bounds(s, from, to - 1);
    }
}

proof fn lemma_flow_within(s: Seq<char>, fa: int, fb: int, i: int, token: Option<int>, depth: int, quote: Quote, ti: bool, reps: Seq<RepView>)
    requires
        0 <= fa <= i <= fb,
        reps_within(reps, i),
        token matches Some(t) ==> fa <= t <= i && reps_within(reps, t),
    ensures
        flow_scan(s, fa, fb, i, token, depth, quote, ti, reps) matches Ok((r, _, _)) ==> reps_within(r, fb),
    decreases fb - i,
{
    let lo = match token { Some(t) => t, None => i };
    if i >= fb {
        lemma_finish_within(s, token, fb, ti, reps, lo);
    } else {
        match quote {
            Quote::Single => {
                if s[i] == '\'' && i + 1 < fb && s[i + 1] == '\'' {
                    lemma_flow_within(s, fa, fb, i + 2, token, depth, Quote::Single, ti, reps);
                } else if s[i] == '\'' {
                    lemma_flow_within(s, fa, fb, i + 1, token, depth, Quote::Outside, ti, reps);
                } else {
                    lemma_flow_within(s, fa, fb, i + 1, token, depth, Quote::Single, ti, reps);
                }
            },
            Quote::Double => {
                if s[i] == '\\' {
                    if i + 2 >= fb {
                        lemma_finish_within(s, token, fb, ti, reps, lo);
                    } else {
                        lemma_flow_within(s, fa, fb, i + 2, token, depth, Quote::Double, ti, reps);
                    }
                } else if s[i] == '"' {
                    lemma_flow_within(s, fa, fb, i + 1, token, depth, Quote::Outside, ti, reps);
                } else {
                    lemma_flow_within(s, fa, fb, i + 1, token, depth, Quote::Double, ti, reps);
                }
            },
            Quote::Outside => {
                if s[i] == '\'' {
                    lemma_flow_within(s, fa, fb, i + 1, None, depth, Quote::Single, ti, reps);
                } else if s[i] == '"' {
                    lemma_flow_within(s, fa, fb, i + 1, None, depth, Quote::Double, ti, reps);
                } else if flow_delimiter(s, fb, i) {
                    lemma_finish_within(s, token, i, ti, reps, lo);
                    if let Ok(r) = finish_token(s, token, i, ti, reps) {
                        lemma_flow_within(s, fa, fb, i + 1, None, depth_after(depth, s[i]), Quote::Outside, ti, r);
                    }
                } else if s[i] == '#' && (i == fa || is_ascii_whitespace(s[i - 1])) {
                    lemma_finish_within(s, token, i, ti, reps, lo);
                } else if !is_ascii_whitespace(s[i]) && token is None {
                    lemma_flow_within(s, fa, fb, i + 1, Some(i), depth, Quote::Outside, ti, reps);
                } else {
                    lemma_flow_within(s, fa, fb, i + 1, token, depth, Quote::Outside, ti, reps);
                }
            },
        }
    }
}


proof fn lemma_comment_bounds(s: Seq<char>, a: int, b: int, i: int, quote: Quote)
    requires
        a <= i <= b,
    ensures
        i <= comment_from(s, a, b, i, quote) <= b,
    decreases b - i,
{
    if i < b {
        match quote {
            Quote::Single => {
                if s[i] == '\'' && i + 1 < b && s[i + 1] == '\'' {
                    lemma_comment_bounds(s, a, b, i + 2, Quote::Single);
                } else if s[i] == '\'' {
                    lemma_comment_bounds(s, a, b, i + 1, Quote::Outside);
                } else {
                    lemma_comment_bounds(s, a, b, i + 1, Quote::Single);
                }
            },
            Quote::Double => {
                if s[i] == '\\' {
                    if i + 2 < b {
                        lemma_comment_bounds(s, a, b, i + 2, Quote::Double);
                    }
                } else if s[i] == '"' {
                    lemma_comment_bounds(s, a, b, i + 1, Quote::Outside);
                } else {
                    lemma_comment_bounds(s, a, b, i + 1, Quote::Double);
                }
            },
            Quote::Outside => {
                if s[i] == '\'' {
                    lemma_comment_bounds(s, a, b, i + 1, Quote::Single);
                } else if s[i] == '"' {
                    lemma_comment_bounds(s, a, b, i + 1, Quote::Double);
                } else if !(s[i] == '#' && (i == a || is_ascii_whitespace(s[i - 1]))) {
                    lemma_comment_bounds(s, a, b, i + 1, Quote::Outside);
                }
            },
        }
    }
}

proof fn lemma_colon_bounds(s: Seq<char>, b: int, i: int, quote: Quote)
    requires
        0 <= i,
    ensures
        colon_from(s, b, i, quote) matches Some(c) ==> i <= c < b,
    decreases b - i,
{
    if i < b {
        match quote {
            Quote::Single => {
                if s[i] == '\'' && i + 1 < b && s[i + 1] == '\'' {
                    lemma_colon_bounds(s, b, i + 2, Quote::Single);
                } else if s[i] == '\'' {
                    lemma_colon_bounds(s, b, i + 1, Quote::Outside);
                } else {
                    lemma_colon_bounds(s, b, i + 1, Quote::Single);
                }
            },
            Quote::Double => {
                if s[i] == '\\' {
                    if i + 2 < b {
                        lemma_colon_bounds(s, b, i + 2, Quote::Double);
                    }
                } else if s[i] == '"' {
                    lemma_colon_bounds(s, b, i + 1, Quote::Outside);
                } else {
                    lemma_colon_bounds(s, b, i + 1, Quote::Double);
                }
            },
            Quote::Outside => {
                if s[i] == '\'' {
                    lemma_colon_bounds(s, b, i + 1, Quote::Single);
                } else if s[i] == '"' {
                    lemma_colon_bounds(s, b, i + 1, Quote::Double);
                } else if !(s[i] == ':' && (i + 1 >= b || is_ascii_whitespace(s[i + 1]))) {
                    lemma_colon_bounds(s, b, i + 1, Quote::Outside);
                }
            },
        }
    }
}

proof fn lemma_entry_bounds(s: Seq<char>, a: int, c: int)
    requires
        0 <= a <= c,
    ensures
        mapping_entry(s, a, c) matches Some(e) ==> a <= e.value_start <= c,
{
    let t = skip_space(s, a, c);
    lemma_skip_space_bounds(s, a, c);
    if t + 1 < c {
        lemma_skip_space_bounds(s, t + 1, c);
    }
    let lone_dash = t + 1 == c && s[t] == '-';
    let ms = if lone_dash { c } else if dash_item(s, t, c) { skip_space(s, t + 1, c) } else { t };
    if ms < c {
        lemma_colon_bounds(s, c, ms, Quote::Outside);
        if let Some(k) = colon_from(s, c, ms, Quote::Outside) {
            lemma_skip_space_bounds(s, k + 1, c);
        }
    }
}

proof fn lemma_sequence_scalar_bounds(s: Seq<char>, a: int, c: int)
    requires
        0 <= a <= c,
    ensures
        sequence_scalar(s, a, c) matches Some(vs) ==> a <= vs < c,
{
    let t = skip_space(s, a, c);
    lemma_skip_space_bounds(s, a, c);
    if t < c {
        lemma_skip_space_bounds(s, t + 1, c);
    }
}

pub open spec fn line_floor(lines: Seq<(int, int)>, k: int, len: int) -> int {
    if 0 <= k < lines.len() { lines[k].0 } else { len }
}

proof fn lemma_scan_within(
    s: Seq<char>,
    lines: Seq<(int, int)>,
    k: int,
    type_doc: bool,
    ti: IntegerState,
    block: Option<int>,
    depth: int,
    quote: Quote,
    reps: Seq<RepView>,
)
    requires
        0 <= k,
        lines_ordered(lines, 0, s.len() as int),
        reps_within(reps, line_floor(lines, k, s.len() as int)),
    ensures
        lines_scan(s, lines, k, type_doc, ti, block, depth, quote, reps) matches Ok(r) ==> reps_within(r, s.len() as int),
    decreases lines.len() - k,
{
    if k >= lines.len() {
        return;
    }
    let (a, b) = lines[k];
    let len = s.len() as int;
    assert(0 <= a <= b <= len);
    let next = line_floor(lines, k + 1, len);
    assert(b <= next) by {
        if k + 1 < lines.len() {
            assert(lines[k].1 <= lines[k + 1].0);
        }
    }
    lemma_within_widen(reps, a, next);
    let indent = spaces_end(s, a, b) - a;
    if block matches Some(p) && (skip_space(s, a, b) >= b || indent > p) {
        lemma_scan_within(s, lines, k + 1, type_doc, ti, block, depth, quote, reps);
        return;
    }
    let c = if quote is Outside { code_end(s, a, b) } else { b };
    lemma_comment_bounds(s, a, b, a, Quote::Outside);
    assert(a <= c <= b);
    if skip_space(s, a, c) >= c {
        lemma_scan_within(s, lines, k + 1, type_doc, ti, None, depth, quote, reps);
        return;
    }
    let entry = mapping_entry(s, a, c);
    let stepped = if type_doc { integer_step(ti, indent, s, entry) } else { (ti, false) };
    let ti2 = stepped.0;
    let type_integer = stepped.1;
    lemma_entry_bounds(s, a, c);
    lemma_sequence_scalar_bounds(s, a, c);
    match entry {
        Some(e) => {
            if e.sequence_item && e.key_start == e.key_end {
                lemma_scan_within(s, lines, k + 1, type_doc, ti2, None, depth, quote, reps);
            } else if block_scalar_indicator(s, e.value_start, c) {
                lemma_scan_within(s, lines, k + 1, type_doc, ti2, Some(indent), depth, quote, reps);
            } else if e.value_start >= c {
                lemma_scan_within(s, lines, k + 1, type_doc, ti2, None, depth, quote, reps);
            } else if s[e.value_start] == '[' {
                lemma_within_widen(reps, a, e.value_start);
                lemma_flow_within(s, e.value_start, c, e.value_start, None, depth, quote, type_integer, reps);
                if let Ok((r, d, q)) = flow_scan(s, e.value_start, c, e.value_start, None, depth, quote, type_integer, reps) {
                    lemma_within_widen(r, c, next);
                    lemma_scan_within(s, lines, k + 1, type_doc, ti2, None, d, q, r);
                }
            } else {
                lemma_finish_within(s, Some(e.value_start), c, type_integer, reps, a);
                if let Ok(r) = finish_token(s, Some(e.value_start), c, type_integer, reps) {
                    lemma_within_widen(r, c, next);
                    lemma_scan_within(s, lines, k + 1, type_doc, ti2, None, depth, quote, r);
                }
            }
        },
        None => {
            if depth > 0 {
                lemma_flow_within(s, a, c, a, None, depth, quote, false, reps);
                if let Ok((r, d, q)) = flow_scan(s, a, c, a, None, depth, quote, false, reps) {
                    lemma_within_widen(r, c, next);
                    lemma_scan_within(s, lines, k + 1, type_doc, ti2, None, d, q, r);
                }
            } else {
                match sequence_scalar(s, a, c) {
                    None => {
                        lemma_scan_within(s, lines, k + 1, type_doc, ti2, None, depth, quote, reps);
                    },
                    Some(vs) => {
                        if s[vs] == '[' {
                            let te = trim_end_at(s, vs, c);
                            lemma_trim_end_bounds(s, vs, c);
                            lemma_within_widen(reps, a, vs);
                            lemma_flow_within(s, vs, te, vs, None, depth, quote, false, reps);
                            if let Ok((r, d, q)) = flow_scan(s, vs, te, vs, None, depth, quote, false, reps) {
                                lemma_within_widen(r, te, next);
                                lemma_scan_within(s, lines, k + 1, type_doc, ti2, None, d, q, r);
                            }
                        } else {
                            lemma_finish_within(s, Some(vs), c, false, reps, a);
                            if let Ok(r) = finish_token(s, Some(vs), c, false, reps) {
                                lemma_within_widen(r, c, next);
                                lemma_scan_within(s, lines, k + 1, type_doc, ti2, None, depth, quote, r);
                            }
                        }
                    },
                }
            }
        },
    }
}


/// The text with the replacements made, the last first.
pub open spec fn replaced(s: Seq<char>, reps: Seq<RepView>) -> Seq<char>
    decreases reps.len(),
{
    if reps.len() == 0 {
        s
    } else {
        let r = reps.last();
        replaced(s.subrange(0, r.start) + r.text + s.subrange(r.end, s.len() as int), reps.drop_last())
    }
}

/// The lexical check of a whole document: the text with its non-canonical plain
/// words quoted, or the first refusal.
pub open spec fn yaml_lexemes(s: Seq<char>) -> Result<Seq<char>, Refusal> {
    let lines = source_lines(s);
    match lines_scan(s, lines, 0, declares_type_from(s, lines, 0), no_integer_state(), None, 0, Quote::Outside, Seq::empty()) {
        Err(r) => Err(r),
        Ok(reps) => Ok(replaced(s, reps)),
    }
}

/// A refusal as a parse error of the document at `path`.
pub open spec fn yaml_failure(path: Seq<char>, r: Refusal) -> DiagnosticView {
    DiagnosticView {
        source: Some(path),
        related_requirements: seq![r.2],
        ..fresh_diagnostic(r.0, ErrorKind::Parse, r.1)
    }
}

fn apply_replacements(s: &Vec<char>, reps: &Vec<Replacement>) -> (out: Vec<char>)
    requires
        reps_within(reps_view(reps@), s@.len() as int),
    ensures
        out@ == replaced(s@, reps_view(reps@)),
{
    let ghost rv = reps_view(reps@);
    let empty: Vec<char> = Vec::new();
    let mut cur = splice_chars(s, 0, 0, &empty);
    let mut j = reps.len();
    let mut bound = s.len();
    proof {
        assert(cur@ =~= s@);
        assert(rv.take(j as int) =~= rv);
    }
    while j > 0
        invariant
            j <= reps@.len(),
            rv == reps_view(reps@),
            reps_within(rv, s@.len() as int),
            bound <= cur@.len(),
            bound <= s@.len(),
            j < reps@.len() ==> bound == rv[j as int].start,
            j == reps@.len() ==> bound == s@.len(),
            cur@.subrange(0, bound as int) == s@.subrange(0, bound as int),
            replaced(s@, rv) == replaced(cur@, rv.take(j as int)),
        decreases j,
    {
        let r = &reps[j - 1];
        proof {
            assert(rv[j - 1] == rep_view(*r));
            assert(rv.take(j as int).last() == rv[j - 1]);
            assert(rv.take(j as int).drop_last() =~= rv.take(j - 1));
            assert(0 <= rv[j - 1].start < rv[j - 1].end <= s@.len());
            if j < reps@.len() {
                assert(rv[j - 1].end <= rv[j as int].start);
            }
            assert(r.end <= bound);
        }
        let text = chars_of(r.text.as_str());
        let ghost old_cur = cur@;
        cur = splice_chars(&cur, r.start, r.end, &text);
        proof {
            assert(cur@.subrange(0, r.start as int) =~= old_cur.subrange(0, r.start as int));
            assert(old_cur.subrange(0, r.start as int) =~= old_cur.subrange(0, bound as int).subrange(0, r.start as int));
            assert(s@.subrange(0, r.start as int) =~= s@.subrange(0, bound as int).subrange(0, r.start as int));
        }
        bound = r.start;
        j = j - 1;
    }
    proof {
        assert(rv.take(0) =~= Seq::<RepView>::empty());
    }
    cur
}

/// The Masterdata YAML subset's lexical check of a document at `path`:
/// plain scalars that YAML would read as another value are refused, and
/// YAML 1.1 boolean and null words in other spellings are quoted.
pub fn validate_masterdata_yaml_lexemes(path: &str, content: &str) -> (result: Result<String, MasterdataError>)
    ensures
        match result {
            Ok(text) => yaml_lexemes(content@) == Ok::<Seq<char>, Refusal>(text@),
            Err(e) => yaml_lexemes(content@) matches Err(r) && e@ == yaml_failure(path@, r),
        },
{
    let s = chars_of(content);
    let lines = split_lines(&s);
    proof {
        lemma_source_lines_ordered(s@);
        assert(lines_view(lines@) == source_lines(s@));
    }
    let type_doc = declares_type_at(&s, &lines);
    proof {
        assert(forall|k: int| 0 <= k < lines@.len() ==> #[trigger] lines@[k].start <= lines@[k].end <= s@.len());
    }
    match lines_scan_at(&s, &lines, type_doc) {
        Err(refusal) => {
            let error = MasterdataError::new(refusal.code, ErrorKind::Parse, refusal.message.as_str())
                .with_source(path)
                .with_related_requirement(refusal.requirement);
            proof {
                assert(Seq::<Seq<char>>::empty().push(refusal.requirement@) =~= seq![refusal.requirement@]);
            }
            Err(error)
        },
        Ok(reps) => {
            proof {
                lemma_scan_within(s@, lines_view(lines@), 0, type_doc, no_integer_state(), None, 0, Quote::Outside, Seq::empty());
            }
            let out = apply_replacements(&s, &reps);
            Ok(string_from_chars(out.as_slice()))
        },
    }
}

} // verus!
