//! Lexer and parser of the Computed View expression language.
//!
//! Tokens and syntax nodes carry two spans: UTF-8 byte offsets, which are the
//! positions reported to users, and character positions, which the
//! source-preserving rename works with.

use vstd::prelude::*;
use vstd::string::StringSliceAdditionalSpecFns;
use vstd::utf8::{encode_scalar, encode_utf8};

use crate::computed_view::ExpressionSpan;
use crate::numeric::is_digit;
use crate::text::{chars_of, is_ascii_whitespace, str_eq, string_from_range};

verus! {

/// The byte offset of character position `k`: the UTF-8 length of the prefix.
pub open spec fn byte_offset(chars: Seq<char>, k: int) -> int {
    encode_utf8(chars.subrange(0, k)).len() as int
}

proof fn lemma_encode_utf8_append(a: Seq<char>, b: Seq<char>)
    ensures
        encode_utf8(a + b) == encode_utf8(a) + encode_utf8(b),
    decreases a.len(),
{
    if a.len() == 0 {
        assert(a + b =~= b);
    } else {
        lemma_encode_utf8_append(a.drop_first(), b);
        assert((a + b).drop_first() =~= a.drop_first() + b);
        assert((a + b)[0] == a[0]);
    }
}

proof fn lemma_byte_offset_step(chars: Seq<char>, k: int)
    requires
        0 <= k < chars.len(),
    ensures
        byte_offset(chars, k + 1) == byte_offset(chars, k) + encode_scalar(chars[k] as u32).len(),
        byte_offset(chars, k + 1) <= byte_offset(chars, chars.len() as int),
{
    let prefix = chars.subrange(0, k);
    assert(chars.subrange(0, k + 1) =~= prefix + seq![chars[k]]);
    lemma_encode_utf8_append(prefix, seq![chars[k]]);
    assert(seq![chars[k]].drop_first() =~= Seq::<char>::empty());
    assert(encode_utf8(seq![chars[k]]) =~= encode_scalar(chars[k] as u32) + encode_utf8(Seq::<char>::empty()));
    assert(chars.subrange(0, chars.len() as int) =~= chars.subrange(0, k + 1) + chars.subrange(k + 1, chars.len() as int));
    lemma_encode_utf8_append(chars.subrange(0, k + 1), chars.subrange(k + 1, chars.len() as int));
}

/// The UTF-8 width of a character.
fn char_width(c: char) -> (width: usize)
    ensures
        width == encode_scalar(c as u32).len(),
        1 <= width <= 4,
{
    proof {
        vstd::utf8::char_is_scalar(c);
    }
    let v = c as u32;
    if v < 0x80 {
        1
    } else if v < 0x800 {
        2
    } else if v < 0x10000 {
        3
    } else {
        4
    }
}

/// The byte offset of every character position `0..=n` of `text`.
fn byte_offsets(text: &str, chars: &Vec<char>) -> (offsets: Vec<usize>)
    requires
        chars@ == text@,
    ensures
        offsets@.len() == chars@.len() + 1,
        forall|k: int| 0 <= k <= chars@.len() ==> #[trigger] offsets@[k] == byte_offset(chars@, k),
{
    let bytes = text.as_bytes();
    let total = bytes.len();
    proof {
        assert(chars@.subrange(0, chars@.len() as int) =~= chars@);
        assert(text.spec_bytes() == encode_utf8(text@));
    }
    let mut offsets: Vec<usize> = Vec::new();
    let mut offset: usize = 0;
    let mut k: usize = 0;
    proof {
        assert(chars@.subrange(0, 0) =~= Seq::<char>::empty());
    }
    while k < chars.len()
        invariant
            k <= chars@.len(),
            total == byte_offset(chars@, chars@.len() as int),
            offset == byte_offset(chars@, k as int),
            offsets@.len() == k,
            forall|m: int| 0 <= m < k ==> #[trigger] offsets@[m] == byte_offset(chars@, m),
        decreases chars@.len() - k,
    {
        offsets.push(offset);
        proof {
            lemma_byte_offset_step(chars@, k as int);
        }
        offset = offset + char_width(chars[k]);
        k = k + 1;
    }
    offsets.push(offset);
    offsets
}

/// Operator tokens of the expression language.
#[derive(Debug, Clone, Copy, PartialEq, Eq, Structural)]
pub enum OperatorToken {
    Coalesce,
    OrOr,
    AndAnd,
    EqualEqual,
    BangEqual,
    LessEqual,
    GreaterEqual,
    Plus,
    Minus,
    Star,
    Slash,
    Percent,
    Bang,
    Less,
    Greater,
}

#[derive(Debug)]
pub enum TokenKind {
    Identifier(String),
    Number { value: String, float: bool },
    Text(String),
    Null,
    Bool(bool),
    Question,
    Colon,
    Dot,
    LeftParen,
    RightParen,
    Operator(OperatorToken),
    End,
}

/// A token with its byte span and its character positions `first..last`.
#[derive(Debug)]
pub struct Token {
    pub kind: TokenKind,
    pub span: ExpressionSpan,
    pub first: usize,
    pub last: usize,
}

/// What a token is, with its text as characters.
pub enum TokenView {
    Identifier(Seq<char>),
    Number(Seq<char>, bool),
    Text(Seq<char>),
    Null,
    Bool(bool),
    Question,
    Colon,
    Dot,
    LeftParen,
    RightParen,
    Operator(OperatorToken),
    End,
}

pub struct TokenSpec {
    pub kind: TokenView,
    pub start: int,
    pub end: int,
    pub first: int,
    pub last: int,
}

/// A syntax error: a message and a byte span.
pub struct SyntaxError {
    pub message: Seq<char>,
    pub start: int,
    pub end: int,
}

/// A syntax error as the parser reports it.
#[derive(Debug)]
pub struct SyntaxFailure {
    pub message: String,
    pub span: ExpressionSpan,
}

pub open spec fn kind_view(kind: TokenKind) -> TokenView {
    match kind {
        TokenKind::Identifier(name) => TokenView::Identifier(name@),
        TokenKind::Number { value, float } => TokenView::Number(value@, float),
        TokenKind::Text(value) => TokenView::Text(value@),
        TokenKind::Null => TokenView::Null,
        TokenKind::Bool(b) => TokenView::Bool(b),
        TokenKind::Question => TokenView::Question,
        TokenKind::Colon => TokenView::Colon,
        TokenKind::Dot => TokenView::Dot,
        TokenKind::LeftParen => TokenView::LeftParen,
        TokenKind::RightParen => TokenView::RightParen,
        TokenKind::Operator(op) => TokenView::Operator(op),
        TokenKind::End => TokenView::End,
    }
}

pub open spec fn token_view(token: Token) -> TokenSpec {
    TokenSpec {
        kind: kind_view(token.kind),
        start: token.span.start as int,
        end: token.span.end as int,
        first: token.first as int,
        last: token.last as int,
    }
}

pub open spec fn tokens_view(tokens: Seq<Token>) -> Seq<TokenSpec> {
    tokens.map_values(|t: Token| token_view(t))
}

pub open spec fn failure_view(failure: SyntaxFailure) -> SyntaxError {
    SyntaxError { message: failure.message@, start: failure.span.start as int, end: failure.span.end as int }
}

/// What `serde_json::from_str::<String>` gives for a JSON string literal:
/// the decoded text, or `None` when the literal is refused.
pub uninterp spec fn json_string_literal(raw: Seq<char>) -> Option<Seq<char>>;

/// Decode a JSON string literal with `serde_json::from_str::<String>`.
#[verifier::external_body]
fn decode_json_string(raw: &str) -> (decoded: Option<String>)
    ensures
        match decoded {
            Some(text) => json_string_literal(raw@) == Some(text@),
            None => json_string_literal(raw@) is None,
        },
{
    serde_json::from_str::<String>(raw).ok()
}

pub open spec fn is_ident_start(c: char) -> bool {
    ('a' <= c && c <= 'z') || ('A' <= c && c <= 'Z') || c == '_'
}

pub open spec fn is_ident_continue(c: char) -> bool {
    is_ident_start(c) || is_digit(c)
}

/// End of the identifier characters from `j`.
pub open spec fn ident_end(chars: Seq<char>, j: int) -> int
    decreases chars.len() - j,
{
    if 0 <= j < chars.len() && is_ident_continue(chars[j]) { ident_end(chars, j + 1) } else { j }
}

/// End of the decimal digits from `j`.
pub open spec fn digits_end(chars: Seq<char>, j: int) -> int
    decreases chars.len() - j,
{
    if 0 <= j < chars.len() && is_digit(chars[j]) { digits_end(chars, j + 1) } else { j }
}

/// End of a string literal's body from `j`: just past the first unescaped
/// quote, or the end of the text.
pub open spec fn quote_end(chars: Seq<char>, j: int, escaped: bool) -> int
    decreases chars.len() - j,
{
    if j < 0 || j >= chars.len() {
        j
    } else if escaped {
        quote_end(chars, j + 1, false)
    } else if chars[j] == '\\' {
        quote_end(chars, j + 1, true)
    } else if chars[j] == '"' {
        j + 1
    } else {
        quote_end(chars, j + 1, false)
    }
}

pub open spec fn span_error(chars: Seq<char>, message: Seq<char>, from: int, to: int) -> SyntaxError {
    SyntaxError { message, start: byte_offset(chars, from), end: byte_offset(chars, to) }
}

pub open spec fn keyword_or_identifier(word: Seq<char>) -> TokenView {
    if word == "null"@ {
        TokenView::Null
    } else if word == "true"@ {
        TokenView::Bool(true)
    } else if word == "false"@ {
        TokenView::Bool(false)
    } else {
        TokenView::Identifier(word)
    }
}

pub open spec fn two_char_operator(a: char, b: char) -> Option<OperatorToken> {
    if a == '?' && b == '?' {
        Some(OperatorToken::Coalesce)
    } else if a == '|' && b == '|' {
        Some(OperatorToken::OrOr)
    } else if a == '&' && b == '&' {
        Some(OperatorToken::AndAnd)
    } else if a == '=' && b == '=' {
        Some(OperatorToken::EqualEqual)
    } else if a == '!' && b == '=' {
        Some(OperatorToken::BangEqual)
    } else if a == '<' && b == '=' {
        Some(OperatorToken::LessEqual)
    } else if a == '>' && b == '=' {
        Some(OperatorToken::GreaterEqual)
    } else {
        None
    }
}

pub open spec fn one_char_token(c: char) -> Option<TokenView> {
    if c == '?' {
        Some(TokenView::Question)
    } else if c == ':' {
        Some(TokenView::Colon)
    } else if c == '.' {
        Some(TokenView::Dot)
    } else if c == '(' {
        Some(TokenView::LeftParen)
    } else if c == ')' {
        Some(TokenView::RightParen)
    } else if c == '+' {
        Some(TokenView::Operator(OperatorToken::Plus))
    } else if c == '-' {
        Some(TokenView::Operator(OperatorToken::Minus))
    } else if c == '*' {
        Some(TokenView::Operator(OperatorToken::Star))
    } else if c == '/' {
        Some(TokenView::Operator(OperatorToken::Slash))
    } else if c == '%' {
        Some(TokenView::Operator(OperatorToken::Percent))
    } else if c == '!' {
        Some(TokenView::Operator(OperatorToken::Bang))
    } else if c == '<' {
        Some(TokenView::Operator(OperatorToken::Less))
    } else if c == '>' {
        Some(TokenView::Operator(OperatorToken::Greater))
    } else {
        None
    }
}

/// A number token from position `i`: digits, an optional `.` and digits,
/// an optional exponent that must have digits.
pub open spec fn scan_number(chars: Seq<char>, i: int) -> Result<(TokenView, int), SyntaxError> {
    let a = digits_end(chars, i + 1);
    let dot = a < chars.len() && chars[a] == '.';
    let b = if dot { digits_end(chars, a + 1) } else { a };
    if b < chars.len() && (chars[b] == 'e' || chars[b] == 'E') {
        let s = if b + 1 < chars.len() && (chars[b + 1] == '+' || chars[b + 1] == '-') { b + 2 } else { b + 1 };
        let c = digits_end(chars, s);
        if c == s {
            Err(span_error(chars, "numeric exponent requires digits"@, i, c))
        } else {
            Ok((TokenView::Number(chars.subrange(i, c), true), c))
        }
    } else {
        Ok((TokenView::Number(chars.subrange(i, b), dot), b))
    }
}

/// A string literal token from the quote at position `i`, decoded as JSON.
pub open spec fn scan_text(chars: Seq<char>, i: int) -> Result<(TokenView, int), SyntaxError> {
    let j = quote_end(chars, i + 1, false);
    if chars[j - 1] != '"' {
        Err(span_error(chars, "unterminated string literal"@, i, j))
    } else {
        match json_string_literal(chars.subrange(i, j)) {
            Some(value) => Ok((TokenView::Text(value), j)),
            None => Err(span_error(chars, "invalid JSON-compatible string escape"@, i, j)),
        }
    }
}

/// The token that starts at the non-space character `i`, and where it ends.
pub open spec fn scan_token(chars: Seq<char>, i: int) -> Result<(TokenView, int), SyntaxError> {
    let c = chars[i];
    if is_ident_start(c) {
        let j = ident_end(chars, i + 1);
        Ok((keyword_or_identifier(chars.subrange(i, j)), j))
    } else if is_digit(c) {
        scan_number(chars, i)
    } else if c == '"' {
        scan_text(chars, i)
    } else if i + 1 < chars.len() && two_char_operator(c, chars[i + 1]) is Some {
        Ok((TokenView::Operator(two_char_operator(c, chars[i + 1])->0), i + 2))
    } else {
        match one_char_token(c) {
            Some(token) => Ok((token, i + 1)),
            None => Err(SyntaxError {
                message: "unexpected character in expression"@,
                start: byte_offset(chars, i),
                end: byte_offset(chars, i) + 1,
            }),
        }
    }
}

/// The closing `End` token.
pub open spec fn end_token(chars: Seq<char>) -> TokenSpec {
    let n = chars.len() as int;
    TokenSpec { kind: TokenView::End, start: byte_offset(chars, n), end: byte_offset(chars, n), first: n, last: n }
}

/// The tokens of `chars[i..]`, ending with `End`, or the first lexical error.
pub open spec fn lex_from(chars: Seq<char>, i: int) -> Result<Seq<TokenSpec>, SyntaxError>
    decreases chars.len() - i,
{
    if i < 0 || i >= chars.len() {
        Ok(seq![end_token(chars)])
    } else if is_ascii_whitespace(chars[i]) {
        lex_from(chars, i + 1)
    } else {
        match scan_token(chars, i) {
            Err(e) => Err(e),
            Ok((kind, j)) => {
                if j <= i || j > chars.len() {
                    Err(span_error(chars, "unexpected character in expression"@, i, i))
                } else {
                    match lex_from(chars, j) {
                        Ok(rest) => Ok(seq![TokenSpec {
                            kind,
                            start: byte_offset(chars, i),
                            end: byte_offset(chars, j),
                            first: i,
                            last: j,
                        }] + rest),
                        Err(e) => Err(e),
                    }
                }
            },
        }
    }
}

/// The tokens of an expression.
pub open spec fn lex_spec(source: Seq<char>) -> Result<Seq<TokenSpec>, SyntaxError> {
    lex_from(source, 0)
}

/// `ts` in front of a lexing result.
pub open spec fn prepend(ts: Seq<TokenSpec>, rest: Result<Seq<TokenSpec>, SyntaxError>) -> Result<Seq<TokenSpec>, SyntaxError> {
    match rest {
        Ok(more) => Ok(ts + more),
        Err(e) => Err(e),
    }
}

fn ident_continue(c: char) -> (result: bool)
    ensures
        result == is_ident_continue(c),
{
    ('a' <= c && c <= 'z') || ('A' <= c && c <= 'Z') || c == '_' || ('0' <= c && c <= '9')
}

fn ident_end_at(chars: &Vec<char>, j: usize) -> (end: usize)
    requires
        j <= chars@.len(),
    ensures
        end == ident_end(chars@, j as int),
        j <= end <= chars@.len(),
{
    let mut k = j;
    while k < chars.len() && ident_continue(chars[k])
        invariant
            j <= k <= chars@.len(),
            ident_end(chars@, j as int) == ident_end(chars@, k as int),
        decreases chars@.len() - k,
    {
        k = k + 1;
    }
    k
}

fn digits_end_at(chars: &Vec<char>, j: usize) -> (end: usize)
    requires
        j <= chars@.len(),
    ensures
        end == digits_end(chars@, j as int),
        j <= end <= chars@.len(),
{
    let mut k = j;
    while k < chars.len() && '0' <= chars[k] && chars[k] <= '9'
        invariant
            j <= k <= chars@.len(),
            digits_end(chars@, j as int) == digits_end(chars@, k as int),
        decreases chars@.len() - k,
    {
        k = k + 1;
    }
    k
}

fn quote_end_at(chars: &Vec<char>, j: usize) -> (end: usize)
    requires
        j <= chars@.len(),
    ensures
        end == quote_end(chars@, j as int, false),
        j <= end <= chars@.len(),
{
    let mut k = j;
    let mut escaped = false;
    while k < chars.len()
        invariant
            j <= k <= chars@.len(),
            quote_end(chars@, j as int, false) == quote_end(chars@, k as int, escaped),
        decreases chars@.len() - k,
    {
        let current = chars[k];
        k = k + 1;
        if escaped {
            escaped = false;
        } else if current == '\\' {
            escaped = true;
        } else if current == '"' {
            return k;
        }
    }
    k
}

fn failure(message: &str, start: usize, end: usize) -> (f: SyntaxFailure)
    ensures
        failure_view(f) == (SyntaxError { message: message@, start: start as int, end: end as int }),
{
    SyntaxFailure { message: String::from_str(message), span: ExpressionSpan { start, end } }
}

fn two_char_operator_of(a: char, b: char) -> (op: Option<OperatorToken>)
    ensures
        op == two_char_operator(a, b),
{
    if a == '?' && b == '?' {
        Some(OperatorToken::Coalesce)
    } else if a == '|' && b == '|' {
        Some(OperatorToken::OrOr)
    } else if a == '&' && b == '&' {
        Some(OperatorToken::AndAnd)
    } else if a == '=' && b == '=' {
        Some(OperatorToken::EqualEqual)
    } else if a == '!' && b == '=' {
        Some(OperatorToken::BangEqual)
    } else if a == '<' && b == '=' {
        Some(OperatorToken::LessEqual)
    } else if a == '>' && b == '=' {
        Some(OperatorToken::GreaterEqual)
    } else {
        None
    }
}

fn one_char_token_of(c: char) -> (token: Option<TokenKind>)
    ensures
        match token {
            Some(t) => one_char_token(c) == Some(kind_view(t)),
            None => one_char_token(c) is None,
        },
{
    if c == '?' {
        Some(TokenKind::Question)
    } else if c == ':' {
        Some(TokenKind::Colon)
    } else if c == '.' {
        Some(TokenKind::Dot)
    } else if c == '(' {
        Some(TokenKind::LeftParen)
    } else if c == ')' {
        Some(TokenKind::RightParen)
    } else if c == '+' {
        Some(TokenKind::Operator(OperatorToken::Plus))
    } else if c == '-' {
        Some(TokenKind::Operator(OperatorToken::Minus))
    } else if c == '*' {
        Some(TokenKind::Operator(OperatorToken::Star))
    } else if c == '/' {
        Some(TokenKind::Operator(OperatorToken::Slash))
    } else if c == '%' {
        Some(TokenKind::Operator(OperatorToken::Percent))
    } else if c == '!' {
        Some(TokenKind::Operator(OperatorToken::Bang))
    } else if c == '<' {
        Some(TokenKind::Operator(OperatorToken::Less))
    } else if c == '>' {
        Some(TokenKind::Operator(OperatorToken::Greater))
    } else {
        None
    }
}

fn scan_number_at(chars: &Vec<char>, offsets: &Vec<usize>, i: usize) -> (result: Result<(TokenKind, usize), SyntaxFailure>)
    requires
        i < chars@.len(),
        offsets@.len() == chars@.len() + 1,
        forall|k: int| 0 <= k <= chars@.len() ==> #[trigger] offsets@[k] == byte_offset(chars@, k),
    ensures
        match result {
            Ok((kind, j)) => scan_number(chars@, i as int) == Ok::<(TokenView, int), SyntaxError>((kind_view(kind), j as int)) && i < j <= chars@.len(),
            Err(e) => scan_number(chars@, i as int) == Err::<(TokenView, int), SyntaxError>(failure_view(e)),
        },
{
    let n = chars.len();
    let a = digits_end_at(chars, i + 1);
    let dot = a < n && chars[a] == '.';
    let b = if dot { digits_end_at(chars, a + 1) } else { a };
    if b < n && (chars[b] == 'e' || chars[b] == 'E') {
        let s = if b + 1 < n && (chars[b + 1] == '+' || chars[b + 1] == '-') { b + 2 } else { b + 1 };
        let c = digits_end_at(chars, s);
        if c == s {
            return Err(failure("numeric exponent requires digits", offsets[i], offsets[c]));
        }
        Ok((TokenKind::Number { value: string_from_range(chars, i, c), float: true }, c))
    } else {
        Ok((TokenKind::Number { value: string_from_range(chars, i, b), float: dot }, b))
    }
}

fn scan_text_at(chars: &Vec<char>, offsets: &Vec<usize>, i: usize) -> (result: Result<(TokenKind, usize), SyntaxFailure>)
    requires
        i < chars@.len(),
        offsets@.len() == chars@.len() + 1,
        forall|k: int| 0 <= k <= chars@.len() ==> #[trigger] offsets@[k] == byte_offset(chars@, k),
    ensures
        match result {
            Ok((kind, j)) => scan_text(chars@, i as int) == Ok::<(TokenView, int), SyntaxError>((kind_view(kind), j as int)) && i < j <= chars@.len(),
            Err(e) => scan_text(chars@, i as int) == Err::<(TokenView, int), SyntaxError>(failure_view(e)),
        },
{
    let n = chars.len();
    let j = quote_end_at(chars, i + 1);
    if chars[j - 1] != '"' {
        return Err(failure("unterminated string literal", offsets[i], offsets[j]));
    }
    let raw = string_from_range(chars, i, j);
    match decode_json_string(raw.as_str()) {
        Some(value) => Ok((TokenKind::Text(value), j)),
        None => Err(failure("invalid JSON-compatible string escape", offsets[i], offsets[j])),
    }
}

fn scan_token_at(chars: &Vec<char>, offsets: &Vec<usize>, i: usize) -> (result: Result<(TokenKind, usize), SyntaxFailure>)
    requires
        i < chars@.len(),
        offsets@.len() == chars@.len() + 1,
        forall|k: int| 0 <= k <= chars@.len() ==> #[trigger] offsets@[k] == byte_offset(chars@, k),
    ensures
        match result {
            Ok((kind, j)) => scan_token(chars@, i as int) == Ok::<(TokenView, int), SyntaxError>((kind_view(kind), j as int)) && i < j <= chars@.len(),
            Err(e) => scan_token(chars@, i as int) == Err::<(TokenView, int), SyntaxError>(failure_view(e)),
        },
{
    let n = chars.len();
    let c = chars[i];
    if ('a' <= c && c <= 'z') || ('A' <= c && c <= 'Z') || c == '_' {
        let j = ident_end_at(chars, i + 1);
        let word = string_from_range(chars, i, j);
        let kind = if str_eq(word.as_str(), "null") {
            TokenKind::Null
        } else if str_eq(word.as_str(), "true") {
            TokenKind::Bool(true)
        } else if str_eq(word.as_str(), "false") {
            TokenKind::Bool(false)
        } else {
            TokenKind::Identifier(word)
        };
        return Ok((kind, j));
    }
    if '0' <= c && c <= '9' {
        return scan_number_at(chars, offsets, i);
    }
    if c == '"' {
        return scan_text_at(chars, offsets, i);
    }
    if i + 1 < n {
        if let Some(op) = two_char_operator_of(c, chars[i + 1]) {
            return Ok((TokenKind::Operator(op), i + 2));
        }
    }
    match one_char_token_of(c) {
        Some(token) => Ok((token, i + 1)),
        None => {
            proof {
                lemma_byte_offset_step(chars@, i as int);
                assert(offsets@[i + 1] == byte_offset(chars@, i + 1));
                assert(offsets@[n as int] == byte_offset(chars@, n as int));
            }
            Err(failure("unexpected character in expression", offsets[i], offsets[i] + 1))
        },
    }
}

/// Split an expression into tokens that end with `End`, or report the
/// first lexical error.
pub fn lex(source: &str) -> (result: Result<Vec<Token>, SyntaxFailure>)
    ensures
        match result {
            Ok(tokens) => lex_spec(source@) == Ok::<Seq<TokenSpec>, SyntaxError>(tokens_view(tokens@)),
            Err(e) => lex_spec(source@) == Err::<Seq<TokenSpec>, SyntaxError>(failure_view(e)),
        },
{
    let chars = chars_of(source);
    let offsets = byte_offsets(source, &chars);
    let n = chars.len();
    let mut tokens: Vec<Token> = Vec::new();
    let mut i: usize = 0;
    proof {
        assert(tokens_view(tokens@) =~= Seq::<TokenSpec>::empty());
        assert(prepend(Seq::empty(), lex_from(chars@, 0)) == lex_from(chars@, 0)) by {
            match lex_from(chars@, 0) {
                Ok(more) => {
                    assert(Seq::<TokenSpec>::empty() + more =~= more);
                },
                Err(_) => {},
            }
        }
    }
    while i < n
        invariant
            i <= n,
            n == chars@.len(),
            chars@ == source@,
            offsets@.len() == chars@.len() + 1,
            forall|k: int| 0 <= k <= chars@.len() ==> #[trigger] offsets@[k] == byte_offset(chars@, k),
            lex_spec(source@) == prepend(tokens_view(tokens@), lex_from(chars@, i as int)),
        decreases n - i,
    {
        let c = chars[i];
        if c == ' ' || c == '\t' || c == '\n' || c == '\r' || c == '\x0C' {
            i = i + 1;
        } else {
            let (kind, j) = match scan_token_at(&chars, &offsets, i) {
                Ok(found) => found,
                Err(e) => {
                    return Err(e);
                },
            };
            let token = Token { kind, span: ExpressionSpan { start: offsets[i], end: offsets[j] }, first: i, last: j };
            let ghost before = tokens_view(tokens@);
            tokens.push(token);
            proof {
                assert(tokens_view(tokens@) =~= before.push(token_view(token)));
                match lex_from(chars@, j as int) {
                    Ok(more) => {
                        assert(before + (seq![token_view(token)] + more) =~= before.push(token_view(token)) + more);
                    },
                    Err(_) => {},
                }
            }
            i = j;
        }
    }
    let end = Token { kind: TokenKind::End, span: ExpressionSpan { start: offsets[n], end: offsets[n] }, first: n, last: n };
    let ghost before = tokens_view(tokens@);
    tokens.push(end);
    proof {
        assert(tokens_view(tokens@) =~= before.push(token_view(end)));
        assert(before + seq![end_token(chars@)] =~= before.push(token_view(end)));
    }
    Ok(tokens)
}

#[derive(Debug, Clone, Copy, PartialEq, Eq, Structural)]
pub enum UnaryOperator {
    Not,
    Plus,
    Minus,
}

#[derive(Debug, Clone, Copy, PartialEq, Eq, Structural)]
pub enum BinaryOperator {
    Coalesce,
    Or,
    And,
    Equal,
    NotEqual,
    Less,
    LessEqual,
    Greater,
    GreaterEqual,
    Add,
    Subtract,
    Multiply,
    Divide,
    Remainder,
}

/// A syntax node with its byte span and character positions `first..last`.
#[derive(Debug)]
pub struct RawExpression {
    pub span: ExpressionSpan,
    pub first: usize,
    pub last: usize,
    pub kind: RawExpressionKind,
}

#[derive(Debug)]
pub enum RawExpressionKind {
    Null,
    Bool(bool),
    Integer(String),
    Float(String),
    Text(String),
    Field(String),
    EnumLiteral { enum_name: String, member: String },
    Unary { operator: UnaryOperator, operand: Box<RawExpression> },
    Binary { operator: BinaryOperator, left: Box<RawExpression>, right: Box<RawExpression> },
    Conditional { condition: Box<RawExpression>, when_true: Box<RawExpression>, when_false: Box<RawExpression> },
}

/// The mathematical content of a syntax node.
pub struct ExprTree {
    pub start: int,
    pub end: int,
    pub first: int,
    pub last: int,
    pub kind: ExprKind,
}

pub enum ExprKind {
    Null,
    Bool(bool),
    Integer(Seq<char>),
    Float(Seq<char>),
    Text(Seq<char>),
    Field(Seq<char>),
    EnumLiteral(Seq<char>, Seq<char>),
    Unary(UnaryOperator, Box<ExprTree>),
    Binary(BinaryOperator, Box<ExprTree>, Box<ExprTree>),
    Conditional(Box<ExprTree>, Box<ExprTree>, Box<ExprTree>),
}

pub open spec fn tree_of(e: RawExpression) -> ExprTree
    decreases e,
{
    let kind = match e.kind {
        RawExpressionKind::Null => ExprKind::Null,
        RawExpressionKind::Bool(b) => ExprKind::Bool(b),
        RawExpressionKind::Integer(v) => ExprKind::Integer(v@),
        RawExpressionKind::Float(v) => ExprKind::Float(v@),
        RawExpressionKind::Text(v) => ExprKind::Text(v@),
        RawExpressionKind::Field(v) => ExprKind::Field(v@),
        RawExpressionKind::EnumLiteral { enum_name, member } => ExprKind::EnumLiteral(enum_name@, member@),
        RawExpressionKind::Unary { operator, operand } => ExprKind::Unary(operator, Box::new(tree_of(*operand))),
        RawExpressionKind::Binary { operator, left, right } =>
            ExprKind::Binary(operator, Box::new(tree_of(*left)), Box::new(tree_of(*right))),
        RawExpressionKind::Conditional { condition, when_true, when_false } => ExprKind::Conditional(
            Box::new(tree_of(*condition)),
            Box::new(tree_of(*when_true)),
            Box::new(tree_of(*when_false)),
        ),
    };
    ExprTree { start: e.span.start as int, end: e.span.end as int, first: e.first as int, last: e.last as int, kind }
}

pub open spec fn token_error(token: TokenSpec, message: Seq<char>) -> SyntaxError {
    SyntaxError { message, start: token.start, end: token.end }
}

pub open spec fn leaf(token: TokenSpec, kind: ExprKind) -> ExprTree {
    ExprTree { start: token.start, end: token.end, first: token.first, last: token.last, kind }
}

/// The binary operator that a token stands for at a precedence level:
/// 7 `??`, 6 `||`, 5 `&&`, 4 equality, 3 relation, 2 additive,
/// 1 multiplicative.
pub open spec fn level_operator(level: int, kind: TokenView) -> Option<BinaryOperator> {
    match kind {
        TokenView::Operator(op) => {
            if level == 7 && op is Coalesce {
                Some(BinaryOperator::Coalesce)
            } else if level == 6 && op is OrOr {
                Some(BinaryOperator::Or)
            } else if level == 5 && op is AndAnd {
                Some(BinaryOperator::And)
            } else if level == 4 && op is EqualEqual {
                Some(BinaryOperator::Equal)
            } else if level == 4 && op is BangEqual {
                Some(BinaryOperator::NotEqual)
            } else if level == 3 && op is Less {
                Some(BinaryOperator::Less)
            } else if level == 3 && op is LessEqual {
                Some(BinaryOperator::LessEqual)
            } else if level == 3 && op is Greater {
                Some(BinaryOperator::Greater)
            } else if level == 3 && op is GreaterEqual {
                Some(BinaryOperator::GreaterEqual)
            } else if level == 2 && op is Plus {
                Some(BinaryOperator::Add)
            } else if level == 2 && op is Minus {
                Some(BinaryOperator::Subtract)
            } else if level == 1 && op is Star {
                Some(BinaryOperator::Multiply)
            } else if level == 1 && op is Slash {
                Some(BinaryOperator::Divide)
            } else if level == 1 && op is Percent {
                Some(BinaryOperator::Remainder)
            } else {
                None
            }
        },
        _ => None,
    }
}

pub open spec fn unary_operator(kind: TokenView) -> Option<UnaryOperator> {
    match kind {
        TokenView::Operator(OperatorToken::Bang) => Some(UnaryOperator::Not),
        TokenView::Operator(OperatorToken::Plus) => Some(UnaryOperator::Plus),
        TokenView::Operator(OperatorToken::Minus) => Some(UnaryOperator::Minus),
        _ => None,
    }
}

/// A literal, field, Enum literal `Type.Member`, or parenthesized expression.
pub open spec fn parse_primary(toks: Seq<TokenSpec>, i: int) -> Result<(ExprTree, int), SyntaxError>
    decreases toks.len() - i, 2int,
{
    if i < 0 || i >= toks.len() {
        Err(SyntaxError { message: Seq::empty(), start: 0, end: 0 })
    } else {
        let t = toks[i];
        match t.kind {
            TokenView::Null => Ok((leaf(t, ExprKind::Null), i + 1)),
            TokenView::Bool(b) => Ok((leaf(t, ExprKind::Bool(b)), i + 1)),
            TokenView::Number(v, float) => Ok((leaf(t, if float { ExprKind::Float(v) } else { ExprKind::Integer(v) }), i + 1)),
            TokenView::Text(v) => Ok((leaf(t, ExprKind::Text(v)), i + 1)),
            TokenView::Identifier(name) => {
                if i + 1 < toks.len() && toks[i + 1].kind is Dot {
                    match toks[i + 2].kind {
                        TokenView::Identifier(member) => Ok((ExprTree {
                            start: t.start,
                            end: toks[i + 2].end,
                            first: t.first,
                            last: toks[i + 2].last,
                            kind: ExprKind::EnumLiteral(name, member),
                        }, i + 3)),
                        _ => Err(token_error(toks[i + 2], "Enum literal requires a member name after `.`"@)),
                    }
                } else {
                    Ok((leaf(t, ExprKind::Field(name)), i + 1))
                }
            },
            TokenView::LeftParen => match parse_conditional(toks, i + 1) {
                Err(e) => Err(e),
                Ok((inner, j)) => {
                    if toks[j].kind is RightParen {
                        Ok((inner, j + 1))
                    } else {
                        Err(token_error(toks[j], "grouped expression requires `)`"@))
                    }
                },
            },
            _ => Err(token_error(t, "expected literal, field, Enum literal, or grouped expression"@)),
        }
    }
}

/// Prefix `!`, `+` and `-`, right-nested.
pub open spec fn parse_unary(toks: Seq<TokenSpec>, i: int) -> Result<(ExprTree, int), SyntaxError>
    decreases toks.len() - i, 5int,
{
    if i < 0 || i >= toks.len() {
        Err(SyntaxError { message: Seq::empty(), start: 0, end: 0 })
    } else {
        match unary_operator(toks[i].kind) {
            None => parse_primary(toks, i),
            Some(op) => match parse_unary(toks, i + 1) {
                Err(e) => Err(e),
                Ok((operand, j)) => Ok((ExprTree {
                    start: toks[i].start,
                    end: operand.end,
                    first: toks[i].first,
                    last: operand.last,
                    kind: ExprKind::Unary(op, Box::new(operand)),
                }, j)),
            },
        }
    }
}

/// A left-associative chain of the operators of `level` over operands of
/// the level below; level 0 is a unary expression.
pub open spec fn parse_level(toks: Seq<TokenSpec>, level: int, i: int) -> Result<(ExprTree, int), SyntaxError>
    decreases toks.len() - i, if level <= 0 { 6int } else { 10 + 2 * level },
{
    if level <= 0 {
        parse_unary(toks, i)
    } else {
        match parse_level(toks, level - 1, i) {
            Err(e) => Err(e),
            Ok((left, j)) => {
                if i < j <= toks.len() {
                    parse_rest(toks, level, left, j)
                } else {
                    Ok((left, j))
                }
            },
        }
    }
}

/// The rest of a chain at `level` after the operand `left`.
pub open spec fn parse_rest(toks: Seq<TokenSpec>, level: int, left: ExprTree, i: int) -> Result<(ExprTree, int), SyntaxError>
    decreases toks.len() - i, if level <= 0 { 6int } else { 10 + 2 * level },
{
    if level <= 0 || i < 0 || i >= toks.len() {
        Ok((left, i))
    } else {
        match level_operator(level, toks[i].kind) {
            None => Ok((left, i)),
            Some(op) => match parse_level(toks, level - 1, i + 1) {
                Err(e) => Err(e),
                Ok((right, j)) => {
                    let node = ExprTree {
                        start: left.start,
                        end: right.end,
                        first: left.first,
                        last: right.last,
                        kind: ExprKind::Binary(op, Box::new(left), Box::new(right)),
                    };
                    if i < j <= toks.len() {
                        parse_rest(toks, level, node, j)
                    } else {
                        Ok((node, j))
                    }
                },
            },
        }
    }
}

/// `condition ? when_true : when_false`, right-nested, over a `??` chain.
pub open spec fn parse_conditional(toks: Seq<TokenSpec>, i: int) -> Result<(ExprTree, int), SyntaxError>
    decreases toks.len() - i, 30int,
{
    match parse_level(toks, 7, i) {
        Err(e) => Err(e),
        Ok((condition, j)) => {
            if !(i <= j < toks.len()) || !(toks[j].kind is Question) {
                Ok((condition, j))
            } else {
                match parse_conditional(toks, j + 1) {
                    Err(e) => Err(e),
                    Ok((when_true, k)) => {
                        if !(j < k < toks.len()) {
                            Ok((condition, j))
                        } else if !(toks[k].kind is Colon) {
                            Err(token_error(toks[k], "conditional expression requires `:`"@))
                        } else {
                            match parse_conditional(toks, k + 1) {
                                Err(e) => Err(e),
                                Ok((when_false, m)) => Ok((ExprTree {
                                    start: condition.start,
                                    end: when_false.end,
                                    first: condition.first,
                                    last: when_false.last,
                                    kind: ExprKind::Conditional(Box::new(condition), Box::new(when_true), Box::new(when_false)),
                                }, m)),
                            }
                        }
                    },
                }
            }
        },
    }
}

/// The syntax tree of a token list: one expression, then `End`.
pub open spec fn parse_tokens(toks: Seq<TokenSpec>) -> Result<ExprTree, SyntaxError> {
    match parse_conditional(toks, 0) {
        Err(e) => Err(e),
        Ok((root, j)) => if toks[j].kind is End {
            Ok(root)
        } else {
            Err(token_error(toks[j], "unexpected token after expression"@))
        },
    }
}

/// The syntax tree of an expression's source, or its first syntax error.
pub open spec fn parse_source(source: Seq<char>) -> Result<ExprTree, SyntaxError> {
    match lex_spec(source) {
        Err(e) => Err(e),
        Ok(toks) => parse_tokens(toks),
    }
}

/// A token list that closes with `End`.
pub open spec fn well_ended(toks: Seq<TokenSpec>) -> bool {
    toks.len() > 0 && toks.last().kind is End
}

proof fn lemma_lex_well_ended(chars: Seq<char>, i: int)
    ensures
        lex_from(chars, i) matches Ok(toks) ==> well_ended(toks),
    decreases chars.len() - i,
{
    if 0 <= i < chars.len() {
        if is_ascii_whitespace(chars[i]) {
            lemma_lex_well_ended(chars, i + 1);
        } else if let Ok((kind, j)) = scan_token(chars, i) {
            if i < j <= chars.len() {
                lemma_lex_well_ended(chars, j);
            }
        }
    }
}

pub open spec fn parsed(e: RawExpression, j: usize) -> Result<(ExprTree, int), SyntaxError> {
    Ok((tree_of(e), j as int))
}

pub open spec fn refused(f: SyntaxFailure) -> Result<(ExprTree, int), SyntaxError> {
    Err(failure_view(f))
}

fn token_failure(token: &Token, message: &str) -> (f: SyntaxFailure)
    ensures
        failure_view(f) == token_error(token_view(*token), message@),
{
    failure(message, token.span.start, token.span.end)
}

fn leaf_of(token: &Token, kind: RawExpressionKind) -> (e: RawExpression)
    ensures
        e.span == token.span,
        e.first == token.first,
        e.last == token.last,
        e.kind == kind,
{
    RawExpression { span: token.span, first: token.first, last: token.last, kind }
}

fn is_end(kind: &TokenKind) -> (result: bool)
    ensures
        result == (kind_view(*kind) is End),
{
    match kind {
        TokenKind::End => true,
        _ => false,
    }
}

fn level_operator_of(level: usize, kind: &TokenKind) -> (op: Option<BinaryOperator>)
    ensures
        op == level_operator(level as int, kind_view(*kind)),
{
    match kind {
        TokenKind::Operator(token) => {
            let op = *token;
            if level == 7 && op == OperatorToken::Coalesce {
                Some(BinaryOperator::Coalesce)
            } else if level == 6 && op == OperatorToken::OrOr {
                Some(BinaryOperator::Or)
            } else if level == 5 && op == OperatorToken::AndAnd {
                Some(BinaryOperator::And)
            } else if level == 4 && op == OperatorToken::EqualEqual {
                Some(BinaryOperator::Equal)
            } else if level == 4 && op == OperatorToken::BangEqual {
                Some(BinaryOperator::NotEqual)
            } else if level == 3 && op == OperatorToken::Less {
                Some(BinaryOperator::Less)
            } else if level == 3 && op == OperatorToken::LessEqual {
                Some(BinaryOperator::LessEqual)
            } else if level == 3 && op == OperatorToken::Greater {
                Some(BinaryOperator::Greater)
            } else if level == 3 && op == OperatorToken::GreaterEqual {
                Some(BinaryOperator::GreaterEqual)
            } else if level == 2 && op == OperatorToken::Plus {
                Some(BinaryOperator::Add)
            } else if level == 2 && op == OperatorToken::Minus {
                Some(BinaryOperator::Subtract)
            } else if level == 1 && op == OperatorToken::Star {
                Some(BinaryOperator::Multiply)
            } else if level == 1 && op == OperatorToken::Slash {
                Some(BinaryOperator::Divide)
            } else if level == 1 && op == OperatorToken::Percent {
                Some(BinaryOperator::Remainder)
            } else {
                None
            }
        },
        _ => None,
    }
}

fn unary_operator_of(kind: &TokenKind) -> (op: Option<UnaryOperator>)
    ensures
        op == unary_operator(kind_view(*kind)),
{
    match kind {
        TokenKind::Operator(OperatorToken::Bang) => Some(UnaryOperator::Not),
        TokenKind::Operator(OperatorToken::Plus) => Some(UnaryOperator::Plus),
        TokenKind::Operator(OperatorToken::Minus) => Some(UnaryOperator::Minus),
        _ => None,
    }
}

fn parse_primary_at(tokens: &Vec<Token>, i: usize) -> (result: Result<(RawExpression, usize), SyntaxFailure>)
    requires
        well_ended(tokens_view(tokens@)),
        i < tokens@.len(),
    ensures
        match result {
            Ok((e, j)) => parse_primary(tokens_view(tokens@), i as int) == parsed(e, j) && i < j < tokens@.len(),
            Err(f) => parse_primary(tokens_view(tokens@), i as int) == refused(f),
        },
    decreases tokens@.len() - i, 2int,
{
    let ghost toks = tokens_view(tokens@);
    let n = tokens.len();
    assert(toks[i as int] == token_view(tokens@[i as int]));
    assert(toks[n - 1] == token_view(tokens@[n - 1]));
    let token = &tokens[i];
    match &token.kind {
        TokenKind::Null => Ok((leaf_of(token, RawExpressionKind::Null), i + 1)),
        TokenKind::Bool(b) => Ok((leaf_of(token, RawExpressionKind::Bool(*b)), i + 1)),
        TokenKind::Number { value, float } => {
            if *float {
                Ok((leaf_of(token, RawExpressionKind::Float(value.clone())), i + 1))
            } else {
                Ok((leaf_of(token, RawExpressionKind::Integer(value.clone())), i + 1))
            }
        },
        TokenKind::Text(value) => Ok((leaf_of(token, RawExpressionKind::Text(value.clone())), i + 1)),
        TokenKind::Identifier(name) => {
            assert(toks[i + 1] == token_view(tokens@[i + 1]));
            if let TokenKind::Dot = tokens[i + 1].kind {
                assert(toks[i + 2] == token_view(tokens@[i + 2]));
                match &tokens[i + 2].kind {
                    TokenKind::Identifier(member) => {
                        let e = RawExpression {
                            span: ExpressionSpan { start: token.span.start, end: tokens[i + 2].span.end },
                            first: token.first,
                            last: tokens[i + 2].last,
                            kind: RawExpressionKind::EnumLiteral { enum_name: name.clone(), member: member.clone() },
                        };
                        Ok((e, i + 3))
                    },
                    _ => Err(token_failure(&tokens[i + 2], "Enum literal requires a member name after `.`")),
                }
            } else {
                Ok((leaf_of(token, RawExpressionKind::Field(name.clone())), i + 1))
            }
        },
        TokenKind::LeftParen => {
            let (inner, j) = match parse_conditional_at(tokens, i + 1) {
                Ok(found) => found,
                Err(f) => {
                    return Err(f);
                },
            };
            assert(toks[j as int] == token_view(tokens@[j as int]));
            if let TokenKind::RightParen = tokens[j].kind {
                Ok((inner, j + 1))
            } else {
                Err(token_failure(&tokens[j], "grouped expression requires `)`"))
            }
        },
        _ => Err(token_failure(token, "expected literal, field, Enum literal, or grouped expression")),
    }
}

fn parse_unary_at(tokens: &Vec<Token>, i: usize) -> (result: Result<(RawExpression, usize), SyntaxFailure>)
    requires
        well_ended(tokens_view(tokens@)),
        i < tokens@.len(),
    ensures
        match result {
            Ok((e, j)) => parse_unary(tokens_view(tokens@), i as int) == parsed(e, j) && i < j < tokens@.len(),
            Err(f) => parse_unary(tokens_view(tokens@), i as int) == refused(f),
        },
    decreases tokens@.len() - i, 5int,
{
    let ghost toks = tokens_view(tokens@);
    let n = tokens.len();
    assert(toks[i as int] == token_view(tokens@[i as int]));
    assert(toks[n - 1] == token_view(tokens@[n - 1]));
    match unary_operator_of(&tokens[i].kind) {
        None => parse_primary_at(tokens, i),
        Some(op) => {
            let (operand, j) = match parse_unary_at(tokens, i + 1) {
                Ok(found) => found,
                Err(f) => {
                    return Err(f);
                },
            };
            let e = RawExpression {
                span: ExpressionSpan { start: tokens[i].span.start, end: operand.span.end },
                first: tokens[i].first,
                last: operand.last,
                kind: RawExpressionKind::Unary { operator: op, operand: Box::new(operand) },
            };
            Ok((e, j))
        },
    }
}

fn parse_level_at(tokens: &Vec<Token>, level: usize, i: usize) -> (result: Result<(RawExpression, usize), SyntaxFailure>)
    requires
        well_ended(tokens_view(tokens@)),
        i < tokens@.len(),
        level <= 7,
    ensures
        match result {
            Ok((e, j)) => parse_level(tokens_view(tokens@), level as int, i as int) == parsed(e, j) && i < j < tokens@.len(),
            Err(f) => parse_level(tokens_view(tokens@), level as int, i as int) == refused(f),
        },
    decreases tokens@.len() - i, if level <= 0 { 6int } else { 10 + 2 * level },
{
    if level == 0 {
        return parse_unary_at(tokens, i);
    }
    let ghost toks = tokens_view(tokens@);
    let n = tokens.len();
    let (mut left, mut j) = match parse_level_at(tokens, level - 1, i) {
        Ok(found) => found,
        Err(f) => {
            return Err(f);
        },
    };
    loop
        invariant
            well_ended(tokens_view(tokens@)),
            toks == tokens_view(tokens@),
            n == tokens@.len(),
            1 <= level <= 7,
            i < j < n,
            parse_level(toks, level as int, i as int) == parse_rest(toks, level as int, tree_of(left), j as int),
        decreases n - j,
    {
        assert(toks[j as int] == token_view(tokens@[j as int]));
        let op = match level_operator_of(level, &tokens[j].kind) {
            Some(op) => op,
            None => {
                return Ok((left, j));
            },
        };
        assert(toks[n - 1] == token_view(tokens@[n - 1]));
        let (right, k) = match parse_level_at(tokens, level - 1, j + 1) {
            Ok(found) => found,
            Err(f) => {
                return Err(f);
            },
        };
        let span = ExpressionSpan { start: left.span.start, end: right.span.end };
        let first = left.first;
        let last = right.last;
        left = RawExpression {
            span,
            first,
            last,
            kind: RawExpressionKind::Binary { operator: op, left: Box::new(left), right: Box::new(right) },
        };
        j = k;
    }
}

fn parse_conditional_at(tokens: &Vec<Token>, i: usize) -> (result: Result<(RawExpression, usize), SyntaxFailure>)
    requires
        well_ended(tokens_view(tokens@)),
        i < tokens@.len(),
    ensures
        match result {
            Ok((e, j)) => parse_conditional(tokens_view(tokens@), i as int) == parsed(e, j) && i < j < tokens@.len(),
            Err(f) => parse_conditional(tokens_view(tokens@), i as int) == refused(f),
        },
    decreases tokens@.len() - i, 30int,
{
    let ghost toks = tokens_view(tokens@);
    let n = tokens.len();
    assert(toks[n - 1] == token_view(tokens@[n - 1]));
    let (condition, j) = match parse_level_at(tokens, 7, i) {
        Ok(found) => found,
        Err(f) => {
            return Err(f);
        },
    };
    assert(toks[j as int] == token_view(tokens@[j as int]));
    if let TokenKind::Question = tokens[j].kind {
    } else {
        return Ok((condition, j));
    }
    let (when_true, k) = match parse_conditional_at(tokens, j + 1) {
        Ok(found) => found,
        Err(f) => {
            return Err(f);
        },
    };
    assert(toks[k as int] == token_view(tokens@[k as int]));
    if let TokenKind::Colon = tokens[k].kind {
    } else {
        return Err(token_failure(&tokens[k], "conditional expression requires `:`"));
    }
    let (when_false, m) = match parse_conditional_at(tokens, k + 1) {
        Ok(found) => found,
        Err(f) => {
            return Err(f);
        },
    };
    let e = RawExpression {
        span: ExpressionSpan { start: condition.span.start, end: when_false.span.end },
        first: condition.first,
        last: when_false.last,
        kind: RawExpressionKind::Conditional {
            condition: Box::new(condition),
            when_true: Box::new(when_true),
            when_false: Box::new(when_false),
        },
    };
    Ok((e, m))
}

/// Parse an expression's source into its syntax tree.
pub fn parse_source_text(source: &str) -> (result: Result<RawExpression, SyntaxFailure>)
    ensures
        match result {
            Ok(e) => parse_source(source@) == Ok::<ExprTree, SyntaxError>(tree_of(e)),
            Err(f) => parse_source(source@) == Err::<ExprTree, SyntaxError>(failure_view(f)),
        },
{
    let tokens = match lex(source) {
        Ok(tokens) => tokens,
        Err(f) => {
            return Err(f);
        },
    };
    proof {
        lemma_lex_well_ended(source@, 0);
    }
    let ghost toks = tokens_view(tokens@);
    let (root, j) = match parse_conditional_at(&tokens, 0) {
        Ok(found) => found,
        Err(f) => {
            return Err(f);
        },
    };
    assert(toks[j as int] == token_view(tokens@[j as int]));
    if is_end(&tokens[j].kind) {
        Ok(root)
    } else {
        Err(token_failure(&tokens[j], "unexpected token after expression"))
    }
}

/// Tokens lie in source order, each within the text, with byte spans at
/// the byte offsets of their character positions.
pub open spec fn tokens_ordered(chars: Seq<char>, toks: Seq<TokenSpec>, from: int) -> bool {
    &&& forall|k: int| 0 <= k < toks.len() ==> from <= #[trigger] toks[k].first && toks[k].first <= toks[k].last
        && toks[k].last <= chars.len()
    &&& forall|k: int| 0 <= k < toks.len() ==> #[trigger] toks[k].start == byte_offset(chars, toks[k].first)
        && toks[k].end == byte_offset(chars, toks[k].last)
    &&& forall|k: int, m: int| 0 <= k < m < toks.len() ==> #[trigger] toks[k].last <= #[trigger] toks[m].first
    &&& forall|k: int| 0 <= k < toks.len() ==> (#[trigger] toks[k].kind !is End ==> toks[k].first < toks[k].last)
}

/// Every identifier token is spelled by the characters it spans.
pub open spec fn identifiers_spelled(chars: Seq<char>, toks: Seq<TokenSpec>) -> bool {
    forall|k: int| 0 <= k < toks.len() ==> (#[trigger] toks[k].kind matches TokenView::Identifier(name)
        ==> name == chars.subrange(toks[k].first, toks[k].last))
}

proof fn lemma_lex_spelled(chars: Seq<char>, i: int)
    ensures
        lex_from(chars, i) matches Ok(toks) ==> identifiers_spelled(chars, toks),
    decreases chars.len() - i,
{
    if 0 <= i < chars.len() {
        if is_ascii_whitespace(chars[i]) {
            lemma_lex_spelled(chars, i + 1);
        } else if let Ok((kind, j)) = scan_token(chars, i) {
            if i < j <= chars.len() {
                lemma_lex_spelled(chars, j);
                if let Ok(rest) = lex_from(chars, j) {
                    let toks = lex_from(chars, i)->Ok_0;
                    assert forall|k: int| 0 <= k < toks.len() implies (#[trigger] toks[k].kind matches TokenView::Identifier(name)
                        ==> name == chars.subrange(toks[k].first, toks[k].last)) by {
                        if k > 0 {
                            assert(toks[k] == rest[k - 1]);
                        }
                    }
                }
            }
        }
    }
}

proof fn lemma_lex_ordered(chars: Seq<char>, i: int)
    requires
        0 <= i <= chars.len(),
    ensures
        lex_from(chars, i) matches Ok(toks) ==> tokens_ordered(chars, toks, i),
    decreases chars.len() - i,
{
    if i < chars.len() {
        if is_ascii_whitespace(chars[i]) {
            lemma_lex_ordered(chars, i + 1);
        } else if let Ok((kind, j)) = scan_token(chars, i) {
            if i < j <= chars.len() {
                lemma_lex_ordered(chars, j);
                if let Ok(rest) = lex_from(chars, j) {
                    let head = TokenSpec {
                        kind,
                        start: byte_offset(chars, i),
                        end: byte_offset(chars, j),
                        first: i,
                        last: j,
                    };
                    let toks = seq![head] + rest;
                    assert forall|k: int| 0 < k < toks.len() implies #[trigger] toks[k] == rest[k - 1] by {}
                    assert forall|k: int, m: int| 0 <= k < m < toks.len() implies #[trigger] toks[k].last <= #[trigger] toks[m].first by {
                        assert(toks[m] == rest[m - 1]);
                        if k > 0 {
                            assert(toks[k] == rest[k - 1]);
                        }
                    }
                }
            }
        }
    }
}

pub proof fn lemma_byte_offset_strict(chars: Seq<char>, k: int, m: int)
    requires
        0 <= k < m <= chars.len(),
    ensures
        byte_offset(chars, k) < byte_offset(chars, m),
{
    lemma_byte_offset_step(chars, k);
    lemma_byte_offset_monotone(chars, k + 1, m);
}

pub proof fn lemma_byte_offset_monotone(chars: Seq<char>, k: int, m: int)
    requires
        0 <= k <= m <= chars.len(),
    ensures
        byte_offset(chars, k) <= byte_offset(chars, m),
    decreases m - k,
{
    if k < m {
        lemma_byte_offset_step(chars, m - 1);
        lemma_byte_offset_monotone(chars, k, m - 1);
    }
}

/// The references to `field` in a syntax tree, left to right. Enum literal
/// type and member names and string literals are never references.
pub open spec fn field_refs(t: ExprTree, field: Seq<char>) -> Seq<ExprTree>
    decreases t,
{
    match t.kind {
        ExprKind::Field(name) => if name == field { seq![t] } else { Seq::empty() },
        ExprKind::Unary(_, operand) => field_refs(*operand, field),
        ExprKind::Binary(_, left, right) => field_refs(*left, field) + field_refs(*right, field),
        ExprKind::Conditional(condition, when_true, when_false) =>
            field_refs(*condition, field) + field_refs(*when_true, field) + field_refs(*when_false, field),
        _ => Seq::empty(),
    }
}

/// References that lie, in order and without overlap, within the character
/// positions `lo..hi`, with byte spans at their characters' offsets.
pub open spec fn refs_between(chars: Seq<char>, refs: Seq<ExprTree>, lo: int, hi: int) -> bool {
    &&& forall|k: int| 0 <= k < refs.len() ==> lo <= #[trigger] refs[k].first && refs[k].first < refs[k].last && refs[k].last <= hi
    &&& forall|k: int| 0 <= k < refs.len() ==> #[trigger] refs[k].start == byte_offset(chars, refs[k].first)
        && refs[k].end == byte_offset(chars, refs[k].last)
    &&& forall|k: int, m: int| 0 <= k < m < refs.len() ==> #[trigger] refs[k].last <= #[trigger] refs[m].first
    &&& forall|k: int| 0 <= k < refs.len() ==> (#[trigger] refs[k].kind matches ExprKind::Field(name)
        && name == chars.subrange(refs[k].first, refs[k].last))
}

proof fn lemma_refs_concat(chars: Seq<char>, a: Seq<ExprTree>, b: Seq<ExprTree>, lo: int, mid: int, mid2: int, hi: int)
    requires
        refs_between(chars, a, lo, mid),
        refs_between(chars, b, mid2, hi),
        lo <= mid <= mid2 <= hi,
    ensures
        refs_between(chars, a + b, lo, hi),
{
    let c = a + b;
    let na = a.len() as int;
    assert forall|k: int| 0 <= k < c.len() implies lo <= #[trigger] c[k].first && c[k].first < c[k].last && c[k].last <= hi by {
        if k >= na {
            let x = b[k - na];
            assert(c[k] == x);
            assert(mid2 <= x.first && x.first < x.last && x.last <= hi);
        } else {
            let x = a[k];
            assert(c[k] == x);
            assert(lo <= x.first && x.first < x.last && x.last <= mid);
        }
    }
    assert forall|k: int| 0 <= k < c.len() implies #[trigger] c[k].start == byte_offset(chars, c[k].first)
        && c[k].end == byte_offset(chars, c[k].last) by {
        if k >= na {
            assert(c[k] == b[k - na]);
        } else {
            assert(c[k] == a[k]);
        }
    }
    assert forall|k: int, m: int| 0 <= k < m < c.len() implies #[trigger] c[k].last <= #[trigger] c[m].first by {
        if m < na {
            let x = a[k];
            let y = a[m];
            assert(c[k] == x && c[m] == y);
            assert(x.last <= y.first);
        } else if k >= na {
            let x = b[k - na];
            let y = b[m - na];
            assert(c[k] == x && c[m] == y);
            assert(x.last <= y.first);
        } else {
            let x = a[k];
            let y = b[m - na];
            assert(c[k] == x && c[m] == y);
            assert(x.first < x.last && y.first < y.last);
            assert(x.last <= mid && mid2 <= y.first);
        }
    }
    assert forall|k: int| 0 <= k < c.len() implies (#[trigger] c[k].kind matches ExprKind::Field(name)
        && name == chars.subrange(c[k].first, c[k].last)) by {
        if k >= na {
            assert(c[k] == b[k - na]);
        } else {
            assert(c[k] == a[k]);
        }
    }
}

proof fn lemma_refs_widen(chars: Seq<char>, refs: Seq<ExprTree>, lo: int, hi: int, lo2: int, hi2: int)
    requires
        refs_between(chars, refs, lo, hi),
        lo2 <= lo,
        hi <= hi2,
    ensures
        refs_between(chars, refs, lo2, hi2),
{
}

proof fn lemma_token_range(chars: Seq<char>, toks: Seq<TokenSpec>, a: int, b: int)
    requires
        tokens_ordered(chars, toks, 0),
        0 <= a <= b < toks.len(),
    ensures
        toks[a].first <= toks[a].last <= toks[b].last,
        toks[a].first <= toks[b].first <= toks[b].last,
{
    assert(toks[a].first <= toks[a].last);
    assert(toks[b].first <= toks[b].last);
    if a < b {
        assert(toks[a].last <= toks[b].first);
    }
}

/// The shared context of the parser lemmas.
pub open spec fn parse_context(chars: Seq<char>, toks: Seq<TokenSpec>) -> bool {
    well_ended(toks) && tokens_ordered(chars, toks, 0) && identifiers_spelled(chars, toks)
}

proof fn lemma_primary_refs(chars: Seq<char>, toks: Seq<TokenSpec>, field: Seq<char>, i: int)
    requires
        parse_context(chars, toks),
        0 <= i < toks.len(),
    ensures
        parse_primary(toks, i) matches Ok((t, j)) ==> i < j < toks.len()
            && refs_between(chars, field_refs(t, field), toks[i].first, toks[j - 1].last),
    decreases toks.len() - i, 2int,
{
    let n = toks.len();
    let t = toks[i];
    if !(t.kind is End) {
        assert(i < n - 1);
    }
    match t.kind {
        TokenView::Identifier(name) => {
            if toks[i + 1].kind is Dot {
                assert(i + 1 < n - 1);
                if toks[i + 2].kind is Identifier {
                    assert(i + 2 < n - 1);
                }
            }
        },
        TokenView::LeftParen => {
            lemma_conditional_refs(chars, toks, field, i + 1);
            if let Ok((inner, j)) = parse_conditional(toks, i + 1) {
                if toks[j].kind is RightParen {
                    assert(j < n - 1);
                    assert(toks[i].last <= toks[i + 1].first);
                    assert(toks[j - 1].last <= toks[j].first);
                    lemma_refs_widen(chars, field_refs(inner, field), toks[i + 1].first, toks[j - 1].last, toks[i].first, toks[j].last);
                }
            }
        },
        _ => {},
    }
}

proof fn lemma_unary_refs(chars: Seq<char>, toks: Seq<TokenSpec>, field: Seq<char>, i: int)
    requires
        parse_context(chars, toks),
        0 <= i < toks.len(),
    ensures
        parse_unary(toks, i) matches Ok((t, j)) ==> i < j < toks.len()
            && refs_between(chars, field_refs(t, field), toks[i].first, toks[j - 1].last),
    decreases toks.len() - i, 5int,
{
    let n = toks.len();
    match unary_operator(toks[i].kind) {
        None => {
            lemma_primary_refs(chars, toks, field, i);
        },
        Some(op) => {
            assert(i < n - 1);
            lemma_unary_refs(chars, toks, field, i + 1);
            if let Ok((operand, j)) = parse_unary(toks, i + 1) {
                assert(toks[i].last <= toks[i + 1].first);
                lemma_refs_widen(chars, field_refs(operand, field), toks[i + 1].first, toks[j - 1].last, toks[i].first, toks[j - 1].last);
            }
        },
    }
}

proof fn lemma_level_refs(chars: Seq<char>, toks: Seq<TokenSpec>, field: Seq<char>, level: int, i: int)
    requires
        parse_context(chars, toks),
        0 <= i < toks.len(),
    ensures
        parse_level(toks, level, i) matches Ok((t, j)) ==> i < j < toks.len()
            && refs_between(chars, field_refs(t, field), toks[i].first, toks[j - 1].last),
    decreases toks.len() - i, if level <= 0 { 6int } else { 10 + 2 * level },
{
    if level <= 0 {
        lemma_unary_refs(chars, toks, field, i);
    } else {
        lemma_level_refs(chars, toks, field, level - 1, i);
        if let Ok((left, j)) = parse_level(toks, level - 1, i) {
            lemma_rest_refs(chars, toks, field, level, left, i, j);
        }
    }
}

proof fn lemma_rest_refs(chars: Seq<char>, toks: Seq<TokenSpec>, field: Seq<char>, level: int, left: ExprTree, from: int, i: int)
    requires
        parse_context(chars, toks),
        0 <= from < i < toks.len(),
        refs_between(chars, field_refs(left, field), toks[from].first, toks[i - 1].last),
    ensures
        parse_rest(toks, level, left, i) matches Ok((t, j)) ==> i <= j < toks.len()
            && refs_between(chars, field_refs(t, field), toks[from].first, toks[j - 1].last),
    decreases toks.len() - i, if level <= 0 { 6int } else { 10 + 2 * level },
{
    let n = toks.len();
    if level > 0 {
        if let Some(op) = level_operator(level, toks[i].kind) {
            assert(i < n - 1);
            lemma_level_refs(chars, toks, field, level - 1, i + 1);
            if let Ok((right, j)) = parse_level(toks, level - 1, i + 1) {
                let node = ExprTree {
                    start: left.start,
                    end: right.end,
                    first: left.first,
                    last: right.last,
                    kind: ExprKind::Binary(op, Box::new(left), Box::new(right)),
                };
                assert(toks[i - 1].last <= toks[i + 1].first);
                lemma_token_range(chars, toks, from, i - 1);
                lemma_token_range(chars, toks, i + 1, j - 1);
                lemma_refs_concat(chars, field_refs(left, field), field_refs(right, field),
                    toks[from].first, toks[i - 1].last, toks[i + 1].first, toks[j - 1].last);
                assert(field_refs(node, field) == field_refs(left, field) + field_refs(right, field));
                lemma_rest_refs(chars, toks, field, level, node, from, j);
            }
        }
    }
}

proof fn lemma_conditional_refs(chars: Seq<char>, toks: Seq<TokenSpec>, field: Seq<char>, i: int)
    requires
        parse_context(chars, toks),
        0 <= i < toks.len(),
    ensures
        parse_conditional(toks, i) matches Ok((t, j)) ==> i < j < toks.len()
            && refs_between(chars, field_refs(t, field), toks[i].first, toks[j - 1].last),
    decreases toks.len() - i, 30int,
{
    let n = toks.len();
    lemma_level_refs(chars, toks, field, 7, i);
    if let Ok((condition, j)) = parse_level(toks, 7, i) {
        if toks[j].kind is Question {
            assert(j < n - 1);
            lemma_conditional_refs(chars, toks, field, j + 1);
            if let Ok((when_true, k)) = parse_conditional(toks, j + 1) {
                if toks[k].kind is Colon {
                    assert(k < n - 1);
                    lemma_conditional_refs(chars, toks, field, k + 1);
                    if let Ok((when_false, m)) = parse_conditional(toks, k + 1) {
                        assert(toks[j - 1].last <= toks[j + 1].first);
                        assert(toks[k - 1].last <= toks[k + 1].first);
                        lemma_token_range(chars, toks, i, j - 1);
                        lemma_token_range(chars, toks, j + 1, k - 1);
                        lemma_token_range(chars, toks, k + 1, m - 1);
                        lemma_token_range(chars, toks, i, k - 1);
                        lemma_refs_concat(chars, field_refs(condition, field), field_refs(when_true, field),
                            toks[i].first, toks[j - 1].last, toks[j + 1].first, toks[k - 1].last);
                        lemma_refs_concat(chars, field_refs(condition, field) + field_refs(when_true, field), field_refs(when_false, field),
                            toks[i].first, toks[k - 1].last, toks[k + 1].first, toks[m - 1].last);
                    }
                }
            }
        }
    }
}

/// The references to a field in a parsed expression lie in source order,
/// without overlap, inside the text, with their byte spans at the byte
/// offsets of their characters.
pub proof fn lemma_source_refs(source: Seq<char>, field: Seq<char>)
    ensures
        parse_source(source) matches Ok(t) ==> refs_between(source, field_refs(t, field), 0, source.len() as int),
{
    lemma_lex_well_ended(source, 0);
    lemma_lex_ordered(source, 0);
    lemma_lex_spelled(source, 0);
    if let Ok(toks) = lex_spec(source) {
        lemma_conditional_refs(source, toks, field, 0);
        if let Ok((root, j)) = parse_conditional(toks, 0) {
            assert(0 <= toks[j - 1].first);
            assert(0 <= toks[0].first);
            lemma_refs_widen(source, field_refs(root, field), toks[0].first, toks[j - 1].last, 0, source.len() as int);
        }
    }
}

} // verus!
