//! Lossless, typed edits for the v1 Project Settings surface.
//!
//! A TOML parser remains the validation authority, but it is never used to
//! serialize the candidate.  The small locator below keeps the exact source
//! text of unrelated sections, comments, quote style, and line endings.
//! Positions are character positions of the source text.

use vstd::prelude::*;

use crate::config::{is_kebab_name, is_profile_or_tag_name, is_unicode_whitespace, PublishTargetKind};
use crate::numeric::decimal_text;
use crate::error::{fresh_diagnostic, DiagnosticView, ErrorKind, MasterdataError};
use crate::source_edit::{content_identity, source_content_identity};
use crate::text::{chars_of, push_char, splice_chars, str_eq, string_from_chars, string_from_range};

verus! {

/// Which string literal a scanner is inside.
#[derive(Debug, Clone, Copy, PartialEq, Eq, Structural)]
pub enum Quote {
    Outside,
    Double,
    Single,
}

/// End of the whitespace run of `s[i..to]`.
pub open spec fn skip_space(s: Seq<char>, i: int, to: int) -> int
    decreases to - i,
{
    if i < to && is_unicode_whitespace(s[i]) { skip_space(s, i + 1, to) } else { i }
}

/// End of `s[from..to]` with trailing whitespace removed.
pub open spec fn trim_end_at(s: Seq<char>, from: int, to: int) -> int
    decreases to - from,
{
    if from < to && is_unicode_whitespace(s[to - 1]) { trim_end_at(s, from, to - 1) } else { to }
}

/// Where the comment of `s[i..to]` starts (`to` when there is none): the
/// first `#` outside string literals; `\` escapes one character in `"..."`.
pub open spec fn comment_start(s: Seq<char>, i: int, to: int, quote: Quote) -> int
    decreases to - i,
{
    if i < 0 || i >= to {
        to
    } else {
        match quote {
            Quote::Double => {
                if s[i] == '\\' {
                    if to - i <= 2 { to } else { comment_start(s, i + 2, to, Quote::Double) }
                } else if s[i] == '"' {
                    comment_start(s, i + 1, to, Quote::Outside)
                } else {
                    comment_start(s, i + 1, to, Quote::Double)
                }
            },
            Quote::Single => comment_start(s, i + 1, to, if s[i] == '\'' { Quote::Outside } else { Quote::Single }),
            Quote::Outside => {
                if s[i] == '"' {
                    comment_start(s, i + 1, to, Quote::Double)
                } else if s[i] == '\'' {
                    comment_start(s, i + 1, to, Quote::Single)
                } else if s[i] == '#' {
                    i
                } else {
                    comment_start(s, i + 1, to, Quote::Outside)
                }
            },
        }
    }
}

/// The quote state after `c`, for scanners where `\` does not escape.
pub open spec fn quote_step(quote: Quote, c: char) -> Quote {
    match quote {
        Quote::Double => if c == '"' { Quote::Outside } else { Quote::Double },
        Quote::Single => if c == '\'' { Quote::Outside } else { Quote::Single },
        Quote::Outside => if c == '"' { Quote::Double } else if c == '\'' { Quote::Single } else { Quote::Outside },
    }
}

/// The first `needle` of `s[i..to]` outside string literals, if any.
pub open spec fn top_level_index(s: Seq<char>, i: int, to: int, quote: Quote, needle: char) -> Option<int>
    decreases to - i,
{
    if i < 0 || i >= to {
        None
    } else if quote is Outside && s[i] != '"' && s[i] != '\'' && s[i] == needle {
        Some(i)
    } else {
        top_level_index(s, i + 1, to, quote_step(quote, s[i]), needle)
    }
}

/// Just past the `]` that closes the array opened at or after `i`, at
/// bracket depth `depth`, outside string literals.
pub open spec fn array_end_from(s: Seq<char>, i: int, to: int, quote: Quote, depth: int) -> Option<int>
    decreases to - i,
{
    if i < 0 || i >= to {
        None
    } else if quote is Outside && s[i] == '[' {
        array_end_from(s, i + 1, to, Quote::Outside, depth + 1)
    } else if quote is Outside && s[i] == ']' {
        if depth <= 0 {
            None
        } else if depth == 1 {
            Some(i + 1)
        } else {
            array_end_from(s, i + 1, to, Quote::Outside, depth - 1)
        }
    } else {
        array_end_from(s, i + 1, to, quote_step(quote, s[i]), depth)
    }
}

pub(crate) fn is_space(c: char) -> (result: bool)
    ensures
        result == is_unicode_whitespace(c),
{
    ('\t' <= c && c <= '\r') || c == ' ' || c == '\u{85}' || c == '\u{A0}' || c == '\u{1680}'
        || ('\u{2000}' <= c && c <= '\u{200A}') || c == '\u{2028}' || c == '\u{2029}' || c == '\u{202F}'
        || c == '\u{205F}' || c == '\u{3000}'
}

pub(crate) fn skip_space_at(s: &Vec<char>, i: usize, to: usize) -> (end: usize)
    requires
        i <= to <= s@.len(),
    ensures
        end == skip_space(s@, i as int, to as int),
        i <= end <= to,
{
    let mut k = i;
    while k < to && is_space(s[k])
        invariant
            i <= k <= to <= s@.len(),
            skip_space(s@, i as int, to as int) == skip_space(s@, k as int, to as int),
        decreases to - k,
    {
        k = k + 1;
    }
    k
}

pub(crate) fn trim_end_from(s: &Vec<char>, from: usize, to: usize) -> (end: usize)
    requires
        from <= to <= s@.len(),
    ensures
        end == trim_end_at(s@, from as int, to as int),
        from <= end <= to,
{
    let mut k = to;
    while k > from && is_space(s[k - 1])
        invariant
            from <= k <= to <= s@.len(),
            trim_end_at(s@, from as int, to as int) == trim_end_at(s@, from as int, k as int),
        decreases k - from,
    {
        k = k - 1;
    }
    k
}

fn comment_start_at(s: &Vec<char>, from: usize, to: usize) -> (end: usize)
    requires
        from <= to <= s@.len(),
    ensures
        end == comment_start(s@, from as int, to as int, Quote::Outside),
        from <= end <= to,
{
    let mut i = from;
    let mut quote = Quote::Outside;
    while i < to
        invariant
            from <= i <= to <= s@.len(),
            comment_start(s@, from as int, to as int, Quote::Outside) == comment_start(s@, i as int, to as int, quote),
        decreases to - i,
    {
        let c = s[i];
        match quote {
            Quote::Double => {
                if c == '\\' {
                    if to - i <= 2 {
                        return to;
                    }
                    i = i + 2;
                } else {
                    if c == '"' {
                        quote = Quote::Outside;
                    }
                    i = i + 1;
                }
            },
            Quote::Single => {
                if c == '\'' {
                    quote = Quote::Outside;
                }
                i = i + 1;
            },
            Quote::Outside => {
                if c == '"' {
                    quote = Quote::Double;
                } else if c == '\'' {
                    quote = Quote::Single;
                } else if c == '#' {
                    return i;
                }
                i = i + 1;
            },
        }
    }
    to
}

fn quote_after(quote: Quote, c: char) -> (next: Quote)
    ensures
        next == quote_step(quote, c),
{
    match quote {
        Quote::Double => if c == '"' { Quote::Outside } else { Quote::Double },
        Quote::Single => if c == '\'' { Quote::Outside } else { Quote::Single },
        Quote::Outside => if c == '"' { Quote::Double } else if c == '\'' { Quote::Single } else { Quote::Outside },
    }
}

fn top_level_index_at(s: &Vec<char>, from: usize, to: usize, needle: char) -> (found: Option<usize>)
    requires
        from <= to <= s@.len(),
    ensures
        match found {
            Some(i) => top_level_index(s@, from as int, to as int, Quote::Outside, needle) == Some(i as int)
                && from <= i < to,
            None => top_level_index(s@, from as int, to as int, Quote::Outside, needle) is None,
        },
{
    let mut i = from;
    let mut quote = Quote::Outside;
    while i < to
        invariant
            from <= i <= to <= s@.len(),
            top_level_index(s@, from as int, to as int, Quote::Outside, needle)
                == top_level_index(s@, i as int, to as int, quote, needle),
        decreases to - i,
    {
        let c = s[i];
        if quote == Quote::Outside && c != '"' && c != '\'' && c == needle {
            return Some(i);
        }
        quote = quote_after(quote, c);
        i = i + 1;
    }
    None
}

fn array_end_at(s: &Vec<char>, from: usize, to: usize) -> (found: Option<usize>)
    requires
        from <= to <= s@.len(),
    ensures
        match found {
            Some(e) => array_end_from(s@, from as int, to as int, Quote::Outside, 0) == Some(e as int) && from < e <= to,
            None => array_end_from(s@, from as int, to as int, Quote::Outside, 0) is None,
        },
{
    let mut i = from;
    let mut quote = Quote::Outside;
    let mut depth: usize = 0;
    while i < to
        invariant
            from <= i <= to <= s@.len(),
            depth <= i - from,
            array_end_from(s@, from as int, to as int, Quote::Outside, 0)
                == array_end_from(s@, i as int, to as int, quote, depth as int),
        decreases to - i,
    {
        let c = s[i];
        if quote == Quote::Outside && c == '[' {
            depth = depth + 1;
        } else if quote == Quote::Outside && c == ']' {
            if depth == 0 {
                return None;
            }
            if depth == 1 {
                return Some(i + 1);
            }
            depth = depth - 1;
        } else {
            quote = quote_after(quote, c);
        }
        i = i + 1;
    }
    None
}

/// What a TOML document holds under one top-level key, as the edits read it.
#[derive(Debug)]
pub enum TomlEntry {
    Missing,
    Text(String),
    Array(Vec<Option<String>>),
    Other,
}

pub enum TomlEntryView {
    Missing,
    Text(Seq<char>),
    Array(Seq<Option<Seq<char>>>),
    Other,
}

pub open spec fn toml_entry_view(entry: TomlEntry) -> TomlEntryView {
    match entry {
        TomlEntry::Missing => TomlEntryView::Missing,
        TomlEntry::Text(text) => TomlEntryView::Text(text@),
        TomlEntry::Array(items) => TomlEntryView::Array(items.deep_view()),
        TomlEntry::Other => TomlEntryView::Other,
    }
}

/// What `toml::from_str::<toml::Value>(document)` gives, read at `key`: the
/// entry, or the parse error's display text.
pub uninterp spec fn toml_document_entry(document: Seq<char>, key: Seq<char>) -> Result<TomlEntryView, Seq<char>>;

/// Parse a TOML document with `toml::from_str::<toml::Value>` and read the
/// top-level entry `key`: a string, an array (each item as its string, if
/// it is one), another value, or nothing; on a parse error, its text.
#[verifier::external_body]
fn read_toml_entry(document: &str, key: &str) -> (result: Result<TomlEntry, String>)
    ensures
        match result {
            Ok(entry) => toml_document_entry(document@, key@) == Ok::<TomlEntryView, Seq<char>>(toml_entry_view(entry)),
            Err(message) => toml_document_entry(document@, key@) == Err::<TomlEntryView, Seq<char>>(message@),
        },
{
    match toml::from_str::<toml::Value>(document) {
        Err(error) => Err(error.to_string()),
        Ok(value) => Ok(match value.get(key) {
            None => TomlEntry::Missing,
            Some(toml::Value::String(text)) => TomlEntry::Text(text.clone()),
            Some(toml::Value::Array(items)) => TomlEntry::Array(items.iter().map(|item| item.as_str().map(str::to_owned)).collect()),
            Some(_) => TomlEntry::Other,
        }),
    }
}

/// What `toml::from_str::<toml::Value>(document)` gives for the top-level
/// entry `table`: the keys of that table in the order the table yields them,
/// `None` where the entry is missing or no table, or the parse error's text.
pub uninterp spec fn toml_table_keys(document: Seq<char>, table: Seq<char>) -> Result<Option<Seq<Seq<char>>>, Seq<char>>;

/// Parse a TOML document with `toml::from_str::<toml::Value>` and list the
/// keys of its top-level table `table`, if it has one.
#[verifier::external_body]
fn read_toml_table_keys(document: &str, table: &str) -> (result: Result<Option<Vec<String>>, String>)
    ensures
        match result {
            Ok(Some(keys)) => toml_table_keys(document@, table@) == Ok::<Option<Seq<Seq<char>>>, Seq<char>>(Some(keys.deep_view())),
            Ok(None) => toml_table_keys(document@, table@) == Ok::<Option<Seq<Seq<char>>>, Seq<char>>(None),
            Err(message) => toml_table_keys(document@, table@) == Err::<Option<Seq<Seq<char>>>, Seq<char>>(message@),
        },
{
    match toml::from_str::<toml::Value>(document) {
        Err(error) => Err(error.to_string()),
        Ok(value) => Ok(value.get(table).and_then(toml::Value::as_table).map(|entries| entries.keys().cloned().collect())),
    }
}

/// A build path setting that the canonical artifact model no longer reads.
pub open spec fn legacy_path_failure(path: Seq<char>, field: Seq<char>, guidance: Seq<char>, code: Seq<char>) -> DiagnosticView {
    DiagnosticView {
        code,
        kind: ErrorKind::Config,
        message: field + " is no longer supported by the canonical artifact model"@,
        source: Some(path),
        line: None,
        column: None,
        schema_path: None,
        record_identity: None,
        suggestion: Some(guidance),
        related_requirements: seq!["PROJECT-CONFIG-004"@, "PROJECT-CONFIG-005"@],
    }
}

pub open spec fn output_guidance() -> Seq<char> {
    "use build.artifact_dir for project-local canonical artifacts, or add a kind = \"csharp\" publish target for an external destination"@
}

pub open spec fn binary_output_guidance() -> Seq<char> {
    "the canonical binary is .masterdata/output/masterdata.bytes; use a kind = \"binary\" publish target for an external destination"@
}

/// Why the keys of the `[build]` table are refused, if they are: the
/// retired `output`, then the retired `binary_output`.
pub open spec fn legacy_refusal(build_keys: Option<Seq<Seq<char>>>, path: Seq<char>) -> Option<DiagnosticView> {
    match build_keys {
        None => None,
        Some(keys) => if keys.contains("output"@) {
            Some(legacy_path_failure(path, "build.output"@, output_guidance(), "E-CONFIG-LEGACY-BUILD-OUTPUT"@))
        } else if keys.contains("binary_output"@) {
            Some(legacy_path_failure(path, "build.binary_output"@, binary_output_guidance(), "E-CONFIG-LEGACY-BINARY-OUTPUT"@))
        } else {
            None
        },
    }
}

fn legacy_build_path_error(config_path: &str, field: &str, guidance: &str, code: &str) -> (error: MasterdataError)
    ensures
        error@ == legacy_path_failure(config_path@, field@, guidance@, code@),
{
    let mut message = String::from_str(field);
    message.append(" is no longer supported by the canonical artifact model");
    let d = crate::error::Diagnostic::new(code, ErrorKind::Config, message.as_str())
        .with_source(config_path)
        .with_suggestion(guidance)
        .with_related_requirement("PROJECT-CONFIG-004")
        .with_related_requirement("PROJECT-CONFIG-005");
    proof {
        assert(d@.related_requirements =~= seq!["PROJECT-CONFIG-004"@, "PROJECT-CONFIG-005"@]);
    }
    MasterdataError { diagnostic: Box::new(d) }
}

/// Refuses the retired build path settings among the keys of the
/// `[build]` table (`None` where the configuration has no such table).
pub fn legacy_build_path_refusal(build_keys: &Option<Vec<String>>, config_path: &str) -> (result: Result<(), MasterdataError>)
    ensures
        match legacy_refusal(match build_keys { Some(keys) => Some(keys.deep_view()), None => None }, config_path@) {
            Some(d) => result matches Err(e) && e@ == d,
            None => result is Ok,
        },
{
    match build_keys {
        None => Ok(()),
        Some(keys) => {
            if crate::text::strings_contain(keys, "output") {
                Err(legacy_build_path_error(config_path, "build.output",
                    "use build.artifact_dir for project-local canonical artifacts, or add a kind = \"csharp\" publish target for an external destination",
                    "E-CONFIG-LEGACY-BUILD-OUTPUT"))
            } else if crate::text::strings_contain(keys, "binary_output") {
                Err(legacy_build_path_error(config_path, "build.binary_output",
                    "the canonical binary is .masterdata/output/masterdata.bytes; use a kind = \"binary\" publish target for an external destination",
                    "E-CONFIG-LEGACY-BINARY-OUTPUT"))
            } else {
                Ok(())
            }
        },
    }
}

/// Refuses a configuration document that still sets a retired build path.
/// A document that does not parse is refused elsewhere, by its parse error.
pub fn reject_legacy_build_paths(document: &str, config_path: &str) -> (result: Result<(), MasterdataError>)
    ensures
        match toml_table_keys(document@, "build"@) {
            Err(_) => result is Ok,
            Ok(keys) => match legacy_refusal(keys, config_path@) {
                Some(d) => result matches Err(e) && e@ == d,
                None => result is Ok,
            },
        },
{
    match read_toml_table_keys(document, "build") {
        Err(_) => Ok(()),
        Ok(keys) => legacy_build_path_refusal(&keys, config_path),
    }
}

/// A line of the source: its start and the end of its text, without the
/// line break (`\n` or `\r\n`).
#[derive(Debug, Clone, Copy, PartialEq, Eq, Structural)]
pub struct SourceLine {
    pub start: usize,
    pub end: usize,
}

/// Position of the first `\n` at or after `p`, or the length.
pub open spec fn newline_from(s: Seq<char>, p: int) -> int
    decreases s.len() - p,
{
    if p < 0 || p >= s.len() { s.len() as int } else if s[p] == '\n' { p } else { newline_from(s, p + 1) }
}

/// The lines from position `p`: each segment up to and including `\n`,
/// its text without the `\n` and one trailing `\r`.
pub open spec fn lines_from(s: Seq<char>, p: int) -> Seq<(int, int)>
    decreases s.len() - p,
{
    if p < 0 || p >= s.len() {
        Seq::empty()
    } else {
        let q = newline_from(s, p);
        let next = if q < s.len() { q + 1 } else { s.len() as int };
        let end = if q > p && s[q - 1] == '\r' { q - 1 } else { q };
        if next <= p {
            Seq::empty()
        } else {
            seq![(p, end)] + lines_from(s, next)
        }
    }
}

/// The lines of the source; an empty source has one empty line.
pub open spec fn source_lines(s: Seq<char>) -> Seq<(int, int)> {
    if s.len() == 0 { seq![(0int, 0int)] } else { lines_from(s, 0) }
}

pub open spec fn lines_view(lines: Seq<SourceLine>) -> Seq<(int, int)> {
    lines.map_values(|l: SourceLine| (l.start as int, l.end as int))
}

proof fn lemma_newline_from(s: Seq<char>, p: int)
    requires
        0 <= p <= s.len(),
    ensures
        p <= newline_from(s, p) <= s.len(),
        newline_from(s, p) < s.len() ==> s[newline_from(s, p)] == '\n',
    decreases s.len() - p,
{
    if p < s.len() && s[p] != '\n' {
        lemma_newline_from(s, p + 1);
    }
}

pub(crate) fn split_lines(s: &Vec<char>) -> (lines: Vec<SourceLine>)
    ensures
        lines_view(lines@) == source_lines(s@),
        forall|k: int| 0 <= k < lines@.len() ==> #[trigger] lines@[k].start <= lines@[k].end <= s@.len(),
        lines@.len() > 0,
{
    let n = s.len();
    let mut lines: Vec<SourceLine> = Vec::new();
    if n == 0 {
        lines.push(SourceLine { start: 0, end: 0 });
        proof {
            assert(lines_view(lines@) =~= seq![(0int, 0int)]);
        }
        return lines;
    }
    let mut p: usize = 0;
    proof {
        assert(lines_view(lines@) + lines_from(s@, 0) =~= lines_from(s@, 0));
    }
    while p < n
        invariant
            p <= n,
            n == s@.len(),
            n > 0,
            lines_view(lines@) + lines_from(s@, p as int) == lines_from(s@, 0),
            forall|k: int| 0 <= k < lines@.len() ==> #[trigger] lines@[k].start <= lines@[k].end <= s@.len(),
            p > 0 ==> lines@.len() > 0,
        decreases n - p,
    {
        proof {
            lemma_newline_from(s@, p as int);
        }
        let mut q = p;
        while q < n && s[q] != '\n'
            invariant
                p <= q <= n,
                n == s@.len(),
                newline_from(s@, p as int) == newline_from(s@, q as int),
            decreases n - q,
        {
            q = q + 1;
        }
        let next = if q < n { q + 1 } else { n };
        let end = if q > p && s[q - 1] == '\r' { q - 1 } else { q };
        let ghost before = lines_view(lines@);
        lines.push(SourceLine { start: p, end });
        proof {
            assert(lines_view(lines@) =~= before.push((p as int, end as int)));
            assert(lines_from(s@, p as int) == seq![(p as int, end as int)] + lines_from(s@, next as int));
            assert(before + (seq![(p as int, end as int)] + lines_from(s@, next as int))
                =~= before.push((p as int, end as int)) + lines_from(s@, next as int));
        }
        p = next;
    }
    proof {
        assert(lines_view(lines@) =~= lines_view(lines@) + lines_from(s@, p as int));
    }
    lines
}

/// An open multi-line string at the end of a line.
#[derive(Debug, Clone, Copy, PartialEq, Eq, Structural)]
pub enum Multiline {
    Closed,
    Basic,
    Literal,
}

/// Number of consecutive `\` right before position `i`, not before `a`.
pub open spec fn backslashes_before(s: Seq<char>, a: int, i: int) -> int
    decreases i - a,
{
    if i > a && s[i - 1] == '\\' { 1 + backslashes_before(s, a, i - 1) } else { 0 }
}

pub open spec fn triple_at(s: Seq<char>, i: int, b: int, q: char) -> bool {
    i + 3 <= b && s[i] == q && s[i + 1] == q && s[i + 2] == q
}

/// The first closing `q q q` of the line `s[a..b]` at or after `i`; a `"""`
/// after an odd run of backslashes is escaped.
pub open spec fn delimiter_position(s: Seq<char>, a: int, b: int, q: char, i: int) -> Option<int>
    decreases b - i,
{
    if i < a || i + 3 > b {
        None
    } else if triple_at(s, i, b, q) && !(q == '"' && backslashes_before(s, a, i) % 2 == 1) {
        Some(i)
    } else {
        delimiter_position(s, a, b, q, i + 1)
    }
}

/// The code of the line `s[a..b]` scanned from `i`: where it ends (a
/// comment or the start of an unclosed multi-line string cut it) and which
/// multi-line string is left open.
pub open spec fn code_scan(s: Seq<char>, a: int, b: int, i: int, quote: Quote) -> (int, Multiline)
    decreases b - i,
{
    if i < a || i >= b {
        (b, Multiline::Closed)
    } else if quote is Outside && s[i] == '#' {
        (i, Multiline::Closed)
    } else if quote is Outside && triple_at(s, i, b, '"') {
        match delimiter_position(s, a, b, '"', i + 3) {
            Some(close) => if i <= close && close + 3 <= b { code_scan(s, a, b, close + 3, Quote::Outside) } else { (i, Multiline::Closed) },
            None => (i, Multiline::Basic),
        }
    } else if quote is Outside && triple_at(s, i, b, '\'') {
        match delimiter_position(s, a, b, '\'', i + 3) {
            Some(close) => if i <= close && close + 3 <= b { code_scan(s, a, b, close + 3, Quote::Outside) } else { (i, Multiline::Closed) },
            None => (i, Multiline::Literal),
        }
    } else {
        match quote {
            Quote::Double => {
                if s[i] == '\\' {
                    if i + 2 >= b { (b, Multiline::Closed) } else { code_scan(s, a, b, i + 2, Quote::Double) }
                } else {
                    code_scan(s, a, b, i + 1, if s[i] == '"' { Quote::Outside } else { Quote::Double })
                }
            },
            Quote::Single => code_scan(s, a, b, i + 1, if s[i] == '\'' { Quote::Outside } else { Quote::Single }),
            Quote::Outside => code_scan(s, a, b, i + 1, if s[i] == '"' { Quote::Double } else if s[i] == '\'' { Quote::Single } else { Quote::Outside }),
        }
    }
}

/// The code part of a line for locating table headers, and the multi-line
/// string state after it: inside an open multi-line string a line has no
/// code, and the string closes on the line that holds its delimiter.
pub open spec fn section_code(s: Seq<char>, a: int, b: int, open: Multiline) -> (int, Multiline) {
    match open {
        Multiline::Basic => (a, if delimiter_position(s, a, b, '"', a) is Some { Multiline::Closed } else { Multiline::Basic }),
        Multiline::Literal => (a, if delimiter_position(s, a, b, '\'', a) is Some { Multiline::Closed } else { Multiline::Literal }),
        Multiline::Closed => code_scan(s, a, b, a, Quote::Outside),
    }
}

fn delimiter_position_at(s: &Vec<char>, a: usize, b: usize, q: char, from: usize) -> (found: Option<usize>)
    requires
        a <= from,
        a <= b <= s@.len(),
    ensures
        match found {
            Some(i) => delimiter_position(s@, a as int, b as int, q, from as int) == Some(i as int) && from <= i && i + 3 <= b,
            None => delimiter_position(s@, a as int, b as int, q, from as int) is None,
        },
{
    let mut i = from;
    while i < b && b - i >= 3
        invariant
            a <= from <= i,
            b <= s@.len(),
            delimiter_position(s@, a as int, b as int, q, from as int) == delimiter_position(s@, a as int, b as int, q, i as int),
        decreases b - i,
    {
        if s[i] == q && s[i + 1] == q && s[i + 2] == q {
            let mut count: usize = 0;
            if q == '"' {
                let mut j = i;
                while j > a && s[j - 1] == '\\'
                    invariant
                        a <= j <= i,
                        i < s@.len(),
                        count == i - j,
                        backslashes_before(s@, a as int, i as int) == count + backslashes_before(s@, a as int, j as int),
                    decreases j - a,
                {
                    j = j - 1;
                    count = count + 1;
                }
            }
            if !(q == '"' && count % 2 == 1) {
                return Some(i);
            }
        }
        i = i + 1;
    }
    None
}

fn code_scan_at(s: &Vec<char>, a: usize, b: usize) -> (result: (usize, Multiline))
    requires
        a <= b <= s@.len(),
    ensures
        code_scan(s@, a as int, b as int, a as int, Quote::Outside) == (result.0 as int, result.1),
        a <= result.0 <= b,
{
    let mut i = a;
    let mut quote = Quote::Outside;
    while i < b
        invariant
            a <= i <= b <= s@.len(),
            code_scan(s@, a as int, b as int, a as int, Quote::Outside) == code_scan(s@, a as int, b as int, i as int, quote),
        decreases b - i,
    {
        let c = s[i];
        if quote == Quote::Outside && c == '#' {
            return (i, Multiline::Closed);
        }
        if quote == Quote::Outside && b - i >= 3 && c == '"' && s[i + 1] == '"' && s[i + 2] == '"' {
            match delimiter_position_at(s, a, b, '"', i + 3) {
                Some(close) => {
                    i = close + 3;
                    continue;
                },
                None => {
                    return (i, Multiline::Basic);
                },
            }
        }
        if quote == Quote::Outside && b - i >= 3 && c == '\'' && s[i + 1] == '\'' && s[i + 2] == '\'' {
            match delimiter_position_at(s, a, b, '\'', i + 3) {
                Some(close) => {
                    i = close + 3;
                    continue;
                },
                None => {
                    return (i, Multiline::Literal);
                },
            }
        }
        match quote {
            Quote::Double => {
                if c == '\\' {
                    if b - i <= 2 {
                        return (b, Multiline::Closed);
                    }
                    i = i + 2;
                } else {
                    if c == '"' {
                        quote = Quote::Outside;
                    }
                    i = i + 1;
                }
            },
            Quote::Single => {
                if c == '\'' {
                    quote = Quote::Outside;
                }
                i = i + 1;
            },
            Quote::Outside => {
                if c == '"' {
                    quote = Quote::Double;
                } else if c == '\'' {
                    quote = Quote::Single;
                }
                i = i + 1;
            },
        }
    }
    (b, Multiline::Closed)
}

fn section_code_at(s: &Vec<char>, a: usize, b: usize, open: Multiline) -> (result: (usize, Multiline))
    requires
        a <= b <= s@.len(),
    ensures
        section_code(s@, a as int, b as int, open) == (result.0 as int, result.1),
        a <= result.0 <= b,
{
    match open {
        Multiline::Basic => {
            let closed = delimiter_position_at(s, a, b, '"', a).is_some();
            (a, if closed { Multiline::Closed } else { Multiline::Basic })
        },
        Multiline::Literal => {
            let closed = delimiter_position_at(s, a, b, '\'', a).is_some();
            (a, if closed { Multiline::Closed } else { Multiline::Literal })
        },
        Multiline::Closed => code_scan_at(s, a, b),
    }
}

/// A bare, quoted or literal TOML key: `"..."` is decoded by TOML,
/// `'...'` drops its quotes, anything else non-empty is taken as it is.
pub open spec fn decoded_key(t: Seq<char>) -> Option<Seq<char>> {
    if t.len() > 0 && t[0] == '"' {
        match toml_document_entry("key = "@ + t, "key"@) {
            Ok(TomlEntryView::Text(v)) => Some(v),
            _ => None,
        }
    } else if t.len() >= 2 && t[0] == '\'' && t.last() == '\'' {
        Some(t.subrange(1, t.len() - 1))
    } else if t.len() > 0 {
        Some(t)
    } else {
        None
    }
}

fn decode_key(s: &Vec<char>, from: usize, to: usize) -> (key: Option<String>)
    requires
        from <= to <= s@.len(),
    ensures
        match key {
            Some(k) => decoded_key(s@.subrange(from as int, to as int)) == Some(k@),
            None => decoded_key(s@.subrange(from as int, to as int)) is None,
        },
{
    let ghost t = s@.subrange(from as int, to as int);
    if to > from && s[from] == '"' {
        let text = string_from_range(s, from, to);
        let mut document = String::from_str("key = ");
        document.append(text.as_str());
        match read_toml_entry(document.as_str(), "key") {
            Ok(TomlEntry::Text(value)) => Some(value),
            _ => None,
        }
    } else if to - from >= 2 && s[from] == '\'' && s[to - 1] == '\'' {
        proof {
            assert(t.subrange(1, t.len() - 1) =~= s@.subrange(from + 1, to - 1));
        }
        Some(string_from_range(s, from + 1, to - 1))
    } else if to > from {
        Some(string_from_range(s, from, to))
    } else {
        None
    }
}

/// The key of a trimmed part `s[start..end]`.
pub open spec fn part_key(s: Seq<char>, start: int, end: int) -> Option<Seq<char>> {
    let ls = skip_space(s, start, end);
    decoded_key(s.subrange(ls, trim_end_at(s, ls, end)))
}

/// A dotted key path `s[start..b]` scanned from `i`, with the keys decoded
/// so far; `None` when a part is empty or undecodable or a quote stays open.
pub open spec fn key_path_scan(s: Seq<char>, b: int, start: int, i: int, quote: Quote, parts: Seq<Seq<char>>) -> Option<Seq<Seq<char>>>
    decreases b - i,
{
    if i < start || i >= b {
        if !(quote is Outside) {
            None
        } else {
            let ls = skip_space(s, start, b);
            if ls >= trim_end_at(s, ls, b) {
                None
            } else {
                match part_key(s, start, b) {
                    Some(k) => Some(parts.push(k)),
                    None => None,
                }
            }
        }
    } else {
        match quote {
            Quote::Double => {
                if s[i] == '\\' {
                    if i + 2 >= b { None } else { key_path_scan(s, b, start, i + 2, Quote::Double, parts) }
                } else {
                    key_path_scan(s, b, start, i + 1, if s[i] == '"' { Quote::Outside } else { Quote::Double }, parts)
                }
            },
            Quote::Single => key_path_scan(s, b, start, i + 1, if s[i] == '\'' { Quote::Outside } else { Quote::Single }, parts),
            Quote::Outside => {
                if s[i] == '"' {
                    key_path_scan(s, b, start, i + 1, Quote::Double, parts)
                } else if s[i] == '\'' {
                    key_path_scan(s, b, start, i + 1, Quote::Single, parts)
                } else if s[i] == '.' {
                    match part_key(s, start, i) {
                        Some(k) => key_path_scan(s, b, i + 1, i + 1, Quote::Outside, parts.push(k)),
                        None => None,
                    }
                } else {
                    key_path_scan(s, b, start, i + 1, Quote::Outside, parts)
                }
            },
        }
    }
}

pub open spec fn key_path(s: Seq<char>, a: int, b: int) -> Option<Seq<Seq<char>>> {
    key_path_scan(s, b, a, a, Quote::Outside, Seq::empty())
}

fn part_key_at(s: &Vec<char>, start: usize, end: usize) -> (key: Option<String>)
    requires
        start <= end <= s@.len(),
    ensures
        match key {
            Some(k) => part_key(s@, start as int, end as int) == Some(k@),
            None => part_key(s@, start as int, end as int) is None,
        },
{
    let ls = skip_space_at(s, start, end);
    let le = trim_end_from(s, ls, end);
    decode_key(s, ls, le)
}

fn key_path_at(s: &Vec<char>, a: usize, b: usize) -> (path: Option<Vec<String>>)
    requires
        a <= b <= s@.len(),
    ensures
        match path {
            Some(p) => key_path(s@, a as int, b as int) == Some(p.deep_view()),
            None => key_path(s@, a as int, b as int) is None,
        },
{
    let mut parts: Vec<String> = Vec::new();
    let mut start = a;
    let mut i = a;
    let mut quote = Quote::Outside;
    proof {
        assert(parts.deep_view() =~= Seq::<Seq<char>>::empty());
    }
    while i < b
        invariant
            a <= start <= i <= b <= s@.len(),
            key_path(s@, a as int, b as int) == key_path_scan(s@, b as int, start as int, i as int, quote, parts.deep_view()),
        decreases b - i,
    {
        let c = s[i];
        match quote {
            Quote::Double => {
                if c == '\\' {
                    if b - i <= 2 {
                        return None;
                    }
                    i = i + 2;
                } else {
                    if c == '"' {
                        quote = Quote::Outside;
                    }
                    i = i + 1;
                }
            },
            Quote::Single => {
                if c == '\'' {
                    quote = Quote::Outside;
                }
                i = i + 1;
            },
            Quote::Outside => {
                if c == '"' {
                    quote = Quote::Double;
                    i = i + 1;
                } else if c == '\'' {
                    quote = Quote::Single;
                    i = i + 1;
                } else if c == '.' {
                    match part_key_at(s, start, i) {
                        Some(k) => {
                            let ghost before = parts.deep_view();
                            parts.push(k);
                            proof {
                                assert(parts.deep_view() =~= before.push(k@));
                            }
                            start = i + 1;
                            i = i + 1;
                        },
                        None => {
                            return None;
                        },
                    }
                } else {
                    i = i + 1;
                }
            },
        }
    }
    if quote != Quote::Outside {
        return None;
    }
    let ls = skip_space_at(s, start, b);
    let le = trim_end_from(s, ls, b);
    if ls >= le {
        return None;
    }
    match part_key_at(s, start, b) {
        Some(k) => {
            let ghost before = parts.deep_view();
            parts.push(k);
            proof {
                assert(parts.deep_view() =~= before.push(k@));
            }
            Some(parts)
        },
        None => None,
    }
}

/// A table header in the code `s[a..c]`: whether it is an array of tables
/// (`[[...]]`) and the range of its inner text, untrimmed.
pub open spec fn header_of(s: Seq<char>, a: int, c: int) -> Option<(bool, int, int)> {
    let ts = skip_space(s, a, c);
    let te = trim_end_at(s, ts, c);
    if te - ts >= 4 && s[ts] == '[' && s[ts + 1] == '[' && s[te - 2] == ']' && s[te - 1] == ']' {
        Some((true, ts + 2, te - 2))
    } else if te - ts >= 2 && s[ts] == '[' && s[te - 1] == ']' {
        Some((false, ts + 1, te - 1))
    } else {
        None
    }
}

/// A located table header: its line, key path, and whether it is `[[...]]`.
pub struct HeaderSpec {
    pub line: int,
    pub path: Seq<Seq<char>>,
    pub array: bool,
}

/// The table headers from line `k` on, given the multi-line string state;
/// `Err(k)` names the first header line whose key path cannot be read.
pub open spec fn headers_from(s: Seq<char>, lines: Seq<(int, int)>, k: int, open: Multiline) -> Result<Seq<HeaderSpec>, int>
    decreases lines.len() - k,
{
    if k < 0 || k >= lines.len() {
        Ok(Seq::empty())
    } else {
        let (a, b) = lines[k];
        let (c, next) = section_code(s, a, b, open);
        match header_of(s, a, c) {
            None => headers_from(s, lines, k + 1, next),
            Some((array, x, y)) => {
                let ia = skip_space(s, x, y);
                match key_path(s, ia, trim_end_at(s, ia, y)) {
                    None => Err(k),
                    Some(path) => match headers_from(s, lines, k + 1, next) {
                        Ok(rest) => Ok(seq![HeaderSpec { line: k, path, array }] + rest),
                        Err(e) => Err(e),
                    },
                }
            },
        }
    }
}

/// A table section: from its header line to the next header or the end.
#[derive(Debug)]
pub struct Section {
    pub start_line: usize,
    pub end_line: usize,
    pub path: Vec<String>,
    pub array: bool,
}

pub struct SectionSpec {
    pub start_line: int,
    pub end_line: int,
    pub path: Seq<Seq<char>>,
    pub array: bool,
}

pub open spec fn section_view(section: Section) -> SectionSpec {
    SectionSpec {
        start_line: section.start_line as int,
        end_line: section.end_line as int,
        path: section.path.deep_view(),
        array: section.array,
    }
}

pub open spec fn sections_view(sections: Seq<Section>) -> Seq<SectionSpec> {
    sections.map_values(|x: Section| section_view(x))
}

/// Each header's section runs to the next header's line or to `total`.
pub open spec fn sections_of(headers: Seq<HeaderSpec>, total: int) -> Seq<SectionSpec> {
    Seq::new(headers.len(), |k: int| SectionSpec {
        start_line: headers[k].line,
        end_line: if k + 1 < headers.len() { headers[k + 1].line } else { total },
        path: headers[k].path,
        array: headers[k].array,
    })
}

/// The sections of the source, or the first header line that cannot be
/// located safely.
pub open spec fn source_sections(s: Seq<char>) -> Result<Seq<SectionSpec>, int> {
    let lines = source_lines(s);
    match headers_from(s, lines, 0, Multiline::Closed) {
        Ok(headers) => Ok(sections_of(headers, lines.len() as int)),
        Err(k) => Err(k),
    }
}

fn decimal(n: usize) -> (text: String)
    ensures
        text@ == decimal_text(n as nat),
    decreases n,
{
    let digit = ((('0' as u32) + (n % 10) as u32) as u8) as char;
    if n < 10 {
        let mut text = String::new();
        push_char(&mut text, digit);
        proof {
            assert(text@ =~= decimal_text(n as nat));
        }
        text
    } else {
        let mut text = decimal(n / 10);
        push_char(&mut text, digit);
        text
    }
}

fn header_at(s: &Vec<char>, a: usize, c: usize) -> (header: Option<(bool, usize, usize)>)
    requires
        a <= c <= s@.len(),
    ensures
        match header {
            Some((array, x, y)) => header_of(s@, a as int, c as int) == Some((array, x as int, y as int)) && a <= x <= y <= c,
            None => header_of(s@, a as int, c as int) is None,
        },
{
    let ts = skip_space_at(s, a, c);
    let te = trim_end_from(s, ts, c);
    if te - ts >= 4 && s[ts] == '[' && s[ts + 1] == '[' && s[te - 2] == ']' && s[te - 1] == ']' {
        Some((true, ts + 2, te - 2))
    } else if te - ts >= 2 && s[ts] == '[' && s[te - 1] == ']' {
        Some((false, ts + 1, te - 1))
    } else {
        None
    }
}

/// Locate the table sections of the source.
fn locate_sections(s: &Vec<char>, lines: &Vec<SourceLine>) -> (result: Result<Vec<Section>, usize>)
    requires
        forall|k: int| 0 <= k < lines@.len() ==> #[trigger] lines@[k].start <= lines@[k].end <= s@.len(),
    ensures
        match result {
            Ok(sections) => headers_from(s@, lines_view(lines@), 0, Multiline::Closed) matches Ok(headers)
                && sections_view(sections@) == sections_of(headers, lines@.len() as int)
                && forall|k: int| 0 <= k < sections@.len() ==> #[trigger] sections@[k].start_line < sections@[k].end_line <= lines@.len(),
            Err(k) => headers_from(s@, lines_view(lines@), 0, Multiline::Closed) == Err::<Seq<HeaderSpec>, int>(k as int),
        },
{
    let ghost lv = lines_view(lines@);
    let mut found: Vec<Section> = Vec::new();
    let mut open = Multiline::Closed;
    assert(forall|m: int| 0 <= m < lines@.len() ==> #[trigger] lines@[m].start <= lines@[m].end <= s@.len());
    let mut k: usize = 0;
    proof {
        match headers_from(s@, lv, 0, Multiline::Closed) {
            Ok(h) => { assert(Seq::<HeaderSpec>::empty() + h =~= h); },
            Err(_) => {},
        }
    }
    while k < lines.len()
        invariant
            k <= lines@.len(),
            lv == lines_view(lines@),
            forall|m: int| 0 <= m < lines@.len() ==> #[trigger] lines@[m].start <= lines@[m].end <= s@.len(),
            forall|m: int| 0 <= m < found@.len() ==> #[trigger] found@[m].start_line < k && found@[m].end_line == lines@.len(),
            forall|m: int, m2: int| 0 <= m < m2 < found@.len() ==> #[trigger] found@[m].start_line < #[trigger] found@[m2].start_line,
            headers_from(s@, lv, 0, Multiline::Closed) == match headers_from(s@, lv, k as int, open) {
                Ok(rest) => Ok::<Seq<HeaderSpec>, int>(Seq::new(found@.len(), |m: int| HeaderSpec {
                    line: found@[m].start_line as int,
                    path: found@[m].path.deep_view(),
                    array: found@[m].array,
                }) + rest),
                Err(e) => Err(e),
            },
        decreases lines@.len() - k,
    {
        let line = lines[k];
        proof {
            assert(lv[k as int] == (line.start as int, line.end as int));
        }
        let (c, next) = section_code_at(s, line.start, line.end, open);
        match header_at(s, line.start, c) {
            None => {},
            Some((array, x, y)) => {
                let ia = skip_space_at(s, x, y);
                let ib = trim_end_from(s, ia, y);
                match key_path_at(s, ia, ib) {
                    None => {
                        return Err(k);
                    },
                    Some(path) => {
                        let ghost before = Seq::new(found@.len(), |m: int| HeaderSpec {
                            line: found@[m].start_line as int,
                            path: found@[m].path.deep_view(),
                            array: found@[m].array,
                        });
                        let ghost h = HeaderSpec { line: k as int, path: path.deep_view(), array };
                        found.push(Section { start_line: k, end_line: lines.len(), path, array });
                        proof {
                            let after = Seq::new(found@.len(), |m: int| HeaderSpec {
                                line: found@[m].start_line as int,
                                path: found@[m].path.deep_view(),
                                array: found@[m].array,
                            });
                            assert(after =~= before.push(h));
                            match headers_from(s@, lv, k + 1, next) {
                                Ok(rest) => {
                                    assert(before + (seq![h] + rest) =~= before.push(h) + rest);
                                },
                                Err(_) => {},
                            }
                        }
                    },
                }
            },
        }
        open = next;
        k = k + 1;
    }
    let ghost headers = Seq::new(found@.len(), |m: int| HeaderSpec {
        line: found@[m].start_line as int,
        path: found@[m].path.deep_view(),
        array: found@[m].array,
    });
    proof {
        assert(headers + Seq::<HeaderSpec>::empty() =~= headers);
    }
    let count = found.len();
    assert forall|m: int| 0 <= m < count implies #[trigger] found@[m].end_line == lines@.len() by {
        assert(found@[m].start_line < k);
    }
    let mut j: usize = 0;
    while j < count
        invariant
            j <= count,
            count == found@.len(),
            forall|m: int| 0 <= m < count ==> #[trigger] found@[m].start_line == headers[m].line,
            forall|m: int| 0 <= m < count ==> #[trigger] found@[m].path.deep_view() == headers[m].path && found@[m].array == headers[m].array,
            forall|m: int| 0 <= m < j ==> #[trigger] found@[m].end_line == (if m + 1 < count { headers[m + 1].line } else { lines@.len() as int }),
            forall|m: int| j <= m < count ==> #[trigger] found@[m].end_line == lines@.len(),
            forall|m: int| 0 <= m < count ==> #[trigger] found@[m].start_line < lines@.len(),
            forall|m: int, m2: int| 0 <= m < m2 < count ==> #[trigger] headers[m].line < #[trigger] headers[m2].line,
        decreases count - j,
    {
        let ghost old_found = found@;
        if j + 1 < count {
            let next_start = found[j + 1].start_line;
            found[j].end_line = next_start;
        }
        proof {
            assert forall|m: int| 0 <= m < count implies #[trigger] found@[m].path == old_found[m].path
                && found@[m].array == old_found[m].array && found@[m].start_line == old_found[m].start_line
                && (m != j ==> found@[m].end_line == old_found[m].end_line) by {}
        }
        j = j + 1;
    }
    proof {
        assert(sections_view(found@) =~= sections_of(headers, lines@.len() as int));
        assert forall|m: int| 0 <= m < found@.len() implies #[trigger] found@[m].start_line < found@[m].end_line <= lines@.len() by {
            if m + 1 < count {
                assert(headers[m].line < headers[m + 1].line);
            }
        }
    }
    Ok(found)
}

pub open spec fn is_profile_path(path: Seq<Seq<char>>, name: Seq<char>) -> bool {
    path == seq!["build"@, "profiles"@, name]
}

/// The first plain section `[build.profiles.<name>]`.
pub open spec fn profile_section(sections: Seq<SectionSpec>, name: Seq<char>) -> Option<int>
    decreases sections.len(),
{
    if sections.len() == 0 {
        None
    } else if !sections[0].array && is_profile_path(sections[0].path, name) {
        Some(0)
    } else {
        match profile_section(sections.drop_first(), name) {
            Some(k) => Some(k + 1),
            None => None,
        }
    }
}

fn path_is(path: &Vec<String>, first: &str, second: &str, third: &str) -> (result: bool)
    ensures
        result == (path.deep_view() == seq![first@, second@, third@]),
{
    if path.len() != 3 {
        proof {
            assert(path.deep_view().len() != 3);
        }
        return false;
    }
    let equal = str_eq(path[0].as_str(), first) && str_eq(path[1].as_str(), second) && str_eq(path[2].as_str(), third);
    proof {
        if equal {
            assert(path.deep_view() =~= seq![first@, second@, third@]);
        } else {
            if path.deep_view() == seq![first@, second@, third@] {
                assert(path.deep_view()[0] == first@ && path.deep_view()[1] == second@ && path.deep_view()[2] == third@);
            }
        }
    }
    equal
}

fn find_profile_section(sections: &Vec<Section>, name: &str) -> (found: Option<usize>)
    ensures
        match found {
            Some(k) => profile_section(sections_view(sections@), name@) == Some(k as int) && k < sections@.len(),
            None => profile_section(sections_view(sections@), name@) is None,
        },
{
    let ghost all = sections_view(sections@);
    let mut k: usize = 0;
    proof {
        assert(all.skip(0) =~= all);
    }
    while k < sections.len()
        invariant
            k <= sections@.len(),
            all == sections_view(sections@),
            profile_section(all, name@) == match profile_section(all.skip(k as int), name@) {
                Some(m) => Some(m + k),
                None => None,
            },
        decreases sections@.len() - k,
    {
        proof {
            assert(all.skip(k as int)[0] == section_view(sections@[k as int]));
            assert(all.skip(k as int).drop_first() =~= all.skip(k + 1));
        }
        if !sections[k].array && path_is(&sections[k].path, "build", "profiles", name) {
            return Some(k);
        }
        k = k + 1;
    }
    None
}

/// Where the value of `key = value` on the line `s[a..b]` lies (trimmed,
/// before any comment), when the line assigns that key.
pub open spec fn assignment(s: Seq<char>, a: int, b: int, key: Seq<char>) -> Option<(int, int)> {
    let c = comment_start(s, a, b, Quote::Outside);
    match top_level_index(s, a, c, Quote::Outside, '=') {
        None => None,
        Some(e) => {
            match part_key(s, a, e) {
                Some(k) => if k == key {
                    let vs = skip_space(s, e + 1, c);
                    Some((vs, trim_end_at(s, vs, c)))
                } else {
                    None
                },
                None => None,
            }
        },
    }
}

/// The value of the first assignment of `key` in a section's body lines.
pub open spec fn property_from(s: Seq<char>, lines: Seq<(int, int)>, l: int, end: int, key: Seq<char>) -> Option<(int, int)>
    decreases end - l,
{
    if l < 0 || l >= end || l >= lines.len() {
        None
    } else {
        match assignment(s, lines[l].0, lines[l].1, key) {
            Some(found) => Some(found),
            None => property_from(s, lines, l + 1, end, key),
        }
    }
}

pub open spec fn property_in_section(s: Seq<char>, lines: Seq<(int, int)>, section: SectionSpec, key: Seq<char>) -> Option<(int, int)> {
    property_from(s, lines, section.start_line + 1, section.end_line, key)
}

fn assignment_at(s: &Vec<char>, a: usize, b: usize, key: &str) -> (found: Option<(usize, usize)>)
    requires
        a <= b <= s@.len(),
    ensures
        match found {
            Some((vs, ve)) => assignment(s@, a as int, b as int, key@) == Some((vs as int, ve as int)) && a <= vs <= ve <= b,
            None => assignment(s@, a as int, b as int, key@) is None,
        },
{
    let c = comment_start_at(s, a, b);
    let e = match top_level_index_at(s, a, c, '=') {
        Some(e) => e,
        None => {
            return None;
        },
    };
    match part_key_at(s, a, e) {
        Some(k) => {
            if str_eq(k.as_str(), key) {
                let vs = skip_space_at(s, e + 1, c);
                let ve = trim_end_from(s, vs, c);
                Some((vs, ve))
            } else {
                None
            }
        },
        None => None,
    }
}

fn property_at(s: &Vec<char>, lines: &Vec<SourceLine>, section: &Section, key: &str) -> (found: Option<(usize, usize)>)
    requires
        forall|k: int| 0 <= k < lines@.len() ==> #[trigger] lines@[k].start <= lines@[k].end <= s@.len(),
        section.end_line <= lines@.len(),
    ensures
        match found {
            Some((vs, ve)) => property_in_section(s@, lines_view(lines@), section_view(*section), key@) == Some((vs as int, ve as int))
                && vs <= ve <= s@.len(),
            None => property_in_section(s@, lines_view(lines@), section_view(*section), key@) is None,
        },
{
    let ghost lv = lines_view(lines@);
    if section.start_line >= section.end_line {
        return None;
    }
    let mut l = section.start_line + 1;
    while l < section.end_line
        invariant
            section.start_line < l <= section.end_line + 1,
            section.end_line <= lines@.len(),
            lv == lines_view(lines@),
            forall|k: int| 0 <= k < lines@.len() ==> #[trigger] lines@[k].start <= lines@[k].end <= s@.len(),
            property_in_section(s@, lv, section_view(*section), key@) == property_from(s@, lv, l as int, section.end_line as int, key@),
        decreases section.end_line - l,
    {
        let line = lines[l];
        proof {
            assert(lv[l as int] == (line.start as int, line.end as int));
        }
        match assignment_at(s, line.start, line.end, key) {
            Some(found) => {
                return Some(found);
            },
            None => {},
        }
        l = l + 1;
    }
    None
}

/// The text of a basic TOML string's body: `\\` and `"` escaped.
pub open spec fn escaped(value: Seq<char>) -> Seq<char>
    decreases value.len(),
{
    if value.len() == 0 {
        Seq::empty()
    } else {
        let c = value.last();
        escaped(value.drop_last()) + if c == '\\' { seq!['\\', '\\'] } else if c == '"' { seq!['\\', '"'] } else { seq![c] }
    }
}

/// A TOML string literal: single-quoted when the quote asked for is `'` and
/// the value holds no `'`, else a basic string.
pub open spec fn rendered_string(value: Seq<char>, quote: char) -> Seq<char> {
    if quote == '\'' && !value.contains('\'') {
        seq!['\''] + value + seq!['\'']
    } else {
        seq!['"'] + escaped(value) + seq!['"']
    }
}

pub open spec fn rendered_items(values: Seq<Seq<char>>) -> Seq<char>
    decreases values.len(),
{
    if values.len() == 0 {
        Seq::empty()
    } else if values.len() == 1 {
        rendered_string(values[0], '"')
    } else {
        rendered_items(values.drop_last()) + ", "@ + rendered_string(values.last(), '"')
    }
}

/// `[` the values as basic strings, `, `-separated `]`.
pub open spec fn rendered_array(values: Seq<Seq<char>>) -> Seq<char> {
    "["@ + rendered_items(values) + "]"@
}

fn push_str(out: &mut String, text: &str)
    ensures
        final(out)@ == old(out)@ + text@,
{
    out.append(text);
}

fn render_toml_string_with_quote(value: &str, quote: char) -> (text: String)
    ensures
        text@ == rendered_string(value@, quote),
{
    let chars = chars_of(value);
    let mut has_quote = false;
    let mut i: usize = 0;
    while i < chars.len()
        invariant
            i <= chars@.len(),
            chars@ == value@,
            has_quote == exists|k: int| 0 <= k < i && chars@[k] == '\'',
        decreases chars@.len() - i,
    {
        if chars[i] == '\'' {
            has_quote = true;
        }
        i = i + 1;
    }
    let mut text = String::new();
    if quote == '\'' && !has_quote {
        push_char(&mut text, '\'');
        text.append(value);
        push_char(&mut text, '\'');
        proof {
            assert(!value@.contains('\''));
            assert(text@ =~= seq!['\''] + value@ + seq!['\'']);
        }
        return text;
    }
    proof {
        if quote == '\'' {
            let k = choose|k: int| 0 <= k < i && chars@[k] == '\'';
            assert(value@[k] == '\'');
        }
    }
    push_char(&mut text, '"');
    let mut j: usize = 0;
    while j < chars.len()
        invariant
            j <= chars@.len(),
            chars@ == value@,
            text@ == seq!['"'] + escaped(chars@.subrange(0, j as int)),
        decreases chars@.len() - j,
    {
        let c = chars[j];
        if c == '\\' {
            push_char(&mut text, '\\');
            push_char(&mut text, '\\');
        } else if c == '"' {
            push_char(&mut text, '\\');
            push_char(&mut text, '"');
        } else {
            push_char(&mut text, c);
        }
        proof {
            assert(chars@.subrange(0, j + 1).drop_last() =~= chars@.subrange(0, j as int));
            assert(text@ =~= seq!['"'] + escaped(chars@.subrange(0, j + 1)));
        }
        j = j + 1;
    }
    push_char(&mut text, '"');
    proof {
        assert(chars@.subrange(0, j as int) =~= value@);
    }
    text
}

fn render_string_array(values: &Vec<String>) -> (text: String)
    ensures
        text@ == rendered_array(values.deep_view()),
{
    let ghost all = values.deep_view();
    let mut items = String::new();
    let mut i: usize = 0;
    while i < values.len()
        invariant
            i <= values@.len(),
            all == values.deep_view(),
            items@ == rendered_items(all.take(i as int)),
        decreases values@.len() - i,
    {
        if i > 0 {
            items.append(", ");
        }
        let rendered = render_toml_string_with_quote(values[i].as_str(), '"');
        items.append(rendered.as_str());
        proof {
            assert(all.take(i + 1).drop_last() =~= all.take(i as int));
            assert(all.take(i + 1).last() == values@[i as int]@);
            if i == 0 {
                assert(all.take(1)[0] == values@[0]@);
            }
        }
        i = i + 1;
    }
    proof {
        assert(all.take(i as int) =~= all);
    }
    let mut text = String::from_str("[");
    text.append(items.as_str());
    text.append("]");
    text
}

/// Whether the text has a `\r\n` line break.
pub open spec fn has_crlf(s: Seq<char>) -> bool {
    exists|i: int| 0 <= i < s.len() - 1 && s[i] == '\r' && #[trigger] s[i + 1] == '\n'
}

/// The line break the source already uses: `\r\n` if it has one.
pub open spec fn newline_of(s: Seq<char>) -> Seq<char> {
    if has_crlf(s) { "\r\n"@ } else { "\n"@ }
}

fn newline_for(s: &Vec<char>) -> (newline: &'static str)
    ensures
        newline@ == newline_of(s@),
{
    let mut i: usize = 0;
    while s.len() > 1 && i < s.len() - 1
        invariant
            forall|k: int| 0 <= k < i && k < s@.len() - 1 ==> !(s@[k] == '\r' && #[trigger] s@[k + 1] == '\n'),
        decreases s@.len() - i,
    {
        if s[i] == '\r' && s[i + 1] == '\n' {
            return "\r\n";
        }
        i = i + 1;
    }
    "\n"
}

/// A replacement of the characters `start..end` of the source.
#[derive(Debug)]
pub struct Patch {
    pub start: usize,
    pub end: usize,
    pub replacement: String,
}

pub struct PatchSpec {
    pub start: int,
    pub end: int,
    pub replacement: Seq<char>,
}

pub open spec fn patch_view(patch: Patch) -> PatchSpec {
    PatchSpec { start: patch.start as int, end: patch.end as int, replacement: patch.replacement@ }
}

pub open spec fn patches_view(patches: Seq<Patch>) -> Seq<PatchSpec> {
    patches.map_values(|p: Patch| patch_view(p))
}

/// What goes before a section appended at the end: a line break unless the
/// source is empty or already ends with one.
pub open spec fn append_prefix(s: Seq<char>) -> Seq<char> {
    if s.len() == 0 || s.last() == '\n' { Seq::empty() } else { newline_of(s) }
}

fn append_prefix_of(s: &Vec<char>) -> (prefix: &'static str)
    ensures
        prefix@ == append_prefix(s@),
{
    let newline = newline_for(s);
    if s.len() == 0 || s[s.len() - 1] == '\n' {
        proof {
            reveal_strlit("");
        }
        ""
    } else {
        newline
    }
}

/// The text of a new `[build.profiles.<name>]` section.
pub open spec fn profile_text(s: Seq<char>, name: Seq<char>, included: Seq<Seq<char>>, exclude: Seq<Seq<char>>) -> Seq<char> {
    let newline = newline_of(s);
    let head = append_prefix(s) + "[build.profiles."@ + name + "]"@ + newline;
    let with_include = if included.len() > 0 { head + "include_tags = "@ + rendered_array(included) + newline } else { head };
    if exclude.len() > 0 { with_include + "exclude_tags = "@ + rendered_array(exclude) + newline } else { with_include }
}

fn append_profile(s: &Vec<char>, name: &str, include_tags: &Vec<String>, exclude_tags: &Vec<String>) -> (patch: Patch)
    ensures
        patch_view(patch) == (PatchSpec {
            start: s@.len() as int,
            end: s@.len() as int,
            replacement: profile_text(s@, name@, include_tags.deep_view(), exclude_tags.deep_view()),
        }),
{
    let newline = newline_for(s);
    let mut replacement = String::from_str(append_prefix_of(s));
    replacement.append("[build.profiles.");
    replacement.append(name);
    replacement.append("]");
    replacement.append(newline);
    if include_tags.len() > 0 {
        replacement.append("include_tags = ");
        let rendered = render_string_array(include_tags);
        replacement.append(rendered.as_str());
        replacement.append(newline);
    }
    if exclude_tags.len() > 0 {
        replacement.append("exclude_tags = ");
        let rendered = render_string_array(exclude_tags);
        replacement.append(rendered.as_str());
        replacement.append(newline);
    }
    Patch { start: s.len(), end: s.len(), replacement }
}

pub open spec fn kind_text(kind: PublishTargetKind) -> Seq<char> {
    match kind {
        PublishTargetKind::CSharp => "csharp"@,
        PublishTargetKind::Binary => "binary"@,
    }
}

/// The text of a new `[[publish.targets]]` entry.
pub open spec fn target_text(s: Seq<char>, kind: PublishTargetKind, path: Seq<char>) -> Seq<char> {
    let newline = newline_of(s);
    append_prefix(s) + "[[publish.targets]]"@ + newline + "kind = \""@ + kind_text(kind) + "\""@ + newline
        + "path = "@ + rendered_string(path, '"') + newline
}

fn append_publish_target(s: &Vec<char>, kind: PublishTargetKind, path: &str) -> (patch: Patch)
    ensures
        patch_view(patch) == (PatchSpec { start: s@.len() as int, end: s@.len() as int, replacement: target_text(s@, kind, path@) }),
{
    let newline = newline_for(s);
    let mut replacement = String::from_str(append_prefix_of(s));
    replacement.append("[[publish.targets]]");
    replacement.append(newline);
    replacement.append("kind = \"");
    replacement.append(match kind {
        PublishTargetKind::CSharp => "csharp",
        PublishTargetKind::Binary => "binary",
    });
    replacement.append("\"");
    replacement.append(newline);
    replacement.append("path = ");
    let rendered = render_toml_string_with_quote(path, '"');
    replacement.append(rendered.as_str());
    replacement.append(newline);
    Patch { start: s.len(), end: s.len(), replacement }
}

/// The patch that rewrites the string value `s[vs..ve]` to `desired` in
/// the same quote style, or `None` when the value is not a string literal.
pub open spec fn string_property_patch(s: Seq<char>, vs: int, ve: int, desired: Seq<char>) -> Option<PatchSpec> {
    let ts = skip_space(s, vs, ve);
    let te = trim_end_at(s, ts, ve);
    if ts < te && (s[ts] == '"' || s[ts] == '\'') {
        Some(PatchSpec { start: ts, end: te, replacement: rendered_string(desired, s[ts]) })
    } else {
        None
    }
}

fn update_string_property(s: &Vec<char>, vs: usize, ve: usize, desired: &str) -> (patch: Option<Patch>)
    requires
        vs <= ve <= s@.len(),
    ensures
        match patch {
            Some(p) => string_property_patch(s@, vs as int, ve as int, desired@) == Some(patch_view(p)),
            None => string_property_patch(s@, vs as int, ve as int, desired@) is None,
        },
{
    let ts = skip_space_at(s, vs, ve);
    let te = trim_end_from(s, ts, ve);
    if ts < te && (s[ts] == '"' || s[ts] == '\'') {
        Some(Patch { start: ts, end: te, replacement: render_toml_string_with_quote(desired, s[ts]) })
    } else {
        None
    }
}

/// Patches in `(start, end)` order, equal keys keeping their order.
pub open spec fn patch_before(a: PatchSpec, b: PatchSpec) -> bool {
    a.start < b.start || (a.start == b.start && a.end <= b.end)
}

/// Insert `p` after the patches that do not come after it.
pub open spec fn insert_patch(sorted: Seq<PatchSpec>, p: PatchSpec) -> Seq<PatchSpec>
    decreases sorted.len(),
{
    if sorted.len() == 0 {
        seq![p]
    } else if patch_before(sorted.last(), p) {
        sorted.push(p)
    } else {
        insert_patch(sorted.drop_last(), p).push(sorted.last())
    }
}

/// The stable sort of patches by `(start, end)`.
pub open spec fn sort_patches(patches: Seq<PatchSpec>) -> Seq<PatchSpec>
    decreases patches.len(),
{
    if patches.len() == 0 {
        Seq::empty()
    } else {
        insert_patch(sort_patches(patches.drop_last()), patches.last())
    }
}

/// Apply sorted patches from the last: each must lie within the source and
/// end before the start of the patch applied after it.
pub open spec fn apply_sorted(text: Seq<char>, n: int, sorted: Seq<PatchSpec>, bound: int) -> Option<Seq<char>>
    decreases sorted.len(),
{
    if sorted.len() == 0 {
        Some(text)
    } else {
        let p = sorted.last();
        if p.start > p.end || p.end > n || p.end > bound || p.start < 0 {
            None
        } else {
            apply_sorted(text.subrange(0, p.start) + p.replacement + text.subrange(p.end, text.len() as int), n, sorted.drop_last(), p.start)
        }
    }
}

/// The source with every patch applied, or `None` when patches overlap or
/// leave the source.
pub open spec fn applied(s: Seq<char>, patches: Seq<PatchSpec>) -> Option<Seq<char>> {
    apply_sorted(s, s.len() as int, sort_patches(patches), s.len() as int)
}

fn insert_patch_into(sorted: &mut Vec<Patch>, p: Patch)
    ensures
        patches_view(final(sorted)@) == insert_patch(patches_view(old(sorted)@), patch_view(p)),
    decreases old(sorted)@.len(),
{
    let n = sorted.len();
    if n == 0 {
        sorted.push(p);
        proof {
            assert(patches_view(sorted@) =~= seq![patch_view(p)]);
        }
        return;
    }
    let before = sorted[n - 1].start < p.start || (sorted[n - 1].start == p.start && sorted[n - 1].end <= p.end);
    let ghost old_view = patches_view(sorted@);
    proof {
        assert(old_view.last() == patch_view(sorted@[n - 1]));
    }
    if before {
        sorted.push(p);
        proof {
            assert(patches_view(sorted@) =~= old_view.push(patch_view(p)));
        }
    } else {
        let last = sorted.pop().unwrap();
        proof {
            assert(patches_view(sorted@) =~= old_view.drop_last());
        }
        insert_patch_into(sorted, p);
        let ghost mid = patches_view(sorted@);
        sorted.push(last);
        proof {
            assert(patches_view(sorted@) =~= mid.push(patch_view(last)));
        }
    }
}

fn apply_patches(s: &Vec<char>, patches: Vec<Patch>) -> (result: Option<Vec<char>>)
    ensures
        match result {
            Some(text) => applied(s@, patches_view(patches@)) == Some(text@),
            None => applied(s@, patches_view(patches@)) is None,
        },
{
    let ghost all = patches_view(patches@);
    let n = patches.len();
    let mut sorted: Vec<Patch> = Vec::new();
    let mut rest = patches;
    let mut i: usize = 0;
    proof {
        assert(patches_view(rest@) =~= all.skip(0));
        assert(all.take(0) =~= Seq::<PatchSpec>::empty());
        assert(patches_view(sorted@) =~= Seq::<PatchSpec>::empty());
    }
    while i < n
        invariant
            i <= n,
            n == all.len(),
            all == patches_view(patches@),
            rest@.len() == n - i,
            patches_view(rest@) == all.skip(i as int),
            patches_view(sorted@) == sort_patches(all.take(i as int)),
        decreases n - i,
    {
        let ghost old_rest = rest@;
        proof {
            assert(patches_view(rest@)[0] == patch_view(rest@[0]));
        }
        let p = rest.remove(0);
        proof {
            assert(rest@ =~= old_rest.drop_first());
            assert forall|j: int| 0 <= j < rest@.len() implies #[trigger] patches_view(rest@)[j] == all.skip(i + 1)[j] by {
                assert(patches_view(rest@)[j] == patch_view(old_rest[j + 1]));
                assert(patches_view(old_rest)[j + 1] == all.skip(i as int)[j + 1]);
            }
            assert(patches_view(rest@) =~= all.skip(i + 1));
            assert(all.take(i + 1).drop_last() =~= all.take(i as int));
            assert(all.take(i + 1).last() == all[i as int]);
        }
        insert_patch_into(&mut sorted, p);
        i = i + 1;
    }
    proof {
        assert(all.take(n as int) =~= all);
    }
    let ghost order = patches_view(sorted@);
    let total = s.len();
    let empty: Vec<char> = Vec::new();
    let mut text = splice_chars(s, 0, 0, &empty);
    proof {
        assert(text@ =~= s@);
        assert(order.take(order.len() as int) =~= order);
    }
    let mut bound = total;
    let mut k = sorted.len();
    while k > 0
        invariant
            k <= sorted@.len(),
            order == patches_view(sorted@),
            all == patches_view(patches@),
            total == s@.len(),
            bound <= text@.len(),
            bound <= total,
            applied(s@, all) == apply_sorted(text@, total as int, order.take(k as int), bound as int),
        decreases k,
    {
        let p = &sorted[k - 1];
        proof {
            assert(order.take(k as int).last() == patch_view(*p));
            assert(order.take(k as int).drop_last() =~= order.take(k - 1));
        }
        if p.start > p.end || p.end > total || p.end > bound {
            proof {
                let q = order.take(k as int).last();
                assert(q.start > q.end || q.end > total || q.end > bound);
                assert(apply_sorted(text@, total as int, order.take(k as int), bound as int) is None);
            }
            return None;
        }
        let replacement = chars_of(p.replacement.as_str());
        text = splice_chars(&text, p.start, p.end, &replacement);
        bound = p.start;
        k = k - 1;
    }
    proof {
        assert(order.take(0) =~= Seq::<PatchSpec>::empty());
    }
    Some(text)
}

/// One entry of a single-line or multi-line string array: its segment
/// between commas, its trimmed token, and the token's string value.
#[derive(Debug)]
pub struct ArrayEntry {
    pub start: usize,
    pub end: usize,
    pub token_start: usize,
    pub token_end: usize,
    pub value: String,
}

pub struct EntrySpec {
    pub start: int,
    pub end: int,
    pub token_start: int,
    pub token_end: int,
    pub value: Seq<char>,
}

pub open spec fn entry_view(e: ArrayEntry) -> EntrySpec {
    EntrySpec {
        start: e.start as int,
        end: e.end as int,
        token_start: e.token_start as int,
        token_end: e.token_end as int,
        value: e.value@,
    }
}

pub open spec fn entries_view(entries: Seq<ArrayEntry>) -> Seq<EntrySpec> {
    entries.map_values(|e: ArrayEntry| entry_view(e))
}

/// The entry in the segment `s[a..b]`: none when its code is blank, else
/// its token must be a TOML string.
pub open spec fn entry_at(s: Seq<char>, a: int, b: int) -> Result<Option<EntrySpec>, Seq<char>> {
    let c = comment_start(s, a, b, Quote::Outside);
    let ts = skip_space(s, a, c);
    let te = trim_end_at(s, ts, c);
    if ts >= te {
        Ok(None)
    } else {
        match toml_document_entry("value = "@ + s.subrange(ts, te), "value"@) {
            Ok(TomlEntryView::Text(v)) => Ok(Some(EntrySpec { start: a, end: b, token_start: ts, token_end: te, value: v })),
            _ => Err("profile array contains a non-string entry"@),
        }
    }
}

pub open spec fn entries_finish(s: Seq<char>, last: int, seg: int, acc: Seq<EntrySpec>) -> Result<Seq<EntrySpec>, Seq<char>> {
    match entry_at(s, seg, last) {
        Err(e) => Err(e),
        Ok(None) => Ok(acc),
        Ok(Some(x)) => Ok(acc.push(x)),
    }
}

/// Position of the first `\n` in `s[i..to]`, or `to`.
pub open spec fn line_end_in(s: Seq<char>, i: int, to: int) -> int
    decreases to - i,
{
    if i < 0 || i >= to || s[i] == '\n' { if i < 0 { to } else { i } } else { line_end_in(s, i + 1, to) }
}

/// The comma-separated entries of the array body ending before `last`,
/// scanned from `i` with the current segment starting at `seg`.
pub open spec fn entries_scan(s: Seq<char>, last: int, seg: int, i: int, quote: Quote, acc: Seq<EntrySpec>) -> Result<Seq<EntrySpec>, Seq<char>>
    decreases last - i,
{
    if i < seg || i >= last {
        entries_finish(s, last, seg, acc)
    } else {
        match quote {
            Quote::Double => {
                if s[i] == '\\' {
                    if i + 2 >= last { entries_finish(s, last, seg, acc) } else { entries_scan(s, last, seg, i + 2, Quote::Double, acc) }
                } else {
                    entries_scan(s, last, seg, i + 1, if s[i] == '"' { Quote::Outside } else { Quote::Double }, acc)
                }
            },
            Quote::Single => entries_scan(s, last, seg, i + 1, if s[i] == '\'' { Quote::Outside } else { Quote::Single }, acc),
            Quote::Outside => {
                if s[i] == '"' {
                    entries_scan(s, last, seg, i + 1, Quote::Double, acc)
                } else if s[i] == '\'' {
                    entries_scan(s, last, seg, i + 1, Quote::Single, acc)
                } else if s[i] == '#' {
                    let j = line_end_in(s, i, last);
                    if j <= i || j >= last { entries_finish(s, last, seg, acc) } else { entries_scan(s, last, seg, j, Quote::Outside, acc) }
                } else if s[i] == ',' {
                    match entry_at(s, seg, i) {
                        Err(e) => Err(e),
                        Ok(None) => entries_scan(s, last, i + 1, i + 1, Quote::Outside, acc),
                        Ok(Some(x)) => entries_scan(s, last, i + 1, i + 1, Quote::Outside, acc.push(x)),
                    }
                } else {
                    entries_scan(s, last, seg, i + 1, Quote::Outside, acc)
                }
            },
        }
    }
}

/// The entries of the array `s[start..end]`.
pub open spec fn array_entries(s: Seq<char>, start: int, end: int) -> Result<Seq<EntrySpec>, Seq<char>> {
    if !(0 <= start < end <= s.len() && s[start] == '[' && s[end - 1] == ']') {
        Err("string array delimiters could not be located safely"@)
    } else {
        entries_scan(s, end - 1, start + 1, start + 1, Quote::Outside, Seq::empty())
    }
}

proof fn lemma_line_end_in(s: Seq<char>, i: int, to: int)
    requires
        0 <= i <= to,
    ensures
        i <= line_end_in(s, i, to) <= to,
        line_end_in(s, i, to) < to ==> s[line_end_in(s, i, to)] == '\n',
    decreases to - i,
{
    if i < to && s[i] != '\n' {
        lemma_line_end_in(s, i + 1, to);
    }
}

fn entry_in(s: &Vec<char>, a: usize, b: usize) -> (result: Result<Option<ArrayEntry>, &'static str>)
    requires
        a <= b <= s@.len(),
    ensures
        match result {
            Ok(Some(e)) => entry_at(s@, a as int, b as int) == Ok::<Option<EntrySpec>, Seq<char>>(Some(entry_view(e)))
                && a <= e.token_start < e.token_end <= b && e.start == a && e.end == b,
            Ok(None) => entry_at(s@, a as int, b as int) == Ok::<Option<EntrySpec>, Seq<char>>(None),
            Err(m) => entry_at(s@, a as int, b as int) == Err::<Option<EntrySpec>, Seq<char>>(m@),
        },
{
    let c = comment_start_at(s, a, b);
    let ts = skip_space_at(s, a, c);
    let te = trim_end_from(s, ts, c);
    if ts >= te {
        return Ok(None);
    }
    let token = string_from_range(s, ts, te);
    let mut document = String::from_str("value = ");
    document.append(token.as_str());
    match read_toml_entry(document.as_str(), "value") {
        Ok(TomlEntry::Text(value)) => Ok(Some(ArrayEntry { start: a, end: b, token_start: ts, token_end: te, value })),
        _ => Err("profile array contains a non-string entry"),
    }
}

fn array_entries_in(s: &Vec<char>, start: usize, end: usize) -> (result: Result<Vec<ArrayEntry>, &'static str>)
    requires
        start <= end <= s@.len(),
    ensures
        match result {
            Ok(entries) => array_entries(s@, start as int, end as int) == Ok::<Seq<EntrySpec>, Seq<char>>(entries_view(entries@))
                && forall|k: int| 0 <= k < entries@.len() ==> start < #[trigger] entries@[k].start && entries@[k].start <= entries@[k].token_start
                    && entries@[k].token_start < entries@[k].token_end && entries@[k].token_end <= entries@[k].end && entries@[k].end < end,
            Err(m) => array_entries(s@, start as int, end as int) == Err::<Seq<EntrySpec>, Seq<char>>(m@),
        },
{
    if !(start < end && s[start] == '[' && s[end - 1] == ']') {
        return Err("string array delimiters could not be located safely");
    }
    let last = end - 1;
    let mut entries: Vec<ArrayEntry> = Vec::new();
    let mut seg = start + 1;
    let mut i = seg;
    let mut quote = Quote::Outside;
    proof {
        assert(entries_view(entries@) =~= Seq::<EntrySpec>::empty());
    }
    while i < last
        invariant
            start < seg <= i,
            seg <= last,
            last == end - 1,
            end <= s@.len(),
            array_entries(s@, start as int, end as int) == entries_scan(s@, last as int, seg as int, i as int, quote, entries_view(entries@)),
            forall|k: int| 0 <= k < entries@.len() ==> start < #[trigger] entries@[k].start && entries@[k].start <= entries@[k].token_start
                && entries@[k].token_start < entries@[k].token_end && entries@[k].token_end <= entries@[k].end && entries@[k].end < seg,
        decreases last - i,
    {
        let c = s[i];
        match quote {
            Quote::Double => {
                if c == '\\' {
                    if last - i <= 2 {
                        i = last;
                    } else {
                        i = i + 2;
                    }
                } else {
                    if c == '"' {
                        quote = Quote::Outside;
                    }
                    i = i + 1;
                }
            },
            Quote::Single => {
                if c == '\'' {
                    quote = Quote::Outside;
                }
                i = i + 1;
            },
            Quote::Outside => {
                if c == '"' {
                    quote = Quote::Double;
                    i = i + 1;
                } else if c == '\'' {
                    quote = Quote::Single;
                    i = i + 1;
                } else if c == '#' {
                    proof {
                        lemma_line_end_in(s@, i as int, last as int);
                    }
                    let mut j = i;
                    while j < last && s[j] != '\n'
                        invariant
                            i <= j <= last,
                            last < s@.len(),
                            line_end_in(s@, i as int, last as int) == line_end_in(s@, j as int, last as int),
                        decreases last - j,
                    {
                        j = j + 1;
                    }
                    if j <= i || j >= last {
                        i = last;
                    } else {
                        i = j;
                    }
                } else if c == ',' {
                    match entry_in(s, seg, i) {
                        Err(m) => {
                            return Err(m);
                        },
                        Ok(None) => {},
                        Ok(Some(x)) => {
                            let ghost before = entries_view(entries@);
                            entries.push(x);
                            proof {
                                assert(entries_view(entries@) =~= before.push(entry_view(x)));
                            }
                        },
                    }
                    seg = i + 1;
                    i = i + 1;
                } else {
                    i = i + 1;
                }
            },
        }
    }
    match entry_in(s, seg, last) {
        Err(m) => Err(m),
        Ok(None) => Ok(entries),
        Ok(Some(x)) => {
            let ghost before = entries_view(entries@);
            entries.push(x);
            proof {
                assert(entries_view(entries@) =~= before.push(entry_view(x)));
            }
            Ok(entries)
        },
    }
}

/// A string literal inside a commented array, with its quote character.
#[derive(Debug, Clone, Copy, PartialEq, Eq, Structural)]
pub struct StringToken {
    pub start: usize,
    pub end: usize,
    pub quote: char,
}

pub struct TokenRange {
    pub start: int,
    pub end: int,
    pub quote: char,
}

pub open spec fn string_token_view(t: StringToken) -> TokenRange {
    TokenRange { start: t.start as int, end: t.end as int, quote: t.quote }
}

pub open spec fn string_tokens_view(ts: Seq<StringToken>) -> Seq<TokenRange> {
    ts.map_values(|t: StringToken| string_token_view(t))
}

/// Just past the quote that closes a string literal scanned from `i`, or
/// `-1` when it does not close before `limit`.
pub open spec fn token_close(s: Seq<char>, limit: int, i: int, quote: char) -> int
    decreases limit - i,
{
    if i < 0 || i >= limit {
        -1
    } else if quote == '"' && s[i] == '\\' {
        if i + 2 >= limit { -1 } else { token_close(s, limit, i + 2, quote) }
    } else if s[i] == quote {
        i + 1
    } else {
        token_close(s, limit, i + 1, quote)
    }
}

/// The string literals of an array body before `limit`, skipping comments.
pub open spec fn tokens_scan(s: Seq<char>, limit: int, i: int, in_comment: bool, acc: Seq<TokenRange>) -> Result<Seq<TokenRange>, Seq<char>>
    decreases limit - i,
{
    if i < 0 || i >= limit {
        Ok(acc)
    } else if in_comment {
        tokens_scan(s, limit, i + 1, s[i] != '\n', acc)
    } else if s[i] == '#' {
        tokens_scan(s, limit, i + 1, true, acc)
    } else if s[i] != '"' && s[i] != '\'' {
        tokens_scan(s, limit, i + 1, false, acc)
    } else if i + 2 < limit && s[i + 1] == s[i] && s[i + 2] == s[i] {
        Err("multiline strings are not supported as profile tag entries"@)
    } else {
        let e = token_close(s, limit, i + 1, s[i]);
        if e <= i || e > limit {
            Err("profile string entry could not be located safely"@)
        } else {
            tokens_scan(s, limit, e, false, acc.push(TokenRange { start: i, end: e, quote: s[i] }))
        }
    }
}

/// The positions of the commas of `s[i..end]` outside strings and comments.
pub open spec fn commas_scan(s: Seq<char>, end: int, i: int, quote: Quote, in_comment: bool, acc: Seq<int>) -> Seq<int>
    decreases end - i,
{
    if i < 0 || i >= end {
        acc
    } else if in_comment {
        commas_scan(s, end, i + 1, quote, s[i] != '\n', acc)
    } else {
        match quote {
            Quote::Double => {
                if s[i] == '\\' {
                    if i + 2 >= end { acc } else { commas_scan(s, end, i + 2, Quote::Double, false, acc) }
                } else {
                    commas_scan(s, end, i + 1, if s[i] == '"' { Quote::Outside } else { Quote::Double }, false, acc)
                }
            },
            Quote::Single => commas_scan(s, end, i + 1, if s[i] == '\'' { Quote::Outside } else { Quote::Single }, false, acc),
            Quote::Outside => {
                if s[i] == '#' {
                    commas_scan(s, end, i + 1, Quote::Outside, true, acc)
                } else if s[i] == '"' {
                    commas_scan(s, end, i + 1, Quote::Double, false, acc)
                } else if s[i] == '\'' {
                    commas_scan(s, end, i + 1, Quote::Single, false, acc)
                } else if s[i] == ',' {
                    commas_scan(s, end, i + 1, Quote::Outside, false, acc.push(i))
                } else {
                    commas_scan(s, end, i + 1, Quote::Outside, false, acc)
                }
            },
        }
    }
}

fn token_close_at(s: &Vec<char>, limit: usize, from: usize, quote: char) -> (end: Option<usize>)
    requires
        from <= limit <= s@.len(),
    ensures
        match end {
            Some(e) => token_close(s@, limit as int, from as int, quote) == e as int && from < e <= limit,
            None => token_close(s@, limit as int, from as int, quote) == -1,
        },
{
    let mut i = from;
    while i < limit
        invariant
            from <= i <= limit <= s@.len(),
            token_close(s@, limit as int, from as int, quote) == token_close(s@, limit as int, i as int, quote),
        decreases limit - i,
    {
        if quote == '"' && s[i] == '\\' {
            if limit - i <= 2 {
                return None;
            }
            i = i + 2;
        } else if s[i] == quote {
            return Some(i + 1);
        } else {
            i = i + 1;
        }
    }
    None
}

#[verifier::spinoff_prover]
#[verifier::rlimit(40)]
fn string_tokens_in(s: &Vec<char>, start: usize, end: usize) -> (result: Result<Vec<StringToken>, &'static str>)
    requires
        start + 2 <= end <= s@.len(),
    ensures
        match result {
            Ok(tokens) => tokens_scan(s@, end - 1, start + 1, false, Seq::empty()) == Ok::<Seq<TokenRange>, Seq<char>>(string_tokens_view(tokens@))
                && forall|k: int| 0 <= k < tokens@.len() ==> start < #[trigger] tokens@[k].start < tokens@[k].end <= end - 1,
            Err(m) => tokens_scan(s@, end - 1, start + 1, false, Seq::empty()) == Err::<Seq<TokenRange>, Seq<char>>(m@),
        },
{
    let limit = end - 1;
    let mut tokens: Vec<StringToken> = Vec::new();
    let mut i = start + 1;
    let mut in_comment = false;
    proof {
        assert(string_tokens_view(tokens@) =~= Seq::<TokenRange>::empty());
    }
    while i < limit
        invariant
            start < i <= limit,
            limit == end - 1,
            end <= s@.len(),
            tokens_scan(s@, limit as int, start + 1, false, Seq::empty())
                == tokens_scan(s@, limit as int, i as int, in_comment, string_tokens_view(tokens@)),
            forall|k: int| 0 <= k < tokens@.len() ==> start < #[trigger] tokens@[k].start < tokens@[k].end <= i,
        decreases limit - i,
    {
        let c = s[i];
        if in_comment {
            in_comment = c != '\n';
            i = i + 1;
        } else if c == '#' {
            in_comment = true;
            i = i + 1;
        } else if c != '"' && c != '\'' {
            i = i + 1;
        } else {
            if limit - i > 2 && s[i + 1] == c && s[i + 2] == c {
                return Err("multiline strings are not supported as profile tag entries");
            }
            match token_close_at(s, limit, i + 1, c) {
                None => {
                    return Err("profile string entry could not be located safely");
                },
                Some(e) => {
                    let ghost before = string_tokens_view(tokens@);
                    let ghost old_tokens = tokens@;
                    tokens.push(StringToken { start: i, end: e, quote: c });
                    proof {
                        assert(string_tokens_view(tokens@) =~= before.push(TokenRange { start: i as int, end: e as int, quote: c }));
                        assert forall|k: int| 0 <= k < tokens@.len() implies start < #[trigger] tokens@[k].start < tokens@[k].end <= e by {
                            if k < old_tokens.len() {
                                assert(tokens@[k] == old_tokens[k]);
                            }
                        }
                    }
                    i = e;
                },
            }
        }
    }
    Ok(tokens)
}

fn commas_in(s: &Vec<char>, from: usize, end: usize) -> (commas: Vec<usize>)
    requires
        from <= end <= s@.len(),
    ensures
        commas_scan(s@, end as int, from as int, Quote::Outside, false, Seq::empty()) == commas@.map_values(|c: usize| c as int),
        forall|k: int| 0 <= k < commas@.len() ==> from <= #[trigger] commas@[k] < end && s@[commas@[k] as int] == ',',
        forall|k: int, m: int| 0 <= k < m < commas@.len() ==> #[trigger] commas@[k] < #[trigger] commas@[m],
{
    let mut commas: Vec<usize> = Vec::new();
    let mut i = from;
    let mut quote = Quote::Outside;
    let mut in_comment = false;
    proof {
        assert(commas@.map_values(|c: usize| c as int) =~= Seq::<int>::empty());
    }
    while i < end
        invariant
            from <= i <= end,
            end <= s@.len(),
            commas_scan(s@, end as int, from as int, Quote::Outside, false, Seq::empty())
                == commas_scan(s@, end as int, i as int, quote, in_comment, commas@.map_values(|c: usize| c as int)),
            forall|k: int| 0 <= k < commas@.len() ==> from <= #[trigger] commas@[k] < i && s@[commas@[k] as int] == ',',
            forall|k: int, m: int| 0 <= k < m < commas@.len() ==> #[trigger] commas@[k] < #[trigger] commas@[m],
        decreases end - i,
    {
        let c = s[i];
        if in_comment {
            in_comment = c != '\n';
            i = i + 1;
        } else {
            match quote {
                Quote::Double => {
                    if c == '\\' {
                        if end - i <= 2 {
                            i = end;
                        } else {
                            i = i + 2;
                        }
                    } else {
                        if c == '"' {
                            quote = Quote::Outside;
                        }
                        i = i + 1;
                    }
                },
                Quote::Single => {
                    if c == '\'' {
                        quote = Quote::Outside;
                    }
                    i = i + 1;
                },
                Quote::Outside => {
                    if c == '#' {
                        in_comment = true;
                    } else if c == '"' {
                        quote = Quote::Double;
                    } else if c == '\'' {
                        quote = Quote::Single;
                    } else if c == ',' {
                        let ghost before = commas@.map_values(|c: usize| c as int);
                        commas.push(i);
                        proof {
                            assert(commas@.map_values(|c: usize| c as int) =~= before.push(i as int));
                        }
                    }
                    i = i + 1;
                },
            }
        }
    }
    commas
}

/// The strings of a TOML array literal, read as `value = <raw>`.
pub open spec fn array_values(raw: Seq<char>) -> Result<Seq<Seq<char>>, Seq<char>> {
    match toml_document_entry("value = "@ + raw, "value"@) {
        Err(_) => Err("profile array could not be parsed as a string array"@),
        Ok(TomlEntryView::Array(items)) => {
            if forall|k: int| 0 <= k < items.len() ==> #[trigger] items[k] is Some {
                Ok(Seq::new(items.len(), |k: int| items[k]->0))
            } else {
                Err("profile array contains a non-string entry"@)
            }
        },
        Ok(_) => Err("profile property is not a TOML array"@),
    }
}

fn array_values_of(raw: &str) -> (result: Result<Vec<String>, &'static str>)
    ensures
        match result {
            Ok(values) => array_values(raw@) == Ok::<Seq<Seq<char>>, Seq<char>>(values.deep_view()),
            Err(m) => array_values(raw@) == Err::<Seq<Seq<char>>, Seq<char>>(m@),
        },
{
    let mut document = String::from_str("value = ");
    document.append(raw);
    match read_toml_entry(document.as_str(), "value") {
        Err(_) => Err("profile array could not be parsed as a string array"),
        Ok(TomlEntry::Array(items)) => {
            let ghost view = items.deep_view();
            let mut values: Vec<String> = Vec::new();
            let mut k: usize = 0;
            proof {
                assert(values.deep_view() =~= Seq::new(0 as nat, |m: int| view[m]->0));
            }
            while k < items.len()
                invariant
                    k <= items@.len(),
                    view == items.deep_view(),
                    toml_document_entry("value = "@ + raw@, "value"@) == Ok::<TomlEntryView, Seq<char>>(TomlEntryView::Array(view)),
                    forall|m: int| 0 <= m < k ==> #[trigger] view[m] is Some,
                    values.deep_view() == Seq::new(k as nat, |m: int| view[m]->0),
                decreases items@.len() - k,
            {
                match &items[k] {
                    Some(text) => {
                        let ghost before = values.deep_view();
                        let copy = text.clone();
                        values.push(copy);
                        proof {
                            assert(view[k as int] == Some(text@));
                            assert(values.deep_view() =~= before.push(copy@));
                            assert forall|m: int| 0 <= m < k + 1 implies #[trigger] values.deep_view()[m] == view[m]->0 by {
                                if m < k {
                                    assert(before[m] == view[m]->0);
                                }
                            }
                            assert(values.deep_view() =~= Seq::new((k + 1) as nat, |m: int| view[m]->0));
                        }
                    },
                    None => {
                        proof {
                            assert(view[k as int] is None);
                        }
                        return Err("profile array contains a non-string entry");
                    },
                }
                k = k + 1;
            }
            Ok(values)
        },
        Ok(_) => Err("profile property is not a TOML array"),
    }
}

/// The first entry not yet used whose value is `value`, or the entry count.
pub open spec fn first_unused(entries: Seq<EntrySpec>, used: Seq<bool>, value: Seq<char>, j: int) -> int
    decreases entries.len() - j,
{
    if j < 0 || j >= entries.len() {
        entries.len() as int
    } else if !used[j] && entries[j].value == value {
        j
    } else {
        first_unused(entries, used, value, j + 1)
    }
}

/// An entry's segment with its token replaced by a basic string of `value`.
pub open spec fn retoken(s: Seq<char>, e: EntrySpec, value: Seq<char>) -> Seq<char> {
    s.subrange(e.start, e.token_start) + rendered_string(value, '"') + s.subrange(e.token_end, e.end)
}

/// The new entries, desired value by desired value: an unused existing entry
/// with that value keeps its text; else the entry at the same position, if
/// unused, keeps its surroundings with a new token; else a new entry.
pub open spec fn rendered_entries(s: Seq<char>, entries: Seq<EntrySpec>, desired: Seq<Seq<char>>, k: int, used: Seq<bool>) -> Seq<Seq<char>>
    decreases desired.len() - k,
{
    if k < 0 || k >= desired.len() {
        Seq::empty()
    } else {
        let j = first_unused(entries, used, desired[k], 0);
        if 0 <= j < entries.len() {
            seq![s.subrange(entries[j].start, entries[j].end)] + rendered_entries(s, entries, desired, k + 1, used.update(j, true))
        } else if k < entries.len() && !used[k] {
            seq![retoken(s, entries[k], desired[k])] + rendered_entries(s, entries, desired, k + 1, used.update(k, true))
        } else {
            seq![" "@ + rendered_string(desired[k], '"')] + rendered_entries(s, entries, desired, k + 1, used)
        }
    }
}

pub open spec fn trimmed(t: Seq<char>) -> Seq<char> {
    let a = skip_space(t, 0, t.len() as int);
    t.subrange(a, trim_end_at(t, a, t.len() as int))
}

/// The items separated by `sep`.
pub open spec fn joined(items: Seq<Seq<char>>, sep: Seq<char>) -> Seq<char>
    decreases items.len(),
{
    if items.len() == 0 {
        Seq::empty()
    } else if items.len() == 1 {
        items[0]
    } else {
        joined(items.drop_last(), sep) + sep + items.last()
    }
}

/// Position of the last `\n` before `i`, or -1.
pub open spec fn last_newline_before(s: Seq<char>, i: int) -> int
    decreases i,
{
    if i <= 0 { -1 } else if s[i - 1] == '\n' { i - 1 } else { last_newline_before(s, i - 1) }
}

/// The indentation of the first entry's line, four spaces when there is none.
pub open spec fn entry_indent(s: Seq<char>, start: int, entries: Seq<EntrySpec>) -> Seq<char> {
    if entries.len() == 0 {
        "    "@
    } else {
        let t = entries[0].token_start;
        let p = last_newline_before(s, t);
        s.subrange(if p >= 0 { p + 1 } else { start }, t)
    }
}

/// The rewritten array: multi-line arrays keep one entry per line at the
/// first entry's indentation and their line break; others use `, `.
pub open spec fn array_text(s: Seq<char>, start: int, end: int, entries: Seq<EntrySpec>, rendered: Seq<Seq<char>>) -> Seq<char> {
    let raw = s.subrange(start, end);
    if raw.contains('\n') {
        let newline = if has_crlf(raw) { "\r\n"@ } else { "\n"@ };
        let indent = entry_indent(s, start, entries);
        "["@ + newline + joined(Seq::new(rendered.len(), |k: int| indent + trimmed(rendered[k])), ","@ + newline) + newline + "]"@
    } else {
        "["@ + joined(Seq::new(rendered.len(), |k: int| trimmed(rendered[k])), ", "@) + "]"@
    }
}

pub(crate) fn trim_text(text: &str) -> (out: String)
    ensures
        out@ == trimmed(text@),
{
    let chars = chars_of(text);
    let n = chars.len();
    let a = skip_space_at(&chars, 0, n);
    let b = trim_end_from(&chars, a, n);
    string_from_range(&chars, a, b)
}

pub(crate) fn contains_char(chars: &Vec<char>, c: char) -> (found: bool)
    ensures
        found == chars@.contains(c),
{
    let mut i: usize = 0;
    while i < chars.len()
        invariant
            i <= chars@.len(),
            forall|k: int| 0 <= k < i ==> chars@[k] != c,
        decreases chars@.len() - i,
    {
        if chars[i] == c {
            assert(chars@[i as int] == c);
            return true;
        }
        i = i + 1;
    }
    false
}

fn first_unused_at(entries: &Vec<ArrayEntry>, used: &Vec<bool>, value: &str) -> (j: usize)
    requires
        used@.len() == entries@.len(),
    ensures
        j as int == first_unused(entries_view(entries@), used@, value@, 0),
        j <= entries@.len(),
{
    let ghost ev = entries_view(entries@);
    let mut j: usize = 0;
    while j < entries.len()
        invariant
            j <= entries@.len(),
            used@.len() == entries@.len(),
            ev == entries_view(entries@),
            first_unused(ev, used@, value@, 0) == first_unused(ev, used@, value@, j as int),
        decreases entries@.len() - j,
    {
        proof {
            assert(ev[j as int] == entry_view(entries@[j as int]));
        }
        if !used[j] && str_eq(entries[j].value.as_str(), value) {
            return j;
        }
        j = j + 1;
    }
    j
}

fn render_entries(s: &Vec<char>, entries: &Vec<ArrayEntry>, desired: &Vec<String>) -> (rendered: Vec<String>)
    requires
        forall|k: int| 0 <= k < entries@.len() ==> #[trigger] entries@[k].start <= entries@[k].token_start
            && entries@[k].token_start <= entries@[k].token_end && entries@[k].token_end <= entries@[k].end && entries@[k].end <= s@.len(),
    ensures
        rendered.deep_view() == rendered_entries(s@, entries_view(entries@), desired.deep_view(), 0, Seq::new(entries@.len(), |j: int| false)),
{
    let ghost ev = entries_view(entries@);
    let ghost dv = desired.deep_view();
    let mut used: Vec<bool> = Vec::new();
    let mut u: usize = 0;
    while u < entries.len()
        invariant
            u <= entries@.len(),
            used@ == Seq::new(u as nat, |j: int| false),
        decreases entries@.len() - u,
    {
        used.push(false);
        proof {
            assert(used@ =~= Seq::new((u + 1) as nat, |j: int| false));
        }
        u = u + 1;
    }
    let mut rendered: Vec<String> = Vec::new();
    let mut k: usize = 0;
    proof {
        assert(rendered.deep_view() + rendered_entries(s@, ev, dv, 0, used@) =~= rendered_entries(s@, ev, dv, 0, used@));
    }
    let ghost initial = used@;
    while k < desired.len()
        invariant
            k <= desired@.len(),
            used@.len() == entries@.len(),
            ev == entries_view(entries@),
            dv == desired.deep_view(),
            forall|m: int| 0 <= m < entries@.len() ==> #[trigger] entries@[m].start <= entries@[m].token_start
                && entries@[m].token_start <= entries@[m].token_end && entries@[m].token_end <= entries@[m].end && entries@[m].end <= s@.len(),
            rendered_entries(s@, ev, dv, 0, initial) == rendered.deep_view() + rendered_entries(s@, ev, dv, k as int, used@),
        decreases desired@.len() - k,
    {
        let value = desired[k].as_str();
        let j = first_unused_at(entries, &used, value);
        let ghost before = rendered.deep_view();
        let ghost used_before = used@;
        let piece: String;
        if j < entries.len() {
            piece = string_from_range(s, entries[j].start, entries[j].end);
            used.set(j, true);
        } else if k < entries.len() && !used[k] {
            let e = &entries[k];
            let mut text = string_from_range(s, e.start, e.token_start);
            let token = render_toml_string_with_quote(value, '"');
            text.append(token.as_str());
            let tail = string_from_range(s, e.token_end, e.end);
            text.append(tail.as_str());
            piece = text;
            used.set(k, true);
        } else {
            let mut text = String::from_str(" ");
            let token = render_toml_string_with_quote(value, '"');
            text.append(token.as_str());
            piece = text;
        }
        rendered.push(piece);
        proof {
            assert(ev[j as int] == entry_view(entries@[j as int]) || j >= entries@.len());
            if k < entries@.len() {
                assert(ev[k as int] == entry_view(entries@[k as int]));
            }
            assert(dv[k as int] == value@);
            assert(rendered.deep_view() =~= before.push(piece@));
            assert(before + rendered_entries(s@, ev, dv, k as int, used_before)
                =~= before.push(piece@) + rendered_entries(s@, ev, dv, k + 1, used@));
        }
        k = k + 1;
    }
    proof {
        assert(rendered.deep_view() + rendered_entries(s@, ev, dv, k as int, used@) =~= rendered.deep_view());
    }
    rendered
}

fn join_texts(items: &Vec<String>, prefix: &str, sep: &str) -> (text: String)
    ensures
        text@ == joined(Seq::new(items@.len(), |k: int| prefix@ + trimmed(items@[k]@)), sep@),
{
    let ghost target = Seq::new(items@.len(), |k: int| prefix@ + trimmed(items@[k]@));
    let mut text = String::new();
    let mut i: usize = 0;
    while i < items.len()
        invariant
            i <= items@.len(),
            target == Seq::new(items@.len(), |k: int| prefix@ + trimmed(items@[k]@)),
            text@ == joined(target.take(i as int), sep@),
        decreases items@.len() - i,
    {
        if i > 0 {
            text.append(sep);
        }
        text.append(prefix);
        let t = trim_text(items[i].as_str());
        text.append(t.as_str());
        proof {
            assert(target.take(i + 1).drop_last() =~= target.take(i as int));
            assert(target.take(i + 1).last() == target[i as int]);
            if i == 0 {
                assert(target.take(1)[0] == target[0]);
            }
        }
        i = i + 1;
    }
    proof {
        assert(target.take(i as int) =~= target);
    }
    text
}

fn indent_of(s: &Vec<char>, start: usize, entries: &Vec<ArrayEntry>) -> (indent: String)
    requires
        start <= s@.len(),
        forall|k: int| 0 <= k < entries@.len() ==> start <= #[trigger] entries@[k].token_start <= s@.len(),
    ensures
        indent@ == entry_indent(s@, start as int, entries_view(entries@)),
{
    if entries.len() == 0 {
        return String::from_str("    ");
    }
    let t = entries[0].token_start;
    proof {
        assert(entries_view(entries@)[0] == entry_view(entries@[0]));
    }
    let mut i = t;
    while i > 0 && s[i - 1] != '\n'
        invariant
            i <= t <= s@.len(),
            last_newline_before(s@, t as int) == last_newline_before(s@, i as int),
        decreases i,
    {
        i = i - 1;
    }
    if i > 0 {
        string_from_range(s, i, t)
    } else {
        string_from_range(s, start, t)
    }
}

/// What an edit step gives: a value, a refusal with its message, or
/// `Undefined` where the edit would index past the text it rewrites.
pub enum Step<T> {
    Done(T),
    Refused(Seq<char>),
    Undefined,
}

/// Ranges in start order (insertion, equal starts keeping their order).
pub open spec fn insert_range(sorted: Seq<(int, int)>, r: (int, int)) -> Seq<(int, int)>
    decreases sorted.len(),
{
    if sorted.len() == 0 {
        seq![r]
    } else if sorted.last().0 <= r.0 {
        sorted.push(r)
    } else {
        insert_range(sorted.drop_last(), r).push(sorted.last())
    }
}

pub open spec fn sort_ranges(ranges: Seq<(int, int)>) -> Seq<(int, int)>
    decreases ranges.len(),
{
    if ranges.len() == 0 { Seq::empty() } else { insert_range(sort_ranges(ranges.drop_last()), ranges.last()) }
}

/// Delete the ranges (positions offset by `base`), the last first.
pub open spec fn delete_ranges(text: Seq<char>, ranges: Seq<(int, int)>, base: int) -> Option<Seq<char>>
    decreases ranges.len(),
{
    if ranges.len() == 0 {
        Some(text)
    } else {
        let x = ranges.last().0 - base;
        let y = ranges.last().1 - base;
        if 0 <= x <= y <= text.len() {
            delete_ranges(text.subrange(0, x) + text.subrange(y, text.len() as int), ranges.drop_last(), base)
        } else {
            None
        }
    }
}

/// Replace the first `n` tokens (positions offset by `base`) by `values`
/// in their quote style, the last first.
pub open spec fn replace_tokens(text: Seq<char>, tokens: Seq<TokenRange>, values: Seq<Seq<char>>, n: int, base: int) -> Option<Seq<char>>
    decreases n,
{
    if n <= 0 {
        Some(text)
    } else {
        let t = tokens[n - 1];
        let x = t.start - base;
        let y = t.end - base;
        if 0 <= x <= y <= text.len() {
            replace_tokens(text.subrange(0, x) + rendered_string(values[n - 1], t.quote) + text.subrange(y, text.len() as int), tokens, values, n - 1, base)
        } else {
            None
        }
    }
}

/// Whether a `,` comes in `raw[i..stop]` before a `#`, `\n` or `\r`.
pub open spec fn comma_before_break(raw: Seq<char>, i: int, stop: int) -> bool
    decreases stop - i,
{
    if i < 0 || i >= stop || raw[i] == '#' || raw[i] == '\n' || raw[i] == '\r' {
        false
    } else if raw[i] == ',' {
        true
    } else {
        comma_before_break(raw, i + 1, stop)
    }
}

/// Position of the last `c` in `t[..to]`, or -1.
pub open spec fn last_index_of(t: Seq<char>, c: char, to: int) -> int
    decreases to,
{
    if to <= 0 { -1 } else if t[to - 1] == c { to - 1 } else { last_index_of(t, c, to - 1) }
}

/// The new entries appended to a commented array, one per line at the
/// closing line's indentation plus two spaces.
pub open spec fn extension_text(indent: Seq<char>, values: Seq<Seq<char>>, newline: Seq<char>) -> Seq<char> {
    joined(Seq::new(values.len(), |k: int| indent + "  "@ + rendered_string(values[k], '"')), ","@ + newline)
}

/// The update of a commented array `s[start..end]` whose values are
/// `existing`: tokens are rewritten in place, extra tokens and their commas
/// removed, new values added before the closing line.
pub open spec fn commented_update(s: Seq<char>, start: int, end: int, existing: Seq<Seq<char>>, desired: Seq<Seq<char>>) -> Step<Seq<char>> {
    let raw = s.subrange(start, end);
    match tokens_scan(s, end - 1, start + 1, false, Seq::empty()) {
        Err(m) => Step::Refused(m),
        Ok(tokens) => {
            if tokens.len() != existing.len() {
                Step::Refused("profile array token identity is ambiguous"@)
            } else if desired.len() < existing.len() {
                let kept = desired.len() as int;
                let dropped = Seq::new((tokens.len() - kept) as nat, |k: int| (tokens[kept + k].start, tokens[kept + k].end));
                let scan_start = if kept > 0 { tokens[kept - 1].end } else { start + 1 };
                let commas = commas_scan(s, end - 1, scan_start, Quote::Outside, false, Seq::empty());
                let removals = sort_ranges(dropped + Seq::new(commas.len(), |k: int| (commas[k], commas[k] + 1)));
                match delete_ranges(raw, removals, start) {
                    None => Step::Undefined,
                    Some(shorter) => match replace_tokens(shorter, tokens, desired, kept, start) {
                        None => Step::Undefined,
                        Some(result) => Step::Done(result),
                    },
                }
            } else {
                match replace_tokens(raw, tokens, desired, existing.len() as int, start) {
                    None => Step::Undefined,
                    Some(result) => {
                        if desired.len() == existing.len() {
                            Step::Done(result)
                        } else if tokens.len() == 0 {
                            Step::Refused("cannot extend a commented empty profile array safely"@)
                        } else {
                            let rel = tokens.last().end - start;
                            if rel > result.len() {
                                Step::Undefined
                            } else {
                                let with_comma = if comma_before_break(raw, rel, raw.len() - 1) {
                                    result
                                } else {
                                    result.subrange(0, rel) + seq![','] + result.subrange(rel, result.len() as int)
                                };
                                let close = last_index_of(with_comma, ']', with_comma.len() as int);
                                if close < 0 {
                                    Step::Refused("profile array closing delimiter could not be located safely"@)
                                } else {
                                    let newline = if has_crlf(raw) { "\r\n"@ } else { "\n"@ };
                                    let line_start = last_index_of(with_comma, '\n', close) + 1;
                                    let addition = extension_text(with_comma.subrange(line_start, close),
                                        desired.subrange(existing.len() as int, desired.len() as int), newline);
                                    Step::Done(with_comma.subrange(0, line_start) + addition + newline
                                        + with_comma.subrange(line_start, with_comma.len() as int))
                                }
                            }
                        }
                    },
                }
            }
        },
    }
}


pub open spec fn ranges_view(ranges: Seq<(usize, usize)>) -> Seq<(int, int)> {
    ranges.map_values(|r: (usize, usize)| (r.0 as int, r.1 as int))
}

fn insert_range_into(sorted: &mut Vec<(usize, usize)>, r: (usize, usize))
    ensures
        ranges_view(final(sorted)@) == insert_range(ranges_view(old(sorted)@), (r.0 as int, r.1 as int)),
    decreases old(sorted)@.len(),
{
    let n = sorted.len();
    let ghost old_view = ranges_view(sorted@);
    if n == 0 {
        sorted.push(r);
        proof {
            assert(ranges_view(sorted@) =~= seq![(r.0 as int, r.1 as int)]);
        }
        return;
    }
    proof {
        assert(old_view.last() == (sorted@[n - 1].0 as int, sorted@[n - 1].1 as int));
    }
    if sorted[n - 1].0 <= r.0 {
        sorted.push(r);
        proof {
            assert(ranges_view(sorted@) =~= old_view.push((r.0 as int, r.1 as int)));
        }
    } else {
        let last = sorted.pop().unwrap();
        proof {
            assert(ranges_view(sorted@) =~= old_view.drop_last());
        }
        insert_range_into(sorted, r);
        let ghost mid = ranges_view(sorted@);
        sorted.push(last);
        proof {
            assert(ranges_view(sorted@) =~= mid.push((last.0 as int, last.1 as int)));
        }
    }
}

fn sort_ranges_of(ranges: &Vec<(usize, usize)>) -> (sorted: Vec<(usize, usize)>)
    ensures
        ranges_view(sorted@) == sort_ranges(ranges_view(ranges@)),
{
    let ghost all = ranges_view(ranges@);
    let mut sorted: Vec<(usize, usize)> = Vec::new();
    let mut i: usize = 0;
    proof {
        assert(all.take(0) =~= Seq::<(int, int)>::empty());
        assert(ranges_view(sorted@) =~= Seq::<(int, int)>::empty());
    }
    while i < ranges.len()
        invariant
            i <= ranges@.len(),
            all == ranges_view(ranges@),
            ranges_view(sorted@) == sort_ranges(all.take(i as int)),
        decreases ranges@.len() - i,
    {
        proof {
            assert(all.take(i + 1).drop_last() =~= all.take(i as int));
            assert(all.take(i + 1).last() == (ranges@[i as int].0 as int, ranges@[i as int].1 as int));
        }
        insert_range_into(&mut sorted, ranges[i]);
        i = i + 1;
    }
    proof {
        assert(all.take(i as int) =~= all);
    }
    sorted
}

fn delete_ranges_in(text: &Vec<char>, ranges: &Vec<(usize, usize)>, base: usize) -> (result: Option<Vec<char>>)
    ensures
        match result {
            Some(t) => delete_ranges(text@, ranges_view(ranges@), base as int) == Some(t@),
            None => delete_ranges(text@, ranges_view(ranges@), base as int) is None,
        },
{
    let ghost rv = ranges_view(ranges@);
    let empty: Vec<char> = Vec::new();
    let mut cur = splice_chars(text, 0, 0, &empty);
    let mut k = ranges.len();
    proof {
        assert(empty@ =~= Seq::<char>::empty());
        assert(cur@ =~= text@);
        assert(rv.take(k as int) =~= rv);
    }
    while k > 0
        invariant
            k <= ranges@.len(),
            rv == ranges_view(ranges@),
            empty@ == Seq::<char>::empty(),
            delete_ranges(text@, rv, base as int) == delete_ranges(cur@, rv.take(k as int), base as int),
        decreases k,
    {
        let (a, b) = ranges[k - 1];
        let ghost old_cur = cur@;
        proof {
            assert(rv.take(k as int).last() == (a as int, b as int));
            assert(rv.take(k as int).drop_last() =~= rv.take(k - 1));
        }
        if a < base || b < a || b - base > cur.len() {
            return None;
        }
        cur = splice_chars(&cur, a - base, b - base, &empty);
        proof {
            assert(cur@ =~= old_cur.subrange(0, a - base) + old_cur.subrange(b - base, old_cur.len() as int));
        }
        k = k - 1;
    }
    proof {
        assert(rv.take(0) =~= Seq::<(int, int)>::empty());
    }
    Some(cur)
}

fn replace_tokens_in(text: &Vec<char>, tokens: &Vec<StringToken>, values: &Vec<String>, n: usize, base: usize) -> (result: Option<Vec<char>>)
    requires
        n <= tokens@.len(),
        n <= values@.len(),
    ensures
        match result {
            Some(t) => replace_tokens(text@, string_tokens_view(tokens@), values.deep_view(), n as int, base as int) == Some(t@),
            None => replace_tokens(text@, string_tokens_view(tokens@), values.deep_view(), n as int, base as int) is None,
        },
{
    let ghost tv = string_tokens_view(tokens@);
    let ghost vv = values.deep_view();
    let empty: Vec<char> = Vec::new();
    let mut cur = splice_chars(text, 0, 0, &empty);
    let mut k = n;
    proof {
        assert(cur@ =~= text@);
    }
    while k > 0
        invariant
            k <= n,
            n <= tokens@.len(),
            n <= values@.len(),
            tv == string_tokens_view(tokens@),
            vv == values.deep_view(),
            replace_tokens(text@, tv, vv, n as int, base as int) == replace_tokens(cur@, tv, vv, k as int, base as int),
        decreases k,
    {
        let t = tokens[k - 1];
        proof {
            assert(tv[k - 1] == string_token_view(t));
            assert(vv[k - 1] == values@[k - 1]@);
        }
        if t.start < base || t.end < t.start || t.end - base > cur.len() {
            return None;
        }
        let rendered = render_toml_string_with_quote(values[k - 1].as_str(), t.quote);
        let insert = chars_of(rendered.as_str());
        cur = splice_chars(&cur, t.start - base, t.end - base, &insert);
        k = k - 1;
    }
    Some(cur)
}

fn comma_before_break_at(raw: &Vec<char>, from: usize, stop: usize) -> (found: bool)
    requires
        stop <= raw@.len(),
    ensures
        found == comma_before_break(raw@, from as int, stop as int),
{
    let mut i = from;
    while i < stop
        invariant
            from <= i,
            stop <= raw@.len(),
            comma_before_break(raw@, from as int, stop as int) == comma_before_break(raw@, i as int, stop as int),
        decreases stop - i,
    {
        let c = raw[i];
        if c == '#' || c == '\n' || c == '\r' {
            return false;
        }
        if c == ',' {
            return true;
        }
        i = i + 1;
    }
    false
}

fn last_index_at(t: &Vec<char>, c: char, to: usize) -> (found: Option<usize>)
    requires
        to <= t@.len(),
    ensures
        match found {
            Some(p) => last_index_of(t@, c, to as int) == p as int && p < to,
            None => last_index_of(t@, c, to as int) == -1,
        },
{
    let mut i = to;
    while i > 0
        invariant
            i <= to <= t@.len(),
            last_index_of(t@, c, to as int) == last_index_of(t@, c, i as int),
        decreases i,
    {
        if t[i - 1] == c {
            return Some(i - 1);
        }
        i = i - 1;
    }
    None
}

fn extension_of(indent: &Vec<char>, values: &Vec<String>, from: usize, newline: &str) -> (text: String)
    requires
        from <= values@.len(),
    ensures
        text@ == extension_text(indent@, values.deep_view().subrange(from as int, values@.len() as int), newline@),
{
    let ghost vals = values.deep_view().subrange(from as int, values@.len() as int);
    let ghost target = Seq::new(vals.len(), |k: int| indent@ + "  "@ + rendered_string(vals[k], '"'));
    let prefix = string_from_range(indent, 0, indent.len());
    let mut text = String::new();
    let mut i = from;
    proof {
        assert(indent@.subrange(0, indent@.len() as int) =~= indent@);
        assert(target.take(0) =~= Seq::<Seq<char>>::empty());
    }
    while i < values.len()
        invariant
            from <= i <= values@.len(),
            prefix@ == indent@,
            vals == values.deep_view().subrange(from as int, values@.len() as int),
            target == Seq::new(vals.len(), |k: int| indent@ + "  "@ + rendered_string(vals[k], '"')),
            text@ == joined(target.take(i - from), ","@ + newline@),
        decreases values@.len() - i,
    {
        let ghost before = text@;
        if i > from {
            text.append(",");
            text.append(newline);
        }
        text.append(prefix.as_str());
        text.append("  ");
        let rendered = render_toml_string_with_quote(values[i].as_str(), '"');
        text.append(rendered.as_str());
        proof {
            let j = i - from;
            assert(vals[j] == values@[i as int]@);
            assert(target.take(j + 1).drop_last() =~= target.take(j));
            assert(target.take(j + 1).last() == target[j]);
            if j == 0 {
                assert(target.take(1)[0] == target[0]);
                assert(text@ =~= target[0]);
            } else {
                assert(text@ =~= before + (","@ + newline@) + target[j]);
            }
        }
        i = i + 1;
    }
    proof {
        assert(target.take(i - from) =~= target);
    }
    text
}

fn commented_update_at(s: &Vec<char>, start: usize, end: usize, existing: &Vec<String>, desired: &Vec<String>) -> (result: Result<Option<Vec<char>>, &'static str>)
    requires
        start + 2 <= end <= s@.len(),
    ensures
        match result {
            Ok(Some(text)) => commented_update(s@, start as int, end as int, existing.deep_view(), desired.deep_view()) == Step::Done(text@),
            Ok(None) => commented_update(s@, start as int, end as int, existing.deep_view(), desired.deep_view()) == Step::<Seq<char>>::Undefined,
            Err(m) => commented_update(s@, start as int, end as int, existing.deep_view(), desired.deep_view()) == Step::<Seq<char>>::Refused(m@),
        },
{
    let ghost spec_raw = s@.subrange(start as int, end as int);
    let tokens = match string_tokens_in(s, start, end) {
        Err(m) => {
            return Err(m);
        },
        Ok(t) => t,
    };
    let ghost tv = string_tokens_view(tokens@);
    if tokens.len() != existing.len() {
        return Err("profile array token identity is ambiguous");
    }
    let raw_text = string_from_range(s, start, end);
    let raw = chars_of(raw_text.as_str());
    if desired.len() < existing.len() {
        let kept = desired.len();
        let ghost dropped = Seq::new((tv.len() - kept) as nat, |k: int| (tv[kept + k].start, tv[kept + k].end));
        let mut removals: Vec<(usize, usize)> = Vec::new();
        let mut k = kept;
        proof {
            assert(ranges_view(removals@) =~= dropped.take(0));
        }
        while k < tokens.len()
            invariant
                kept <= k <= tokens@.len(),
                tv == string_tokens_view(tokens@),
                dropped == Seq::new((tv.len() - kept) as nat, |m: int| (tv[kept + m].start, tv[kept + m].end)),
                ranges_view(removals@) == dropped.take(k - kept),
            decreases tokens@.len() - k,
        {
            let ghost before = ranges_view(removals@);
            removals.push((tokens[k].start, tokens[k].end));
            proof {
                assert(tv[k as int] == string_token_view(tokens@[k as int]));
                assert(ranges_view(removals@) =~= before.push((tokens@[k as int].start as int, tokens@[k as int].end as int)));
                assert(ranges_view(removals@) =~= dropped.take(k + 1 - kept));
            }
            k = k + 1;
        }
        proof {
            assert(dropped.take(k - kept) =~= dropped);
        }
        let scan_start = if kept > 0 { tokens[kept - 1].end } else { start + 1 };
        proof {
            if kept > 0 {
                assert(tv[kept - 1] == string_token_view(tokens@[kept - 1]));
            }
        }
        let commas = commas_in(s, scan_start, end - 1);
        let ghost cv = commas@.map_values(|c: usize| c as int);
        let ghost comma_ranges = Seq::new(cv.len(), |m: int| (cv[m], cv[m] + 1));
        let mut m: usize = 0;
        proof {
            assert(ranges_view(removals@) =~= dropped + comma_ranges.take(0));
        }
        while m < commas.len()
            invariant
                m <= commas@.len(),
                cv == commas@.map_values(|c: usize| c as int),
                comma_ranges == Seq::new(cv.len(), |j: int| (cv[j], cv[j] + 1)),
                forall|j: int| 0 <= j < commas@.len() ==> #[trigger] commas@[j] < end,
                ranges_view(removals@) == dropped + comma_ranges.take(m as int),
            decreases commas@.len() - m,
        {
            let ghost before = ranges_view(removals@);
            let c = commas[m];
            assert(c < end);
            removals.push((c, c + 1));
            proof {
                assert(ranges_view(removals@) =~= before.push((c as int, c + 1)));
                assert(comma_ranges.take(m + 1) =~= comma_ranges.take(m as int).push((c as int, c + 1)));
                assert(ranges_view(removals@) =~= dropped + comma_ranges.take(m + 1));
            }
            m = m + 1;
        }
        proof {
            assert(comma_ranges.take(m as int) =~= comma_ranges);
        }
        let sorted = sort_ranges_of(&removals);
        match delete_ranges_in(&raw, &sorted, start) {
            None => Ok(None),
            Some(shorter) => match replace_tokens_in(&shorter, &tokens, desired, kept, start) {
                None => Ok(None),
                Some(text) => Ok(Some(text)),
            },
        }
    } else {
        let replaced = match replace_tokens_in(&raw, &tokens, desired, existing.len(), start) {
            None => {
                return Ok(None);
            },
            Some(text) => text,
        };
        if desired.len() == existing.len() {
            return Ok(Some(replaced));
        }
        if tokens.len() == 0 {
            return Err("cannot extend a commented empty profile array safely");
        }
        let last_end = tokens[tokens.len() - 1].end;
        proof {
            assert(tv.last() == string_token_view(tokens@[tokens@.len() - 1]));
        }
        let rel = last_end - start;
        if rel > replaced.len() {
            return Ok(None);
        }
        let with_comma = if comma_before_break_at(&raw, rel, raw.len() - 1) {
            replaced
        } else {
            let comma = vec![','];
            proof {
                assert(comma@ =~= seq![',']);
            }
            splice_chars(&replaced, rel, rel, &comma)
        };
        let close = match last_index_at(&with_comma, ']', with_comma.len()) {
            None => {
                return Err("profile array closing delimiter could not be located safely");
            },
            Some(c) => c,
        };
        let newline = newline_for(&raw);
        let line_start = match last_index_at(&with_comma, '\n', close) {
            None => 0,
            Some(p) => p + 1,
        };
        let indent_text = string_from_range(&with_comma, line_start, close);
        let indent = chars_of(indent_text.as_str());
        let mut addition = extension_of(&indent, desired, existing.len(), newline);
        addition.append(newline);
        let inserted = chars_of(addition.as_str());
        let text = splice_chars(&with_comma, line_start, line_start, &inserted);
        proof {
            let spec_with = with_comma@;
            assert(text@ =~= spec_with.subrange(0, line_start as int)
                + extension_text(indent@, desired.deep_view().subrange(existing@.len() as int, desired@.len() as int), newline@)
                + newline@ + spec_with.subrange(line_start as int, spec_with.len() as int));
        }
        Ok(Some(text))
    }
}


/// The new text of the string array `s[start..end]` holding `desired`:
/// unchanged when it already holds them; commented arrays are edited token
/// by token; others are rebuilt from their entries.
pub open spec fn string_array_update(s: Seq<char>, start: int, end: int, desired: Seq<Seq<char>>) -> Step<Seq<char>> {
    let raw = s.subrange(start, end);
    match array_values(raw) {
        Err(m) => Step::Refused(m),
        Ok(existing) => {
            if existing == desired {
                Step::Done(raw)
            } else if raw.contains('#') {
                commented_update(s, start, end, existing, desired)
            } else {
                match array_entries(s, start, end) {
                    Err(m) => Step::Refused(m),
                    Ok(entries) => {
                        if desired.len() == 0 {
                            Step::Done("[]"@)
                        } else {
                            Step::Done(array_text(s, start, end, entries,
                                rendered_entries(s, entries, desired, 0, Seq::new(entries.len(), |j: int| false))))
                        }
                    },
                }
            }
        },
    }
}

fn strings_equal(left: &Vec<String>, right: &Vec<String>) -> (equal: bool)
    ensures
        equal == (left.deep_view() == right.deep_view()),
{
    let ghost lv = left.deep_view();
    let ghost rv = right.deep_view();
    if left.len() != right.len() {
        proof {
            assert(lv.len() != rv.len());
        }
        return false;
    }
    let mut i: usize = 0;
    while i < left.len()
        invariant
            i <= left@.len(),
            left@.len() == right@.len(),
            lv == left.deep_view(),
            rv == right.deep_view(),
            forall|k: int| 0 <= k < i ==> lv[k] == rv[k],
        decreases left@.len() - i,
    {
        if !str_eq(left[i].as_str(), right[i].as_str()) {
            proof {
                assert(lv[i as int] != rv[i as int]);
            }
            return false;
        }
        i = i + 1;
    }
    proof {
        assert(lv =~= rv);
    }
    true
}

fn array_text_of(s: &Vec<char>, start: usize, end: usize, entries: &Vec<ArrayEntry>, rendered: &Vec<String>) -> (text: Vec<char>)
    requires
        start <= end <= s@.len(),
        forall|k: int| 0 <= k < entries@.len() ==> start <= #[trigger] entries@[k].token_start <= s@.len(),
    ensures
        text@ == array_text(s@, start as int, end as int, entries_view(entries@), rendered.deep_view()),
{
    let ghost rv = rendered.deep_view();
    let raw_text = string_from_range(s, start, end);
    let raw = chars_of(raw_text.as_str());
    let mut out = String::from_str("[");
    if contains_char(&raw, '\n') {
        let newline = newline_for(&raw);
        let indent = indent_of(s, start, entries);
        let mut sep = String::from_str(",");
        sep.append(newline);
        let body = join_texts(rendered, indent.as_str(), sep.as_str());
        out.append(newline);
        out.append(body.as_str());
        out.append(newline);
        out.append("]");
        proof {
            assert(Seq::new(rendered@.len(), |k: int| indent@ + trimmed(rendered@[k]@))
                =~= Seq::new(rv.len(), |k: int| indent@ + trimmed(rv[k])));
        }
    } else {
        let body = join_texts(rendered, "", ", ");
        out.append(body.as_str());
        out.append("]");
        proof {
            reveal_strlit("");
            assert(Seq::new(rendered@.len(), |k: int| ""@ + trimmed(rendered@[k]@))
                =~= Seq::new(rv.len(), |k: int| trimmed(rv[k])));
        }
    }
    chars_of(out.as_str())
}

fn string_array_update_at(s: &Vec<char>, start: usize, end: usize, desired: &Vec<String>) -> (result: Result<Option<Vec<char>>, &'static str>)
    requires
        start + 2 <= end <= s@.len(),
    ensures
        match result {
            Ok(Some(text)) => string_array_update(s@, start as int, end as int, desired.deep_view()) == Step::Done(text@),
            Ok(None) => string_array_update(s@, start as int, end as int, desired.deep_view()) == Step::<Seq<char>>::Undefined,
            Err(m) => string_array_update(s@, start as int, end as int, desired.deep_view()) == Step::<Seq<char>>::Refused(m@),
        },
{
    let raw_text = string_from_range(s, start, end);
    let existing = match array_values_of(raw_text.as_str()) {
        Err(m) => {
            return Err(m);
        },
        Ok(values) => values,
    };
    let raw = chars_of(raw_text.as_str());
    if strings_equal(&existing, desired) {
        return Ok(Some(raw));
    }
    if contains_char(&raw, '#') {
        return commented_update_at(s, start, end, &existing, desired);
    }
    let entries = match array_entries_in(s, start, end) {
        Err(m) => {
            return Err(m);
        },
        Ok(entries) => entries,
    };
    if desired.len() == 0 {
        proof {
            reveal_strlit("[]");
        }
        let empty = chars_of("[]");
        return Ok(Some(empty));
    }
    let rendered = render_entries(s, &entries, desired);
    proof {
        assert forall|k: int| 0 <= k < entries@.len() implies start <= #[trigger] entries@[k].token_start <= s@.len() by {
            assert(start < entries@[k].start);
        }
    }
    Ok(Some(array_text_of(s, start, end, &entries, &rendered)))
}

/// The patches that make `key` of a profile section hold `desired`: its
/// array is rewritten in place, or a `key = [...]` line is added at the end
/// of the section when the key is absent and `desired` is not empty.
pub open spec fn profile_property_patches(s: Seq<char>, lines: Seq<(int, int)>, section: SectionSpec, key: Seq<char>, desired: Seq<Seq<char>>) -> Step<Seq<PatchSpec>> {
    match property_in_section(s, lines, section, key) {
        Some((vs, ve)) => {
            let ts = skip_space(s, vs, ve);
            let te = trim_end_at(s, ts, ve);
            if !(ts < te && s[ts] == '[') {
                Step::Refused("`"@ + key + "` is not a directly editable string array"@)
            } else {
                match array_end_from(s, ts, s.len() as int, Quote::Outside, 0) {
                    None => Step::Refused("multiline array end could not be located safely"@),
                    Some(end) => match string_array_update(s, ts, end, desired) {
                        Step::Done(text) => Step::Done(seq![PatchSpec { start: ts, end, replacement: text }]),
                        Step::Refused(m) => Step::Refused(m),
                        Step::Undefined => Step::Undefined,
                    },
                }
            }
        },
        None => {
            if desired.len() == 0 {
                Step::Done(Seq::empty())
            } else {
                let insertion = if 0 <= section.end_line < lines.len() { lines[section.end_line].0 } else { s.len() as int };
                let newline = newline_of(s);
                let prefix = if insertion > 0 && s[insertion - 1] != '\n' { newline } else { Seq::empty() };
                Step::Done(seq![PatchSpec { start: insertion, end: insertion,
                    replacement: prefix + key + " = "@ + rendered_array(desired) + newline }])
            }
        },
    }
}

proof fn lemma_array_end_after(s: Seq<char>, i: int, to: int, quote: Quote, depth: int)
    ensures
        array_end_from(s, i, to, quote, depth) matches Some(e) ==> e > i,
    decreases to - i,
{
    if 0 <= i < to {
        if quote is Outside && s[i] == '[' {
            lemma_array_end_after(s, i + 1, to, Quote::Outside, depth + 1);
        } else if quote is Outside && s[i] == ']' {
            if depth > 1 {
                lemma_array_end_after(s, i + 1, to, Quote::Outside, depth - 1);
            }
        } else {
            lemma_array_end_after(s, i + 1, to, quote_step(quote, s[i]), depth);
        }
    }
}

fn profile_property_patches_at(s: &Vec<char>, lines: &Vec<SourceLine>, section: &Section, key: &str, desired: &Vec<String>)
    -> (result: Result<Option<Vec<Patch>>, String>)
    requires
        forall|k: int| 0 <= k < lines@.len() ==> #[trigger] lines@[k].start <= lines@[k].end <= s@.len(),
        section.end_line <= lines@.len(),
    ensures
        match result {
            Ok(Some(patches)) => profile_property_patches(s@, lines_view(lines@), section_view(*section), key@, desired.deep_view())
                == Step::Done(patches_view(patches@)),
            Ok(None) => profile_property_patches(s@, lines_view(lines@), section_view(*section), key@, desired.deep_view())
                == Step::<Seq<PatchSpec>>::Undefined,
            Err(m) => profile_property_patches(s@, lines_view(lines@), section_view(*section), key@, desired.deep_view())
                == Step::<Seq<PatchSpec>>::Refused(m@),
        },
{
    let ghost lv = lines_view(lines@);
    match property_at(s, lines, section, key) {
        Some((vs, ve)) => {
            let ts = skip_space_at(s, vs, ve);
            let te = trim_end_from(s, ts, ve);
            if !(ts < te && s[ts] == '[') {
                let mut message = String::from_str("`");
                message.append(key);
                message.append("` is not a directly editable string array");
                return Err(message);
            }
            match array_end_at(s, ts, s.len()) {
                None => Err(String::from_str("multiline array end could not be located safely")),
                Some(end) => {
                    proof {
                        assert(ts < end);
                        assert(s@[ts as int] == '[');
                        assert(array_end_from(s@, ts as int, s@.len() as int, Quote::Outside, 0)
                            == array_end_from(s@, ts + 1, s@.len() as int, Quote::Outside, 1));
                    }
                    proof {
                        lemma_array_end_after(s@, ts + 1, s@.len() as int, Quote::Outside, 1);
                    }
                    match string_array_update_at(s, ts, end, desired) {
                        Ok(Some(text)) => {
                            let replacement = string_from_chars(text.as_slice());
                            let patch = Patch { start: ts, end, replacement };
                            let mut patches: Vec<Patch> = Vec::new();
                            patches.push(patch);
                            proof {
                                assert(patches_view(patches@) =~= seq![patch_view(patch)]);
                            }
                            Ok(Some(patches))
                        },
                        Ok(None) => Ok(None),
                        Err(m) => Err(String::from_str(m)),
                    }
                },
            }
        },
        None => {
            if desired.len() == 0 {
                let patches: Vec<Patch> = Vec::new();
                proof {
                    assert(patches_view(patches@) =~= Seq::<PatchSpec>::empty());
                }
                return Ok(Some(patches));
            }
            let insertion = if section.end_line < lines.len() { lines[section.end_line].start } else { s.len() };
            proof {
                if section.end_line < lines@.len() {
                    assert(lv[section.end_line as int] == (lines@[section.end_line as int].start as int, lines@[section.end_line as int].end as int));
                }
            }
            let newline = newline_for(s);
            let mut replacement = String::new();
            if insertion > 0 && s[insertion - 1] != '\n' {
                replacement.append(newline);
            }
            replacement.append(key);
            replacement.append(" = ");
            let array = render_string_array(desired);
            replacement.append(array.as_str());
            replacement.append(newline);
            let patch = Patch { start: insertion, end: insertion, replacement };
            let mut patches: Vec<Patch> = Vec::new();
            patches.push(patch);
            proof {
                reveal_strlit("");
                assert(patches_view(patches@) =~= seq![patch_view(patch)]);
            }
            Ok(Some(patches))
        },
    }
}


/// One typed edit of the project settings.
#[derive(Debug, Clone, PartialEq, Eq)]
pub enum ProjectConfigEditOperation {
    AddProfile { name: String, include_tags: Vec<String>, exclude_tags: Vec<String> },
    UpdateProfile { name: String, include_tags: Vec<String>, exclude_tags: Vec<String> },
    AddPublishTarget { kind: PublishTargetKind, path: String },
    UpdatePublishTargetPath { index: usize, path: String },
}

/// The candidate text of an edit, with the content identities of the base
/// and of the candidate.
#[derive(Debug, Clone, PartialEq, Eq)]
pub struct ProjectConfigEditPreview {
    pub base_content_identity: String,
    pub candidate_content_identity: String,
    pub candidate_source: String,
    pub changed: bool,
}

/// A configuration edit failure: the code and message, with the
/// requirement `CONFIG-EDIT-002` attached.
pub open spec fn config_edit_failure(code: Seq<char>, message: Seq<char>) -> DiagnosticView {
    DiagnosticView {
        related_requirements: seq!["CONFIG-EDIT-002"@],
        ..fresh_diagnostic(code, ErrorKind::Config, message)
    }
}

fn config_edit_error(code: &str, message: &str) -> (error: MasterdataError)
    ensures
        error@ == config_edit_failure(code@, message@),
{
    let error = MasterdataError::new(code, ErrorKind::Config, message).with_related_requirement("CONFIG-EDIT-002");
    proof {
        assert(Seq::<Seq<char>>::empty().push("CONFIG-EDIT-002"@) =~= seq!["CONFIG-EDIT-002"@]);
    }
    error
}

pub open spec fn is_target_path(path: Seq<Seq<char>>) -> bool {
    path == seq!["publish"@, "targets"@]
}

/// The section of the `index`-th `[[publish.targets]]` entry.
pub open spec fn target_section(sections: Seq<SectionSpec>, index: int) -> Option<int>
    decreases sections.len(),
{
    if sections.len() == 0 {
        None
    } else {
        let hit = sections[0].array && is_target_path(sections[0].path);
        if hit && index == 0 {
            Some(0)
        } else {
            match target_section(sections.drop_first(), if hit { index - 1 } else { index }) {
                Some(k) => Some(k + 1),
                None => None,
            }
        }
    }
}

fn find_target_section(sections: &Vec<Section>, index: usize) -> (found: Option<usize>)
    ensures
        match found {
            Some(k) => target_section(sections_view(sections@), index as int) == Some(k as int) && k < sections@.len(),
            None => target_section(sections_view(sections@), index as int) is None,
        },
{
    let ghost all = sections_view(sections@);
    let mut k: usize = 0;
    let mut remaining = index;
    proof {
        assert(all.skip(0) =~= all);
    }
    while k < sections.len()
        invariant
            k <= sections@.len(),
            all == sections_view(sections@),
            target_section(all, index as int) == match target_section(all.skip(k as int), remaining as int) {
                Some(m) => Some(m + k),
                None => None,
            },
        decreases sections@.len() - k,
    {
        proof {
            assert(all.skip(k as int)[0] == section_view(sections@[k as int]));
            assert(all.skip(k as int).drop_first() =~= all.skip(k + 1));
        }
        let hit = sections[k].array && path_is_pair(&sections[k].path, "publish", "targets");
        if hit {
            if remaining == 0 {
                return Some(k);
            }
            remaining = remaining - 1;
        }
        k = k + 1;
    }
    None
}

fn path_is_pair(path: &Vec<String>, first: &str, second: &str) -> (result: bool)
    ensures
        result == (path.deep_view() == seq![first@, second@]),
{
    if path.len() != 2 {
        proof {
            assert(path.deep_view().len() != 2);
        }
        return false;
    }
    let equal = str_eq(path[0].as_str(), first) && str_eq(path[1].as_str(), second);
    proof {
        if equal {
            assert(path.deep_view() =~= seq![first@, second@]);
        } else {
            if path.deep_view() == seq![first@, second@] {
                assert(path.deep_view()[0] == first@ && path.deep_view()[1] == second@);
            }
        }
    }
    equal
}

/// The patches of an edit, or why it is refused.
pub enum EditPlan {
    Patches(Seq<PatchSpec>),
    Failed(Seq<char>, Seq<char>),
    Undefined,
}

/// The patches that carry out `op` on the source, given its lines and
/// sections.
pub open spec fn edit_plan(s: Seq<char>, lines: Seq<(int, int)>, sections: Seq<SectionSpec>, op: ProjectConfigEditOperation) -> EditPlan {
    match op {
        ProjectConfigEditOperation::AddProfile { name, include_tags, exclude_tags } => {
            if !is_kebab_name(name@) {
                EditPlan::Failed("E-CONFIG-EDIT-PROFILE-NAME"@, "Build Profile name `"@ + name@ + "` is not lowercase kebab-case"@)
            } else if profile_section(sections, name@) is Some {
                EditPlan::Failed("E-CONFIG-EDIT-PROFILE-COLLISION"@, "Build Profile `"@ + name@ + "` already exists"@)
            } else {
                EditPlan::Patches(seq![PatchSpec {
                    start: s.len() as int,
                    end: s.len() as int,
                    replacement: profile_text(s, name@, include_tags.deep_view(), exclude_tags.deep_view()),
                }])
            }
        },
        ProjectConfigEditOperation::UpdateProfile { name, include_tags, exclude_tags } => {
            match profile_section(sections, name@) {
                None => EditPlan::Failed("E-CONFIG-EDIT-PROFILE-NOT-FOUND"@, "Build Profile `"@ + name@ + "` was not found"@),
                Some(k) => match profile_property_patches(s, lines, sections[k], "include_tags"@, include_tags.deep_view()) {
                    Step::Refused(m) => EditPlan::Failed("E-CONFIG-EDIT-UNSUPPORTED"@, m),
                    Step::Undefined => EditPlan::Undefined,
                    Step::Done(first) => match profile_property_patches(s, lines, sections[k], "exclude_tags"@, exclude_tags.deep_view()) {
                        Step::Refused(m) => EditPlan::Failed("E-CONFIG-EDIT-UNSUPPORTED"@, m),
                        Step::Undefined => EditPlan::Undefined,
                        Step::Done(second) => EditPlan::Patches(first + second),
                    },
                },
            }
        },
        ProjectConfigEditOperation::AddPublishTarget { kind, path } => {
            EditPlan::Patches(seq![PatchSpec { start: s.len() as int, end: s.len() as int, replacement: target_text(s, kind, path@) }])
        },
        ProjectConfigEditOperation::UpdatePublishTargetPath { index, path } => {
            match target_section(sections, index as int) {
                None => EditPlan::Failed("E-CONFIG-EDIT-TARGET-NOT-FOUND"@,
                    "publish target occurrence["@ + decimal_text(index as nat) + "] was not found"@),
                Some(k) => match property_in_section(s, lines, sections[k], "path"@) {
                    None => EditPlan::Failed("E-CONFIG-EDIT-TARGET-UNSUPPORTED"@,
                        "publish target path is not a directly editable string property"@),
                    Some((vs, ve)) => match string_property_patch(s, vs, ve, path@) {
                        None => EditPlan::Failed("E-CONFIG-EDIT-UNSUPPORTED"@, "target path is not a directly editable TOML string"@),
                        Some(p) => EditPlan::Patches(seq![p]),
                    },
                },
            }
        },
    }
}

/// The parse failure message of a text that is not valid TOML.
pub open spec fn toml_failure(text: Seq<char>) -> Option<Seq<char>> {
    match toml_document_entry(text, ""@) {
        Err(e) => Some("configuration is not valid TOML: "@ + e),
        Ok(_) => None,
    }
}

/// What previewing an edit gives: the candidate text, a failure (code and
/// message), or `Undefined` where rewriting an array would index outside it.
pub enum PreviewOutcome {
    Ready(Seq<char>),
    Failed(Seq<char>, Seq<char>),
    Undefined,
}

/// The preview of `op` on the source: the source must be valid TOML and its
/// table headers readable; the patches are applied to the source text, and
/// the candidate must be valid TOML again.
pub open spec fn preview_outcome(s: Seq<char>, op: ProjectConfigEditOperation) -> PreviewOutcome {
    match toml_failure(s) {
        Some(m) => PreviewOutcome::Failed("E-CONFIG-EDIT-TOML-PARSE"@, m),
        None => match source_sections(s) {
            Err(k) => PreviewOutcome::Failed("E-CONFIG-EDIT-UNSUPPORTED"@,
                "table header on line "@ + decimal_text((k + 1) as nat) + " cannot be located safely"@),
            Ok(sections) => match edit_plan(s, source_lines(s), sections, op) {
                EditPlan::Failed(code, message) => PreviewOutcome::Failed(code, message),
                EditPlan::Undefined => PreviewOutcome::Undefined,
                EditPlan::Patches(patches) => match applied(s, patches) {
                    None => PreviewOutcome::Failed("E-CONFIG-EDIT-PATCH"@,
                        "configuration edit ranges overlap or are not valid UTF-8 boundaries"@),
                    Some(candidate) => match toml_failure(candidate) {
                        Some(m) => PreviewOutcome::Failed("E-CONFIG-EDIT-TOML-PARSE"@, m),
                        None => PreviewOutcome::Ready(candidate),
                    },
                },
            },
        },
    }
}

proof fn lemma_header_error_line(s: Seq<char>, lines: Seq<(int, int)>, k: int, open: Multiline)
    ensures
        headers_from(s, lines, k, open) matches Err(e) ==> 0 <= k <= e < lines.len(),
    decreases lines.len() - k,
{
    if 0 <= k < lines.len() {
        let (a, b) = lines[k];
        let (c, next) = section_code(s, a, b, open);
        lemma_header_error_line(s, lines, k + 1, next);
    }
}

fn check_toml(text: &str) -> (failure: Option<MasterdataError>)
    ensures
        match failure {
            Some(e) => toml_failure(text@) matches Some(m) && e@ == config_edit_failure("E-CONFIG-EDIT-TOML-PARSE"@, m),
            None => toml_failure(text@) is None,
        },
{
    match read_toml_entry(text, "") {
        Err(error) => {
            let mut message = String::from_str("configuration is not valid TOML: ");
            message.append(error.as_str());
            Some(config_edit_error("E-CONFIG-EDIT-TOML-PARSE", message.as_str()))
        },
        Ok(_) => None,
    }
}

fn edit_patches(s: &Vec<char>, lines: &Vec<SourceLine>, sections: &Vec<Section>, operation: &ProjectConfigEditOperation)
    -> (result: Result<Option<Vec<Patch>>, MasterdataError>)
    requires
        forall|k: int| 0 <= k < lines@.len() ==> #[trigger] lines@[k].start <= lines@[k].end <= s@.len(),
        forall|k: int| 0 <= k < sections@.len() ==> #[trigger] sections@[k].end_line <= lines@.len(),
    ensures
        match result {
            Ok(Some(patches)) => edit_plan(s@, lines_view(lines@), sections_view(sections@), *operation) == EditPlan::Patches(patches_view(patches@)),
            Ok(None) => edit_plan(s@, lines_view(lines@), sections_view(sections@), *operation) is Undefined,
            Err(e) => edit_plan(s@, lines_view(lines@), sections_view(sections@), *operation) matches EditPlan::Failed(code, message)
                && e@ == config_edit_failure(code, message),
        },
{
    let ghost all = sections_view(sections@);
    match operation {
        ProjectConfigEditOperation::AddProfile { name, include_tags, exclude_tags } => {
            if !is_profile_or_tag_name(name.as_str()) {
                let mut message = String::from_str("Build Profile name `");
                message.append(name.as_str());
                message.append("` is not lowercase kebab-case");
                return Err(config_edit_error("E-CONFIG-EDIT-PROFILE-NAME", message.as_str()));
            }
            if find_profile_section(sections, name.as_str()).is_some() {
                let mut message = String::from_str("Build Profile `");
                message.append(name.as_str());
                message.append("` already exists");
                return Err(config_edit_error("E-CONFIG-EDIT-PROFILE-COLLISION", message.as_str()));
            }
            let patch = append_profile(s, name.as_str(), include_tags, exclude_tags);
            let mut patches: Vec<Patch> = Vec::new();
            patches.push(patch);
            proof {
                assert(patches_view(patches@) =~= seq![patch_view(patch)]);
            }
            Ok(Some(patches))
        },
        ProjectConfigEditOperation::UpdateProfile { name, include_tags, exclude_tags } => {
            let k = match find_profile_section(sections, name.as_str()) {
                None => {
                    let mut message = String::from_str("Build Profile `");
                    message.append(name.as_str());
                    message.append("` was not found");
                    return Err(config_edit_error("E-CONFIG-EDIT-PROFILE-NOT-FOUND", message.as_str()));
                },
                Some(k) => k,
            };
            let section = &sections[k];
            proof {
                assert(all[k as int] == section_view(*section));
            }
            let mut first = match profile_property_patches_at(s, lines, section, "include_tags", include_tags) {
                Err(m) => {
                    return Err(config_edit_error("E-CONFIG-EDIT-UNSUPPORTED", m.as_str()));
                },
                Ok(None) => {
                    return Ok(None);
                },
                Ok(Some(p)) => p,
            };
            let mut second = match profile_property_patches_at(s, lines, section, "exclude_tags", exclude_tags) {
                Err(m) => {
                    return Err(config_edit_error("E-CONFIG-EDIT-UNSUPPORTED", m.as_str()));
                },
                Ok(None) => {
                    return Ok(None);
                },
                Ok(Some(p)) => p,
            };
            let ghost fv = patches_view(first@);
            let ghost sv = patches_view(second@);
            first.append(&mut second);
            proof {
                assert(patches_view(first@) =~= fv + sv);
            }
            Ok(Some(first))
        },
        ProjectConfigEditOperation::AddPublishTarget { kind, path } => {
            let patch = append_publish_target(s, *kind, path.as_str());
            let mut patches: Vec<Patch> = Vec::new();
            patches.push(patch);
            proof {
                assert(patches_view(patches@) =~= seq![patch_view(patch)]);
            }
            Ok(Some(patches))
        },
        ProjectConfigEditOperation::UpdatePublishTargetPath { index, path } => {
            let k = match find_target_section(sections, *index) {
                None => {
                    let mut message = String::from_str("publish target occurrence[");
                    let digits = decimal(*index);
                    message.append(digits.as_str());
                    message.append("] was not found");
                    return Err(config_edit_error("E-CONFIG-EDIT-TARGET-NOT-FOUND", message.as_str()));
                },
                Some(k) => k,
            };
            let section = &sections[k];
            proof {
                assert(all[k as int] == section_view(*section));
            }
            let (vs, ve) = match property_at(s, lines, section, "path") {
                None => {
                    return Err(config_edit_error("E-CONFIG-EDIT-TARGET-UNSUPPORTED",
                        "publish target path is not a directly editable string property"));
                },
                Some(found) => found,
            };
            match update_string_property(s, vs, ve, path.as_str()) {
                None => Err(config_edit_error("E-CONFIG-EDIT-UNSUPPORTED", "target path is not a directly editable TOML string")),
                Some(patch) => {
                    let mut patches: Vec<Patch> = Vec::new();
                    patches.push(patch);
                    proof {
                        assert(patches_view(patches@) =~= seq![patch_view(patch)]);
                    }
                    Ok(Some(patches))
                },
            }
        },
    }
}

fn preview_candidate(source: &str, operation: &ProjectConfigEditOperation) -> (result: Result<Option<String>, MasterdataError>)
    ensures
        match result {
            Ok(Some(candidate)) => preview_outcome(source@, *operation) == PreviewOutcome::Ready(candidate@),
            Ok(None) => preview_outcome(source@, *operation) is Undefined,
            Err(e) => preview_outcome(source@, *operation) matches PreviewOutcome::Failed(code, message)
                && e@ == config_edit_failure(code, message),
        },
{
    if let Some(error) = check_toml(source) {
        return Err(error);
    }
    let s = chars_of(source);
    let lines = split_lines(&s);
    let sections = match locate_sections(&s, &lines) {
        Err(k) => {
            proof {
                lemma_header_error_line(s@, lines_view(lines@), 0, Multiline::Closed);
            }
            let mut message = String::from_str("table header on line ");
            let digits = decimal(k + 1);
            message.append(digits.as_str());
            message.append(" cannot be located safely");
            return Err(config_edit_error("E-CONFIG-EDIT-UNSUPPORTED", message.as_str()));
        },
        Ok(sections) => sections,
    };
    proof {
        assert forall|k: int| 0 <= k < sections@.len() implies #[trigger] sections@[k].end_line <= lines@.len() by {
            assert(sections@[k].start_line < sections@[k].end_line);
        }
    }
    let patches = match edit_patches(&s, &lines, &sections, operation) {
        Err(e) => {
            return Err(e);
        },
        Ok(None) => {
            return Ok(None);
        },
        Ok(Some(patches)) => patches,
    };
    match apply_patches(&s, patches) {
        None => Err(config_edit_error("E-CONFIG-EDIT-PATCH",
            "configuration edit ranges overlap or are not valid UTF-8 boundaries")),
        Some(text) => {
            let candidate = string_from_chars(text.as_slice());
            if let Some(error) = check_toml(candidate.as_str()) {
                return Err(error);
            }
            Ok(Some(candidate))
        },
    }
}

/// Preview a typed edit of the project settings without writing it: the
/// candidate keeps every byte outside the edited ranges, and both texts
/// must be valid TOML. An array rewrite whose ranges do not fit the source
/// is refused as an invalid patch.
pub fn preview_project_config_edit(source: &str, operation: &ProjectConfigEditOperation)
    -> (result: Result<ProjectConfigEditPreview, MasterdataError>)
    ensures
        match preview_outcome(source@, *operation) {
            PreviewOutcome::Ready(candidate) => result matches Ok(preview)
                && preview.candidate_source@ == candidate
                && preview.base_content_identity@ == content_identity(source@)
                && preview.candidate_content_identity@ == content_identity(candidate)
                && preview.changed == (candidate != source@),
            PreviewOutcome::Failed(code, message) => result matches Err(e) && e@ == config_edit_failure(code, message),
            PreviewOutcome::Undefined => result matches Err(e) && e@ == config_edit_failure("E-CONFIG-EDIT-PATCH"@,
                "configuration edit ranges overlap or are not valid UTF-8 boundaries"@),
        },
{
    match preview_candidate(source, operation) {
        Err(e) => Err(e),
        Ok(None) => Err(config_edit_error("E-CONFIG-EDIT-PATCH",
            "configuration edit ranges overlap or are not valid UTF-8 boundaries")),
        Ok(Some(candidate_source)) => {
            let changed = !str_eq(candidate_source.as_str(), source);
            Ok(ProjectConfigEditPreview {
                base_content_identity: source_content_identity(source),
                candidate_content_identity: source_content_identity(candidate_source.as_str()),
                candidate_source,
                changed,
            })
        },
    }
}

proof fn lemma_single_patch(s: Seq<char>, p: PatchSpec)
    ensures
        applied(s, seq![p]) == if 0 <= p.start <= p.end <= s.len() {
            Some(s.subrange(0, p.start) + p.replacement + s.subrange(p.end, s.len() as int))
        } else {
            None::<Seq<char>>
        },
{
    let one = seq![p];
    assert(one.drop_last() =~= Seq::<PatchSpec>::empty());
    assert(sort_patches(one.drop_last()) =~= Seq::<PatchSpec>::empty());
    assert(sort_patches(one) == insert_patch(Seq::<PatchSpec>::empty(), p));
    assert(sort_patches(one) =~= one);
    let n = s.len() as int;
    assert(one.last() == p);
    if 0 <= p.start <= p.end <= s.len() {
        let t = s.subrange(0, p.start) + p.replacement + s.subrange(p.end, s.len() as int);
        assert(apply_sorted(t, n, one.drop_last(), p.start) == Some(t));
        assert(apply_sorted(s, n, one, n) == apply_sorted(t, n, one.drop_last(), p.start));
    } else {
        assert(apply_sorted(s, n, one, n) is None);
    }
}

/// An added profile or publish target is appended: the candidate is the
/// source followed by the new section's text, every source byte kept.
pub proof fn law_added_sections_are_appended(s: Seq<char>, op: ProjectConfigEditOperation)
    requires
        op is AddProfile || op is AddPublishTarget,
        preview_outcome(s, op) is Ready,
    ensures
        match op {
            ProjectConfigEditOperation::AddProfile { name, include_tags, exclude_tags } =>
                preview_outcome(s, op) == PreviewOutcome::Ready(s + profile_text(s, name@, include_tags.deep_view(), exclude_tags.deep_view())),
            ProjectConfigEditOperation::AddPublishTarget { kind, path } =>
                preview_outcome(s, op) == PreviewOutcome::Ready(s + target_text(s, kind, path@)),
            _ => true,
        },
{
    let n = s.len() as int;
    match op {
        ProjectConfigEditOperation::AddProfile { name, include_tags, exclude_tags } => {
            let text = profile_text(s, name@, include_tags.deep_view(), exclude_tags.deep_view());
            lemma_single_patch(s, PatchSpec { start: n, end: n, replacement: text });
            assert(s.subrange(0, n) + text + s.subrange(n, n) =~= s + text);
        },
        ProjectConfigEditOperation::AddPublishTarget { kind, path } => {
            let text = target_text(s, kind, path@);
            lemma_single_patch(s, PatchSpec { start: n, end: n, replacement: text });
            assert(s.subrange(0, n) + text + s.subrange(n, n) =~= s + text);
        },
        _ => {},
    }
}

/// A publish target path update rewrites only the path's string literal, in
/// its own quote style; every other character of the source is kept.
pub proof fn law_target_path_edit_rewrites_only_the_token(s: Seq<char>, op: ProjectConfigEditOperation)
    requires
        op is UpdatePublishTargetPath,
        preview_outcome(s, op) is Ready,
    ensures
        op matches ProjectConfigEditOperation::UpdatePublishTargetPath { index, path }
            && exists|ts: int, te: int| 0 <= ts < te <= s.len() && (s[ts] == '"' || s[ts] == '\'')
                && preview_outcome(s, op) == PreviewOutcome::Ready(
                    s.subrange(0, ts) + rendered_string(path@, s[ts]) + s.subrange(te, s.len() as int)),
{
    match op {
        ProjectConfigEditOperation::UpdatePublishTargetPath { index, path } => {
            let sections = source_sections(s)->Ok_0;
            let k = target_section(sections, index as int)->0;
            let (vs, ve) = property_in_section(s, source_lines(s), sections[k], "path"@)->0;
            let p = string_property_patch(s, vs, ve, path@)->0;
            lemma_single_patch(s, p);
            let ts = skip_space(s, vs, ve);
            assert(p.start == ts);
            assert(0 <= p.start < p.end <= s.len());
            assert(preview_outcome(s, op) == PreviewOutcome::Ready(
                s.subrange(0, p.start) + rendered_string(path@, s[p.start]) + s.subrange(p.end, s.len() as int)));
        },
        _ => {},
    }
}


/// Whether `key` of the section already holds exactly `values`: as a string
/// array, or, when there are no values, by being absent.
pub open spec fn key_holds(s: Seq<char>, lines: Seq<(int, int)>, section: SectionSpec, key: Seq<char>, values: Seq<Seq<char>>) -> bool {
    match property_in_section(s, lines, section, key) {
        None => values.len() == 0,
        Some((vs, ve)) => {
            let ts = skip_space(s, vs, ve);
            &&& ts < trim_end_at(s, ts, ve) && s[ts] == '['
            &&& array_end_from(s, ts, s.len() as int, Quote::Outside, 0) matches Some(end)
                && array_values(s.subrange(ts, end)) == Ok::<Seq<Seq<char>>, Seq<char>>(values)
        },
    }
}

/// Whether each patch replaces its range by the text already there.
pub open spec fn all_identity(s: Seq<char>, patches: Seq<PatchSpec>) -> bool {
    forall|k: int| 0 <= k < patches.len() ==> #[trigger] patches[k].replacement == s.subrange(patches[k].start, patches[k].end)
}

proof fn lemma_insert_identity(s: Seq<char>, sorted: Seq<PatchSpec>, p: PatchSpec)
    requires
        all_identity(s, sorted),
        p.replacement == s.subrange(p.start, p.end),
    ensures
        all_identity(s, insert_patch(sorted, p)),
    decreases sorted.len(),
{
    if sorted.len() > 0 && !patch_before(sorted.last(), p) {
        let rest = sorted.drop_last();
        assert(all_identity(s, rest)) by {
            assert forall|k: int| 0 <= k < rest.len() implies #[trigger] rest[k].replacement == s.subrange(rest[k].start, rest[k].end) by {
                assert(rest[k] == sorted[k]);
            }
        }
        lemma_insert_identity(s, rest, p);
        let inserted = insert_patch(rest, p);
        assert(sorted.last() == sorted[sorted.len() - 1]);
        let result = inserted.push(sorted.last());
        assert forall|k: int| 0 <= k < result.len() implies #[trigger] result[k].replacement == s.subrange(result[k].start, result[k].end) by {
            if k < inserted.len() {
                assert(result[k] == inserted[k]);
            }
        }
    } else if sorted.len() > 0 {
        let result = sorted.push(p);
        assert forall|k: int| 0 <= k < result.len() implies #[trigger] result[k].replacement == s.subrange(result[k].start, result[k].end) by {
            if k < sorted.len() {
                assert(result[k] == sorted[k]);
            }
        }
    }
}

proof fn lemma_sort_identity(s: Seq<char>, patches: Seq<PatchSpec>)
    requires
        all_identity(s, patches),
    ensures
        all_identity(s, sort_patches(patches)),
    decreases patches.len(),
{
    if patches.len() > 0 {
        let rest = patches.drop_last();
        assert(all_identity(s, rest)) by {
            assert forall|k: int| 0 <= k < rest.len() implies #[trigger] rest[k].replacement == s.subrange(rest[k].start, rest[k].end) by {
                assert(rest[k] == patches[k]);
            }
        }
        lemma_sort_identity(s, rest);
        assert(patches.last() == patches[patches.len() - 1]);
        lemma_insert_identity(s, sort_patches(rest), patches.last());
    }
}

proof fn lemma_apply_identity(s: Seq<char>, sorted: Seq<PatchSpec>, bound: int)
    requires
        all_identity(s, sorted),
    ensures
        apply_sorted(s, s.len() as int, sorted, bound) matches Some(c) ==> c == s,
    decreases sorted.len(),
{
    if sorted.len() > 0 {
        let p = sorted.last();
        assert(p == sorted[sorted.len() - 1]);
        if !(p.start > p.end || p.end > s.len() || p.end > bound || p.start < 0) {
            let t = s.subrange(0, p.start) + p.replacement + s.subrange(p.end, s.len() as int);
            assert(t =~= s);
            let rest = sorted.drop_last();
            assert(all_identity(s, rest)) by {
                assert forall|k: int| 0 <= k < rest.len() implies #[trigger] rest[k].replacement == s.subrange(rest[k].start, rest[k].end) by {
                    assert(rest[k] == sorted[k]);
                }
            }
            lemma_apply_identity(s, rest, p.start);
        }
    }
}

proof fn lemma_holding_key_patches(s: Seq<char>, lines: Seq<(int, int)>, section: SectionSpec, key: Seq<char>, values: Seq<Seq<char>>)
    requires
        key_holds(s, lines, section, key, values),
    ensures
        profile_property_patches(s, lines, section, key, values) matches Step::Done(patches) && all_identity(s, patches),
{
    match property_in_section(s, lines, section, key) {
        None => {
            assert(all_identity(s, Seq::<PatchSpec>::empty()));
        },
        Some((vs, ve)) => {
            let ts = skip_space(s, vs, ve);
            let end = array_end_from(s, ts, s.len() as int, Quote::Outside, 0)->0;
            assert(string_array_update(s, ts, end, values) == Step::Done(s.subrange(ts, end)));
            let patch = PatchSpec { start: ts, end, replacement: s.subrange(ts, end) };
            assert(all_identity(s, seq![patch])) by {
                assert forall|k: int| 0 <= k < 1 implies #[trigger] seq![patch][k].replacement == s.subrange(seq![patch][k].start, seq![patch][k].end) by {
                    assert(seq![patch][k] == patch);
                }
            }
        },
    }
}

/// Setting a profile's arrays to the values they already hold leaves the
/// configuration text byte for byte unchanged.
pub proof fn law_unchanged_profile_values_keep_the_source(s: Seq<char>, op: ProjectConfigEditOperation)
    requires
        op matches ProjectConfigEditOperation::UpdateProfile { name, include_tags, exclude_tags }
            && source_sections(s) matches Ok(sections)
            && profile_section(sections, name@) matches Some(k)
            && key_holds(s, source_lines(s), sections[k], "include_tags"@, include_tags.deep_view())
            && key_holds(s, source_lines(s), sections[k], "exclude_tags"@, exclude_tags.deep_view()),
        preview_outcome(s, op) is Ready,
    ensures
        preview_outcome(s, op) == PreviewOutcome::Ready(s),
{
    match op {
        ProjectConfigEditOperation::UpdateProfile { name, include_tags, exclude_tags } => {
            let lines = source_lines(s);
            let sections = source_sections(s)->Ok_0;
            let k = profile_section(sections, name@)->0;
            lemma_holding_key_patches(s, lines, sections[k], "include_tags"@, include_tags.deep_view());
            lemma_holding_key_patches(s, lines, sections[k], "exclude_tags"@, exclude_tags.deep_view());
            let first = profile_property_patches(s, lines, sections[k], "include_tags"@, include_tags.deep_view())->Done_0;
            let second = profile_property_patches(s, lines, sections[k], "exclude_tags"@, exclude_tags.deep_view())->Done_0;
            let all = first + second;
            assert(all_identity(s, all)) by {
                assert forall|m: int| 0 <= m < all.len() implies #[trigger] all[m].replacement == s.subrange(all[m].start, all[m].end) by {
                    if m < first.len() {
                        assert(all[m] == first[m]);
                    } else {
                        assert(all[m] == second[m - first.len()]);
                    }
                }
            }
            assert(edit_plan(s, lines, sections, op) == EditPlan::Patches(all));
            lemma_sort_identity(s, all);
            lemma_apply_identity(s, sort_patches(all), s.len() as int);
        },
        _ => {},
    }
}

/// A preview that is ready starts from a source that is valid TOML and
/// ends at a candidate that is valid TOML too; adding a Build Profile or a
/// publish target only appends to the source, keeping every byte of it.
pub proof fn law_ready_previews_keep_toml_valid(s: Seq<char>, op: ProjectConfigEditOperation)
    requires
        preview_outcome(s, op) is Ready,
    ensures
        toml_failure(s) is None,
        preview_outcome(s, op) matches PreviewOutcome::Ready(candidate) && toml_failure(candidate) is None,
        (op is AddProfile || op is AddPublishTarget) ==> (preview_outcome(s, op) matches PreviewOutcome::Ready(candidate)
            && candidate.len() >= s.len() && candidate.subrange(0, s.len() as int) == s),
{
    if op is AddProfile || op is AddPublishTarget {
        let sections = source_sections(s)->Ok_0;
        let patches = edit_plan(s, source_lines(s), sections, op)->Patches_0;
        let p = patches[0];
        assert(patches == seq![p]);
        lemma_single_patch(s, p);
        let candidate = s.subrange(0, p.start) + p.replacement + s.subrange(p.end, s.len() as int);
        assert(candidate.subrange(0, s.len() as int) =~= s);
    }
}

/// How a preview refuses: a source that is not valid TOML first; then,
/// where the table headers can be located, an update of a Build Profile
/// that the source does not hold, an added profile whose name is not
/// lowercase kebab-case or is already taken, and a publish target path
/// update past the last `[[publish.targets]]` entry.
pub proof fn law_preview_refusals(s: Seq<char>, op: ProjectConfigEditOperation)
    ensures
        toml_failure(s) matches Some(m) ==> preview_outcome(s, op) == PreviewOutcome::Failed("E-CONFIG-EDIT-TOML-PARSE"@, m),
        toml_failure(s) is None && source_sections(s) is Ok ==> {
            let sections = source_sections(s)->Ok_0;
            &&& (op is UpdateProfile && profile_section(sections, op->UpdateProfile_name@) is None)
                ==> (preview_outcome(s, op) matches PreviewOutcome::Failed(code, _) && code == "E-CONFIG-EDIT-PROFILE-NOT-FOUND"@)
            &&& (op is AddProfile && !is_kebab_name(op->AddProfile_name@))
                ==> (preview_outcome(s, op) matches PreviewOutcome::Failed(code, _) && code == "E-CONFIG-EDIT-PROFILE-NAME"@)
            &&& (op is AddProfile && is_kebab_name(op->AddProfile_name@) && profile_section(sections, op->AddProfile_name@) is Some)
                ==> (preview_outcome(s, op) matches PreviewOutcome::Failed(code, _) && code == "E-CONFIG-EDIT-PROFILE-COLLISION"@)
            &&& (op is UpdatePublishTargetPath && target_section(sections, op->UpdatePublishTargetPath_index as int) is None)
                ==> (preview_outcome(s, op) matches PreviewOutcome::Failed(code, _) && code == "E-CONFIG-EDIT-TARGET-NOT-FOUND"@)
        },
{
}

} // verus!
