//! Shared clipboard and scalar batch-authoring semantics.
//!
//! The editor exchanges clipboard values as text. Keeping the codec and the
//! type-directed conversion here prevents an authoring surface from applying
//! spreadsheet or JavaScript semantics to source values.
use vstd::prelude::*;

use crate::error::{DiagnosticView, ErrorKind, MasterdataError};
use crate::authoring_value::{AuthoringValue, is_number_value, is_text_value};
use crate::numeric::{
    all_digits, all_digits_in, concat_ranges, f64_text_finite, f64_text_is_finite, find_char,
    find_exponent_marker, first_exponent_marker, first_index_of, i128_text_value,
    lemma_first_exponent_marker, lemma_first_index_of, parse_i128,
};
use crate::text::{chars_of, push_char, str_eq, strings_contain};
use crate::type_system::{
    FieldModifier, PrimitiveType, ResolvedAuthoringField, ResolvedAuthoringType,
    spec_integer_range, spec_is_integer, spec_is_signed_integer,
};

verus! {

/// Scanner state of the rectangular TSV clipboard format.
#[derive(Clone, Copy, PartialEq, Eq, Structural)]
pub enum TsvState {
    FieldStart,
    Unquoted,
    Quoted,
    AfterQuote,
}

pub type TsvRows = Seq<Seq<Seq<char>>>;

/// The rows once the input is exhausted in `state`.
pub open spec fn tsv_finish(state: TsvState, rows: TsvRows, row: Seq<Seq<char>>, field: Seq<char>) -> Option<TsvRows> {
    if state == TsvState::Quoted {
        None
    } else if state != TsvState::FieldStart || row.len() > 0 {
        Some(rows.push(row.push(field)))
    } else if rows.len() == 0 {
        Some(seq![seq![Seq::<char>::empty()]])
    } else {
        Some(rows)
    }
}

/// The TSV scanner over the remaining input. `None` is a malformed input:
/// a bare CR outside quotes, a quote inside an unquoted field, characters
/// after a closing quote, or an unterminated quoted field.
pub open spec fn tsv_run(rest: Seq<char>, state: TsvState, rows: TsvRows, row: Seq<Seq<char>>, field: Seq<char>) -> Option<TsvRows>
    decreases rest.len(),
{
    if rest.len() == 0 {
        tsv_finish(state, rows, row, field)
    } else {
        let c = rest[0];
        let crlf = c == '\r' && rest.len() > 1 && rest[1] == '\n';
        let empty = Seq::<char>::empty();
        match state {
            TsvState::FieldStart => {
                if c == '"' {
                    tsv_run(rest.drop_first(), TsvState::Quoted, rows, row, field)
                } else if c == '\t' {
                    tsv_run(rest.drop_first(), TsvState::FieldStart, rows, row.push(empty), field)
                } else if c == '\n' {
                    tsv_run(rest.drop_first(), TsvState::FieldStart, rows.push(row.push(empty)), Seq::empty(), field)
                } else if c == '\r' {
                    if crlf {
                        tsv_run(rest.subrange(2, rest.len() as int), TsvState::FieldStart, rows.push(row.push(empty)), Seq::empty(), field)
                    } else {
                        None
                    }
                } else {
                    tsv_run(rest.drop_first(), TsvState::Unquoted, rows, row, field.push(c))
                }
            },
            TsvState::Unquoted => {
                if c == '"' {
                    None
                } else if c == '\t' {
                    tsv_run(rest.drop_first(), TsvState::FieldStart, rows, row.push(field), empty)
                } else if c == '\n' {
                    tsv_run(rest.drop_first(), TsvState::FieldStart, rows.push(row.push(field)), Seq::empty(), empty)
                } else if c == '\r' {
                    if crlf {
                        tsv_run(rest.subrange(2, rest.len() as int), TsvState::FieldStart, rows.push(row.push(field)), Seq::empty(), empty)
                    } else {
                        None
                    }
                } else {
                    tsv_run(rest.drop_first(), TsvState::Unquoted, rows, row, field.push(c))
                }
            },
            TsvState::Quoted => {
                if c == '"' {
                    if rest.len() > 1 && rest[1] == '"' {
                        tsv_run(rest.subrange(2, rest.len() as int), TsvState::Quoted, rows, row, field.push('"'))
                    } else {
                        tsv_run(rest.drop_first(), TsvState::AfterQuote, rows, row, field)
                    }
                } else {
                    tsv_run(rest.drop_first(), TsvState::Quoted, rows, row, field.push(c))
                }
            },
            TsvState::AfterQuote => {
                if c == '\t' {
                    tsv_run(rest.drop_first(), TsvState::FieldStart, rows, row.push(field), empty)
                } else if c == '\n' {
                    tsv_run(rest.drop_first(), TsvState::FieldStart, rows.push(row.push(field)), Seq::empty(), empty)
                } else if crlf {
                    tsv_run(rest.subrange(2, rest.len() as int), TsvState::FieldStart, rows.push(row.push(field)), Seq::empty(), empty)
                } else {
                    None
                }
            },
        }
    }
}

/// The v1 rectangular TSV clipboard format. The empty text is one empty
/// field; a single final row delimiter ends the last row.
pub open spec fn tsv_decode(input: Seq<char>) -> Option<TsvRows> {
    if input.len() == 0 {
        Some(seq![seq![Seq::<char>::empty()]])
    } else {
        tsv_run(input, TsvState::FieldStart, Seq::empty(), Seq::empty(), Seq::empty())
    }
}

/// The error of a malformed clipboard text.
pub open spec fn is_codec_error(e: DiagnosticView) -> bool {
    &&& e.code == "E-AUTHORING-CLIPBOARD-CODEC"@
    &&& e.kind == ErrorKind::Validation
    &&& e.related_requirements == seq!["AUTHORING-BATCH-003"@]
}

pub fn codec_error(message: &str) -> (error: MasterdataError)
    ensures
        is_codec_error(error@),
        error@.message == message@,
{
    MasterdataError::new("E-AUTHORING-CLIPBOARD-CODEC", ErrorKind::Validation, message)
        .with_related_requirement("AUTHORING-BATCH-003")
}

/// Appends a finished field to a row.
fn push_field(row: &mut Vec<String>, field: String)
    ensures
        final(row).deep_view() == old(row).deep_view().push(field@),
{
    let ghost before = row.deep_view();
    row.push(field);
    proof {
        assert(row.deep_view() =~= before.push(field@));
    }
}

/// Appends a finished row to the rows.
fn push_row(rows: &mut Vec<Vec<String>>, row: Vec<String>)
    ensures
        final(rows).deep_view() == old(rows).deep_view().push(row.deep_view()),
{
    let ghost before = rows.deep_view();
    let ghost pushed = row.deep_view();
    rows.push(row);
    proof {
        assert(rows.deep_view() =~= before.push(pushed));
    }
}

/// Decode the v1 rectangular TSV clipboard format.
#[verifier::rlimit(60)]
pub fn decode_clipboard_tsv(input: &str) -> (result: Result<Vec<Vec<String>>, MasterdataError>)
    ensures
        match result {
            Ok(rows) => tsv_decode(input@) == Some(rows.deep_view()),
            Err(e) => tsv_decode(input@) is None && is_codec_error(e@),
        },
{
    let chars = chars_of(input);
    let n = chars.len();
    if n == 0 {
        let mut row: Vec<String> = Vec::new();
        let mut rows: Vec<Vec<String>> = Vec::new();
        proof {
            assert(row.deep_view() =~= Seq::<Seq<char>>::empty());
            assert(rows.deep_view() =~= Seq::<Seq<Seq<char>>>::empty());
        }
        push_field(&mut row, String::new());
        push_row(&mut rows, row);
        proof {
            assert(rows.deep_view() =~= seq![seq![Seq::<char>::empty()]]);
        }
        return Ok(rows);
    }
    let mut state = TsvState::FieldStart;
    let mut rows: Vec<Vec<String>> = Vec::new();
    let mut row: Vec<String> = Vec::new();
    let mut field = String::new();
    let mut index: usize = 0;
    proof {
        assert(chars@.subrange(0, n as int) =~= input@);
        assert(rows.deep_view() =~= Seq::<Seq<Seq<char>>>::empty());
        assert(row.deep_view() =~= Seq::<Seq<char>>::empty());
    }
    while index < n
        invariant
            n == chars@.len(),
            chars@ == input@,
            n > 0,
            index <= n,
            tsv_decode(input@) == tsv_run(chars@.subrange(index as int, n as int), state, rows.deep_view(), row.deep_view(), field@),
        decreases n - index,
    {
        let ghost rest = chars@.subrange(index as int, n as int);
        let ghost old_rows = rows.deep_view();
        let ghost old_row = row.deep_view();
        let ghost old_field = field@;
        let c = chars[index];
        let crlf = c == '\r' && index + 1 < n && chars[index + 1] == '\n';
        proof {
            assert(rest[0] == c);
            assert(rest.drop_first() =~= chars@.subrange(index + 1, n as int));
            if index + 1 < n {
                assert(rest[1] == chars@[index + 1]);
                assert(rest.subrange(2, rest.len() as int) =~= chars@.subrange(index + 2, n as int));
            }
        }
        let mut step: usize = 1;
        match state {
            TsvState::FieldStart => {
                if c == '"' {
                    state = TsvState::Quoted;
                } else if c == '\t' {
                    push_field(&mut row, String::new());
                } else if c == '\n' || c == '\r' {
                    if c == '\r' {
                        if !crlf {
                            return Err(codec_error("bare CR is only valid inside a quoted field"));
                        }
                        step = 2;
                    }
                    push_field(&mut row, String::new());
                    push_row(&mut rows, row);
                    row = Vec::new();
                    proof {
                        assert(row.deep_view() =~= Seq::<Seq<char>>::empty());
                    }
                } else {
                    push_char(&mut field, c);
                    state = TsvState::Unquoted;
                }
            },
            TsvState::Unquoted => {
                if c == '"' {
                    return Err(codec_error("a quote in an unquoted field is malformed"));
                } else if c == '\t' {
                    push_field(&mut row, field);
                    field = String::new();
                    state = TsvState::FieldStart;
                } else if c == '\n' || c == '\r' {
                    if c == '\r' {
                        if !crlf {
                            return Err(codec_error("bare CR is only valid inside a quoted field"));
                        }
                        step = 2;
                    }
                    push_field(&mut row, field);
                    field = String::new();
                    push_row(&mut rows, row);
                    row = Vec::new();
                    proof {
                        assert(row.deep_view() =~= Seq::<Seq<char>>::empty());
                    }
                    state = TsvState::FieldStart;
                } else {
                    push_char(&mut field, c);
                }
            },
            TsvState::Quoted => {
                if c == '"' {
                    if index + 1 < n && chars[index + 1] == '"' {
                        push_char(&mut field, '"');
                        step = 2;
                    } else {
                        state = TsvState::AfterQuote;
                    }
                } else {
                    push_char(&mut field, c);
                }
            },
            TsvState::AfterQuote => {
                if c == '\t' {
                    push_field(&mut row, field);
                    field = String::new();
                    state = TsvState::FieldStart;
                } else if c == '\n' || crlf {
                    if crlf {
                        step = 2;
                    }
                    push_field(&mut row, field);
                    field = String::new();
                    push_row(&mut rows, row);
                    row = Vec::new();
                    proof {
                        assert(row.deep_view() =~= Seq::<Seq<char>>::empty());
                    }
                    state = TsvState::FieldStart;
                } else {
                    return Err(codec_error("characters after a closing quote are malformed"));
                }
            },
        }
        index = index + step;
    }
    if state == TsvState::Quoted {
        return Err(codec_error("quoted field was not terminated"));
    }
    if state != TsvState::FieldStart || row.len() > 0 {
        push_field(&mut row, field);
        push_row(&mut rows, row);
    } else if rows.len() == 0 {
        let mut only: Vec<String> = Vec::new();
        proof {
            assert(only.deep_view() =~= Seq::<Seq<char>>::empty());
        }
        push_field(&mut only, String::new());
        push_row(&mut rows, only);
        proof {
            assert(rows.deep_view() =~= seq![seq![Seq::<char>::empty()]]);
        }
    }
    Ok(rows)
}

/// A field's characters with every quote doubled.
pub open spec fn tsv_escape(f: Seq<char>) -> Seq<char>
    decreases f.len(),
{
    if f.len() == 0 {
        Seq::empty()
    } else {
        (if f[0] == '"' { seq!['"', '"'] } else { seq![f[0]] }) + tsv_escape(f.drop_first())
    }
}

/// A field as one quoted TSV field.
pub open spec fn tsv_quote(f: Seq<char>) -> Seq<char> {
    seq!['"'] + tsv_escape(f) + seq!['"']
}

/// Quoted fields joined by TAB.
pub open spec fn tsv_join_fields(fs: Seq<Seq<char>>) -> Seq<char>
    decreases fs.len(),
{
    if fs.len() == 0 {
        Seq::empty()
    } else if fs.len() == 1 {
        tsv_quote(fs[0])
    } else {
        tsv_quote(fs[0]) + seq!['\t'] + tsv_join_fields(fs.drop_first())
    }
}

/// Rows joined by LF, without a final row delimiter.
pub open spec fn tsv_encode(rows: TsvRows) -> Seq<char>
    decreases rows.len(),
{
    if rows.len() == 0 {
        Seq::empty()
    } else if rows.len() == 1 {
        tsv_join_fields(rows[0])
    } else {
        tsv_join_fields(rows[0]) + seq!['\n'] + tsv_encode(rows.drop_first())
    }
}

/// Whether rows form an encodable clipboard rectangle: at least one row and
/// at least one field per row.
pub open spec fn encodable_rows(rows: TsvRows) -> bool {
    rows.len() > 0 && forall|i: int| 0 <= i < rows.len() ==> (#[trigger] rows[i]).len() > 0
}

pub proof fn lemma_escape_append(a: Seq<char>, b: Seq<char>)
    ensures
        tsv_escape(a + b) == tsv_escape(a) + tsv_escape(b),
    decreases a.len(),
{
    if a.len() == 0 {
        assert(a + b =~= b);
    } else {
        lemma_escape_append(a.drop_first(), b);
        assert((a + b).drop_first() =~= a.drop_first() + b);
        assert((a + b)[0] == a[0]);
        let p = if a[0] == '"' { seq!['"', '"'] } else { seq![a[0]] };
        assert(p + (tsv_escape(a.drop_first()) + tsv_escape(b)) =~= (p + tsv_escape(a.drop_first())) + tsv_escape(b));
    }
}

pub proof fn lemma_join_fields_append(a: Seq<Seq<char>>, b: Seq<Seq<char>>)
    requires
        a.len() > 0,
        b.len() > 0,
    ensures
        tsv_join_fields(a + b) == tsv_join_fields(a) + seq!['\t'] + tsv_join_fields(b),
    decreases a.len(),
{
    assert((a + b)[0] == a[0]);
    assert((a + b).drop_first() =~= a.drop_first() + b);
    if a.len() == 1 {
        assert(a.drop_first() + b =~= b);
    } else {
        lemma_join_fields_append(a.drop_first(), b);
        let q = tsv_quote(a[0]);
        let t = seq!['\t'];
        assert(q + t + (tsv_join_fields(a.drop_first()) + t + tsv_join_fields(b))
            =~= (q + t + tsv_join_fields(a.drop_first())) + t + tsv_join_fields(b));
    }
}

pub proof fn lemma_encode_append(a: TsvRows, b: TsvRows)
    requires
        a.len() > 0,
        b.len() > 0,
    ensures
        tsv_encode(a + b) == tsv_encode(a) + seq!['\n'] + tsv_encode(b),
    decreases a.len(),
{
    assert((a + b)[0] == a[0]);
    assert((a + b).drop_first() =~= a.drop_first() + b);
    if a.len() == 1 {
        assert(a.drop_first() + b =~= b);
    } else {
        lemma_encode_append(a.drop_first(), b);
        let q = tsv_join_fields(a[0]);
        let t = seq!['\n'];
        assert(q + t + (tsv_encode(a.drop_first()) + t + tsv_encode(b))
            =~= (q + t + tsv_encode(a.drop_first())) + t + tsv_encode(b));
    }
}

/// Quote one clipboard field, doubling its quotes.
pub fn quote_tsv_field(value: &str) -> (quoted: String)
    ensures
        quoted@ == tsv_quote(value@),
{
    let chars = chars_of(value);
    let mut quoted = String::new();
    push_char(&mut quoted, '"');
    let mut i: usize = 0;
    proof {
        assert(tsv_escape(chars@.subrange(0, 0)) =~= Seq::<char>::empty());
    }
    while i < chars.len()
        invariant
            i <= chars@.len(),
            quoted@ == seq!['"'] + tsv_escape(chars@.subrange(0, i as int)),
        decreases chars@.len() - i,
    {
        let c = chars[i];
        proof {
            lemma_escape_append(chars@.subrange(0, i as int), seq![c]);
            assert(chars@.subrange(0, i + 1) =~= chars@.subrange(0, i as int) + seq![c]);
            assert(seq![c].drop_first() =~= Seq::<char>::empty());
            assert(seq![c][0] == c);
            assert(tsv_escape(seq![c].drop_first()) =~= Seq::<char>::empty());
        }
        push_char(&mut quoted, c);
        if c == '"' {
            push_char(&mut quoted, '"');
        }
        proof {
            let before = seq!['"'] + tsv_escape(chars@.subrange(0, i as int));
            if c == '"' {
                assert(quoted@ =~= before + (seq!['"', '"'] + Seq::<char>::empty()));
            } else {
                assert(quoted@ =~= before + (seq![c] + Seq::<char>::empty()));
            }
        }
        i = i + 1;
    }
    push_char(&mut quoted, '"');
    proof {
        assert(chars@.subrange(0, chars@.len() as int) =~= value@);
    }
    quoted
}

/// Encode every clipboard field as a quoted TSV field. No final row
/// delimiter is emitted, which makes empty trailing fields unambiguous.
pub fn encode_clipboard_tsv(rows: &[Vec<String>]) -> (result: Result<String, MasterdataError>)
    ensures
        match result {
            Ok(text) => encodable_rows(rows.deep_view()) && text@ == tsv_encode(rows.deep_view()),
            Err(e) => !encodable_rows(rows.deep_view()) && is_codec_error(e@),
        },
{
    let ghost all = rows.deep_view();
    if rows.len() == 0 {
        return Err(codec_error("cannot encode an empty clipboard rectangle"));
    }
    let mut r: usize = 0;
    while r < rows.len()
        invariant
            r <= rows@.len(),
            all == rows.deep_view(),
            forall|j: int| 0 <= j < r ==> (#[trigger] all[j]).len() > 0,
        decreases rows@.len() - r,
    {
        if rows[r].len() == 0 {
            proof {
                assert(all[r as int].len() == 0);
            }
            return Err(codec_error("clipboard rows must contain at least one field"));
        }
        r = r + 1;
    }
    let mut text = String::new();
    let mut r: usize = 0;
    while r < rows.len()
        invariant
            r <= rows@.len(),
            all == rows.deep_view(),
            encodable_rows(all),
            r == 0 ==> text@ == Seq::<char>::empty(),
            r > 0 ==> text@ == tsv_encode(all.subrange(0, r as int)),
        decreases rows@.len() - r,
    {
        let row = &rows[r];
        let mut line = String::new();
        let mut f: usize = 0;
        let ghost fields = all[r as int];
        assert(fields == row.deep_view());
        while f < row.len()
            invariant
                f <= row@.len(),
                fields == row.deep_view(),
                f == 0 ==> line@ == Seq::<char>::empty(),
                f > 0 ==> line@ == tsv_join_fields(fields.subrange(0, f as int)),
            decreases row@.len() - f,
        {
            let quoted = quote_tsv_field(row[f].as_str());
            proof {
                assert(fields.subrange(0, f + 1) =~= fields.subrange(0, f as int) + seq![fields[f as int]]);
                assert(seq![fields[f as int]].drop_first().len() == 0);
                if f > 0 {
                    lemma_join_fields_append(fields.subrange(0, f as int), seq![fields[f as int]]);
                } else {
                    assert(fields.subrange(0, 1) =~= seq![fields[0]]);
                }
            }
            if f > 0 {
                push_char(&mut line, '\t');
            }
            line.append(quoted.as_str());
            proof {
                if f > 0 {
                    assert(line@ =~= tsv_join_fields(fields.subrange(0, f as int)) + seq!['\t'] + tsv_quote(fields[f as int]));
                } else {
                    assert(line@ =~= tsv_quote(fields[0]));
                }
            }
            f = f + 1;
        }
        proof {
            assert(fields.subrange(0, fields.len() as int) =~= fields);
            assert(all.subrange(0, r + 1) =~= all.subrange(0, r as int) + seq![fields]);
            assert(seq![fields].drop_first().len() == 0);
            if r > 0 {
                lemma_encode_append(all.subrange(0, r as int), seq![fields]);
            } else {
                assert(all.subrange(0, 1) =~= seq![fields]);
            }
        }
        if r > 0 {
            push_char(&mut text, '\n');
        }
        text.append(line.as_str());
        proof {
            if r > 0 {
                assert(text@ =~= tsv_encode(all.subrange(0, r as int)) + seq!['\n'] + tsv_join_fields(fields));
            } else {
                assert(text@ =~= tsv_join_fields(fields));
            }
        }
        r = r + 1;
    }
    proof {
        assert(all.subrange(0, all.len() as int) =~= all);
    }
    Ok(text)
}

proof fn lemma_run_quoted(f: Seq<char>, rest: Seq<char>, rows: TsvRows, row: Seq<Seq<char>>, acc: Seq<char>)
    requires
        rest.len() == 0 || rest[0] != '"',
    ensures
        tsv_run(tsv_escape(f) + seq!['"'] + rest, TsvState::Quoted, rows, row, acc)
            == tsv_run(rest, TsvState::AfterQuote, rows, row, acc + f),
    decreases f.len(),
{
    let input = tsv_escape(f) + seq!['"'] + rest;
    if f.len() == 0 {
        assert(input =~= seq!['"'] + rest);
        assert(input[0] == '"');
        if input.len() > 1 {
            assert(input[1] == rest[0]);
        }
        assert(input.drop_first() =~= rest);
        assert(acc + f =~= acc);
    } else {
        let tail = tsv_escape(f.drop_first()) + seq!['"'] + rest;
        lemma_run_quoted(f.drop_first(), rest, rows, row, if f[0] == '"' { acc.push('"') } else { acc.push(f[0]) });
        if f[0] == '"' {
            assert(input =~= seq!['"', '"'] + tail);
            assert(input[0] == '"' && input[1] == '"');
            assert(input.subrange(2, input.len() as int) =~= tail);
            assert(acc.push('"') + f.drop_first() =~= acc + f);
        } else {
            assert(input =~= seq![f[0]] + tail);
            assert(input[0] == f[0]);
            assert(input.drop_first() =~= tail);
            assert(acc.push(f[0]) + f.drop_first() =~= acc + f);
        }
    }
}

proof fn lemma_run_fields(fs: Seq<Seq<char>>, rest: Seq<char>, rows: TsvRows, row: Seq<Seq<char>>)
    requires
        fs.len() > 0,
        rest.len() == 0 || rest[0] == '\n',
    ensures
        tsv_run(tsv_join_fields(fs) + rest, TsvState::FieldStart, rows, row, Seq::empty())
            == tsv_run(rest, TsvState::AfterQuote, rows, row + fs.drop_last(), fs.last()),
    decreases fs.len(),
{
    let f = fs[0];
    let after = if fs.len() == 1 { rest } else { seq!['\t'] + tsv_join_fields(fs.drop_first()) + rest };
    let input = tsv_join_fields(fs) + rest;
    assert(input =~= seq!['"'] + (tsv_escape(f) + seq!['"'] + after));
    assert(input[0] == '"');
    assert(input.drop_first() =~= tsv_escape(f) + seq!['"'] + after);
    if fs.len() > 1 {
        assert(after[0] == '\t');
    }
    lemma_run_quoted(f, after, rows, row, Seq::empty());
    assert(Seq::<char>::empty() + f =~= f);
    if fs.len() == 1 {
        assert(fs.drop_last() =~= Seq::<Seq<char>>::empty());
        assert(row + fs.drop_last() =~= row);
    } else {
        let tail = fs.drop_first();
        assert(after.drop_first() =~= tsv_join_fields(tail) + rest);
        lemma_run_fields(tail, rest, rows, row.push(f));
        assert(row.push(f) + tail.drop_last() =~= row + fs.drop_last());
        assert(tail.last() == fs.last());
    }
}

proof fn lemma_run_rows(rs: TsvRows, rows: TsvRows)
    requires
        encodable_rows(rs),
    ensures
        tsv_run(tsv_encode(rs), TsvState::FieldStart, rows, Seq::empty(), Seq::empty()) == Some(rows + rs),
    decreases rs.len(),
{
    let first = rs[0];
    assert(first.len() > 0);
    let rest = if rs.len() == 1 { Seq::<char>::empty() } else { seq!['\n'] + tsv_encode(rs.drop_first()) };
    assert(tsv_encode(rs) =~= tsv_join_fields(first) + rest);
    lemma_run_fields(first, rest, rows, Seq::empty());
    let done = Seq::<Seq<char>>::empty() + first.drop_last();
    assert(done.push(first.last()) =~= first);
    if rs.len() == 1 {
        assert(rows + rs =~= rows.push(first));
    } else {
        let tail = rs.drop_first();
        assert forall|i: int| 0 <= i < tail.len() implies (#[trigger] tail[i]).len() > 0 by {
            assert(tail[i] == rs[i + 1]);
        }
        assert(rest[0] == '\n');
        assert(rest.drop_first() =~= tsv_encode(tail));
        lemma_run_rows(tail, rows.push(first));
        assert(rows.push(first) + tail =~= rows + rs);
    }
}

/// Round trip: decoding the encoding of any clipboard rectangle with at least
/// one row and at least one field per row gives the rectangle back.
pub proof fn law_decode_inverts_encode(rows: TsvRows)
    requires
        encodable_rows(rows),
    ensures
        tsv_decode(tsv_encode(rows)) == Some(rows),
{
    lemma_run_rows(rows, Seq::empty());
    assert(Seq::<Seq<Seq<char>>>::empty() + rows =~= rows);
    assert(rows[0].len() > 0);
    assert(tsv_encode(rows).len() > 0) by {
        let rest = if rows.len() == 1 { Seq::<char>::empty() } else { seq!['\n'] + tsv_encode(rows.drop_first()) };
        assert(tsv_encode(rows) =~= tsv_join_fields(rows[0]) + rest);
    }
}

/// Whether a top-level field belongs to the scalar range-edit capability.
pub open spec fn spec_is_scalar_batch_field(shape: ResolvedAuthoringField) -> bool {
    (shape.modifier is Required || shape.modifier is Nullable)
        && (shape.shape is Primitive || shape.shape is ValueObject || shape.shape is Enum)
}

/// The primitive that a scalar shape is written in.
pub open spec fn scalar_primitive(shape: ResolvedAuthoringType) -> PrimitiveType {
    match shape {
        ResolvedAuthoringType::Primitive { primitive } => primitive,
        ResolvedAuthoringType::ValueObject { underlying, .. } => underlying,
        _ => PrimitiveType::String,
    }
}

/// Whether a top-level field belongs to the scalar range-edit capability.
pub fn is_scalar_batch_field(shape: &ResolvedAuthoringField) -> (result: bool)
    ensures
        result == spec_is_scalar_batch_field(*shape),
{
    matches!(shape.modifier, FieldModifier::Required | FieldModifier::Nullable) && matches!(
        shape.shape,
        ResolvedAuthoringType::Primitive { .. } | ResolvedAuthoringType::ValueObject { .. } | ResolvedAuthoringType::Enum { .. }
    )
}

fn shape_primitive(shape: &ResolvedAuthoringType) -> (primitive: PrimitiveType)
    ensures
        primitive == scalar_primitive(*shape),
{
    match shape {
        ResolvedAuthoringType::Primitive { primitive } => *primitive,
        ResolvedAuthoringType::ValueObject { underlying, .. } => *underlying,
        _ => PrimitiveType::String,
    }
}

/// The canonical integer lexeme of a primitive: optional `-` (signed types
/// only), digits without a leading zero, within the type's range.
pub open spec fn spec_valid_integer_token(text: Seq<char>, primitive: PrimitiveType) -> bool {
    let negative = text.len() > 0 && text[0] == '-';
    let digits = if negative { text.drop_first() } else { text };
    &&& digits.len() > 0
    &&& !(digits.len() > 1 && digits[0] == '0')
    &&& all_digits(digits)
    &&& !(!spec_is_signed_integer(primitive) && negative)
    &&& i128_text_value(text) is Some
    &&& spec_integer_range(primitive) matches Some((low, high)) && low <= i128_text_value(text)->0 <= high
}

/// The canonical float lexeme: optional `-`, digits `.` digits or digits
/// with an exponent, no `+`, `_` or space, and a finite value.
pub open spec fn spec_valid_float_token(text: Seq<char>) -> bool {
    let t = if text.len() > 0 && text[0] == '-' { text.drop_first() } else { text };
    let e = first_exponent_marker(t);
    &&& text.len() > 0
    &&& text[0] != '+'
    &&& !text.contains('_')
    &&& !text.contains(' ')
    &&& (e < t.len() ==> valid_float_exponent(t.subrange(e + 1, t.len() as int)))
    &&& valid_float_mantissa(t.subrange(0, e), e < t.len())
    &&& f64_text_is_finite(t)
}

pub fn valid_integer_token(text: &str, primitive: PrimitiveType) -> (valid: bool)
    ensures
        valid == spec_valid_integer_token(text@, primitive),
{
    let chars = chars_of(text);
    let n = chars.len();
    let negative = n > 0 && chars[0] == '-';
    let start: usize = if negative { 1 } else { 0 };
    let ghost digits = if negative { text@.drop_first() } else { text@ };
    proof {
        assert(digits =~= chars@.subrange(start as int, n as int));
    }
    if start == n {
        return false;
    }
    if n - start > 1 && chars[start] == '0' {
        proof {
            assert(digits[0] == chars@[start as int]);
        }
        return false;
    }
    if !all_digits_in(&chars, start, n) {
        return false;
    }
    if !primitive.is_signed_integer() && negative {
        return false;
    }
    let value = match parse_i128(&chars) {
        Some(v) => v,
        None => {
            return false;
        },
    };
    match primitive.integer_range() {
        Some((low, high)) => low <= value && value <= high,
        None => false,
    }
}

/// Whether `text[from..to]` contains `c`.
fn contains_char_in(s: &[char], from: usize, to: usize, c: char) -> (found: bool)
    requires
        from <= to <= s@.len(),
    ensures
        found == s@.subrange(from as int, to as int).contains(c),
{
    let r = find_char(s, from, to, c);
    proof {
        let sub = s@.subrange(from as int, to as int);
        lemma_first_index_of(sub, c);
        if sub.contains(c) {
            let k = choose|k: int| 0 <= k < sub.len() && sub[k] == c;
            assert(first_index_of(sub, c) <= k);
        }
    }
    r < to
}

/// The exponent part of a float token: no second marker, an optional sign,
/// then at least one digit.
pub open spec fn valid_float_exponent(exponent: Seq<char>) -> bool {
    let unsigned_exponent = if exponent.len() > 0 && (exponent[0] == '+' || exponent[0] == '-') { exponent.drop_first() } else { exponent };
    first_exponent_marker(exponent) == exponent.len() && unsigned_exponent.len() > 0 && all_digits(unsigned_exponent)
}

/// The mantissa of a float token: `digits.digits`, or bare digits when an
/// exponent follows.
pub open spec fn valid_float_mantissa(mantissa: Seq<char>, has_exponent: bool) -> bool {
    let d = first_index_of(mantissa, '.');
    if d < mantissa.len() {
        let whole = mantissa.subrange(0, d);
        let fraction = mantissa.subrange(d + 1, mantissa.len() as int);
        whole.len() > 0 && fraction.len() > 0 && all_digits(whole) && all_digits(fraction)
    } else {
        has_exponent && all_digits(mantissa)
    }
}

fn float_exponent_ok(chars: &Vec<char>, from: usize) -> (ok: bool)
    requires
        from <= chars@.len(),
    ensures
        ok == valid_float_exponent(chars@.subrange(from as int, chars@.len() as int)),
{
    let n = chars.len();
    let ghost exponent = chars@.subrange(from as int, n as int);
    proof {
        lemma_first_exponent_marker(exponent);
    }
    let second = find_exponent_marker(chars, from, n);
    if second < n {
        return false;
    }
    let exp_start: usize = if from < n && (chars[from] == '+' || chars[from] == '-') { from + 1 } else { from };
    proof {
        if from < n {
            assert(exponent[0] == chars@[from as int]);
        }
        let u = if exponent.len() > 0 && (exponent[0] == '+' || exponent[0] == '-') { exponent.drop_first() } else { exponent };
        assert(u =~= chars@.subrange(exp_start as int, n as int));
        assert(first_exponent_marker(exponent) == exponent.len());
    }
    exp_start < n && all_digits_in(chars, exp_start, n)
}

fn float_mantissa_ok(chars: &Vec<char>, start: usize, e: usize, has_exponent: bool) -> (ok: bool)
    requires
        start <= e <= chars@.len(),
    ensures
        ok == valid_float_mantissa(chars@.subrange(start as int, e as int), has_exponent),
{
    let ghost mantissa = chars@.subrange(start as int, e as int);
    proof {
        lemma_first_index_of(mantissa, '.');
    }
    let d = find_char(chars, start, e, '.');
    if d < e {
        proof {
            assert(mantissa.subrange(0, d - start) =~= chars@.subrange(start as int, d as int));
            assert(mantissa.subrange(d - start + 1, mantissa.len() as int) =~= chars@.subrange(d + 1, e as int));
        }
        d > start && e > d + 1 && all_digits_in(chars, start, d) && all_digits_in(chars, d + 1, e)
    } else {
        has_exponent && all_digits_in(chars, start, e)
    }
}

pub fn valid_float_token(text: &str) -> (valid: bool)
    ensures
        valid == spec_valid_float_token(text@),
{
    let chars = chars_of(text);
    let n = chars.len();
    if n == 0 || chars[0] == '+' {
        return false;
    }
    proof {
        assert(chars@.subrange(0, n as int) =~= text@);
    }
    if contains_char_in(&chars, 0, n, '_') || contains_char_in(&chars, 0, n, ' ') {
        return false;
    }
    let start: usize = if chars[0] == '-' { 1 } else { 0 };
    let ghost t = if text@[0] == '-' { text@.drop_first() } else { text@ };
    proof {
        assert(t =~= chars@.subrange(start as int, n as int));
        lemma_first_exponent_marker(t);
    }
    let e = find_exponent_marker(&chars, start, n);
    let has_exponent = e < n;
    proof {
        assert(t.subrange(0, e - start) =~= chars@.subrange(start as int, e as int));
        if has_exponent {
            assert(t.subrange(e - start + 1, t.len() as int) =~= chars@.subrange(e + 1, n as int));
        }
    }
    if has_exponent && !float_exponent_ok(&chars, e + 1) {
        return false;
    }
    if !float_mantissa_ok(&chars, start, e, has_exponent) {
        return false;
    }
    let rest = concat_ranges(&chars, start, n, n, n);
    proof {
        assert(rest@ =~= t);
    }
    f64_text_finite(&rest)
}

/// Whether clipboard text is taken as a `Number` for a primitive.
pub open spec fn clipboard_number(primitive: PrimitiveType, text: Seq<char>) -> bool {
    ||| spec_is_integer(primitive) && spec_valid_integer_token(text, primitive)
    ||| (primitive is Float || primitive is Double) && spec_valid_float_token(text)
}

/// Whether `value` is what pasting `text` into a scalar field gives: empty
/// text is the empty string; `true`/`false` into a bool field is a bool; a
/// number token valid for the field's primitive is a number; anything else
/// is kept as a string.
pub open spec fn pasted(shape: ResolvedAuthoringField, text: Seq<char>, value: AuthoringValue) -> bool {
    let primitive = scalar_primitive(shape.shape);
    if text.len() == 0 {
        is_text_value(value, Seq::empty())
    } else if primitive is Bool && (text == "true"@ || text == "false"@) {
        value == (AuthoringValue::Bool { value: text == "true"@ })
    } else if clipboard_number(primitive, text) {
        is_number_value(value, text)
    } else {
        is_text_value(value, text)
    }
}

/// The error of a field outside the scalar batch capability.
pub open spec fn is_batch_error(e: DiagnosticView, code: Seq<char>, requirement: Seq<char>) -> bool {
    &&& e.code == code
    &&& e.kind == ErrorKind::Validation
    &&& e.related_requirements == seq![requirement]
}

/// `"field `name` " + rest`.
fn field_message(name: &str, rest: &str) -> (message: String)
    ensures
        message@ == "field `"@ + name@ + "` "@ + rest@,
{
    let mut message = String::from_str("field `");
    message.append(name);
    message.append("` ");
    message.append(rest);
    message
}

/// Convert one decoded clipboard field according to the resolved scalar shape.
/// Invalid domain input is returned as a string so the normal validation path
/// can report it without turning a batch operation into a partial mutation.
pub fn authoring_value_from_clipboard(shape: &ResolvedAuthoringField, text: &str) -> (result: Result<AuthoringValue, MasterdataError>)
    ensures
        match result {
            Ok(value) => spec_is_scalar_batch_field(*shape) && pasted(*shape, text@, value),
            Err(e) => !spec_is_scalar_batch_field(*shape)
                && is_batch_error(e@, "E-AUTHORING-BATCH-UNSUPPORTED-FIELD"@, "AUTHORING-BATCH-001"@),
        },
{
    if !is_scalar_batch_field(shape) {
        let message = field_message(shape.name.as_str(), "is outside scalar batch authoring");
        return Err(MasterdataError::new("E-AUTHORING-BATCH-UNSUPPORTED-FIELD", ErrorKind::Validation, message.as_str())
            .with_related_requirement("AUTHORING-BATCH-001"));
    }
    if text.is_empty() {
        return Ok(AuthoringValue::String { value: String::new() });
    }
    let primitive = shape_primitive(&shape.shape);
    match primitive {
        PrimitiveType::String => Ok(AuthoringValue::String { value: text.to_owned() }),
        PrimitiveType::Bool => {
            if str_eq(text, "true") {
                Ok(AuthoringValue::Bool { value: true })
            } else if str_eq(text, "false") {
                Ok(AuthoringValue::Bool { value: false })
            } else {
                Ok(AuthoringValue::String { value: text.to_owned() })
            }
        },
        PrimitiveType::Float | PrimitiveType::Double => {
            if valid_float_token(text) {
                Ok(AuthoringValue::Number { value: text.to_owned() })
            } else {
                Ok(AuthoringValue::String { value: text.to_owned() })
            }
        },
        _ => {
            if valid_integer_token(text, primitive) {
                Ok(AuthoringValue::Number { value: text.to_owned() })
            } else {
                Ok(AuthoringValue::String { value: text.to_owned() })
            }
        },
    }
}

/// The clipboard text of a valid, non-null scalar value, or `None` when the
/// value is null, invalid, complex or outside its resolved type.
pub open spec fn clipboard_text(shape: ResolvedAuthoringField, value: AuthoringValue) -> Option<Seq<char>> {
    let primitive = scalar_primitive(shape.shape);
    match value {
        AuthoringValue::String { value: v } => {
            if primitive is String {
                match shape.shape {
                    ResolvedAuthoringType::Enum { members, .. } =>
                        if members.deep_view().contains(v@) { Some(v@) } else { None },
                    _ => Some(v@),
                }
            } else {
                None
            }
        },
        AuthoringValue::Bool { value: b } => {
            if primitive is Bool {
                Some(if b { "true"@ } else { "false"@ })
            } else {
                None
            }
        },
        AuthoringValue::Number { value: v } => {
            if spec_is_integer(primitive) {
                if spec_valid_integer_token(v@, primitive) { Some(v@) } else { None }
            } else if primitive is Float || primitive is Double {
                if spec_valid_float_token(v@) {
                    Some(v@)
                } else if f64_text_is_finite(v@) {
                    Some(v@ + ".0"@)
                } else {
                    None
                }
            } else {
                None
            }
        },
        _ => None,
    }
}

fn copy_error(code: &str, message: &str) -> (error: MasterdataError)
    ensures
        is_batch_error(error@, code@, "AUTHORING-BATCH-004"@),
        error@.message == message@,
{
    MasterdataError::new(code, ErrorKind::Validation, message).with_related_requirement("AUTHORING-BATCH-004")
}

/// Render one valid, non-null scalar value for the shared clipboard codec.
/// Invalid, nullable-null and complex values fail closed instead of becoming
/// an ambiguous empty cell.
pub fn authoring_value_to_clipboard(shape: &ResolvedAuthoringField, value: &AuthoringValue) -> (result: Result<String, MasterdataError>)
    ensures
        match result {
            Ok(text) => spec_is_scalar_batch_field(*shape) && clipboard_text(*shape, *value) == Some(text@),
            Err(e) => if spec_is_scalar_batch_field(*shape) {
                clipboard_text(*shape, *value) is None
                    && is_batch_error(e@, "E-AUTHORING-BATCH-COPY-INVALID"@, "AUTHORING-BATCH-004"@)
            } else {
                is_batch_error(e@, "E-AUTHORING-BATCH-COPY-UNSUPPORTED"@, "AUTHORING-BATCH-004"@)
            },
        },
{
    if !is_scalar_batch_field(shape) {
        let message = field_message(shape.name.as_str(), "is outside scalar batch authoring");
        return Err(copy_error("E-AUTHORING-BATCH-COPY-UNSUPPORTED", message.as_str()));
    }
    let primitive = shape_primitive(&shape.shape);
    match value {
        AuthoringValue::String { value: text } => {
            if primitive == PrimitiveType::String {
                match &shape.shape {
                    ResolvedAuthoringType::Enum { members, .. } => {
                        if strings_contain(members, text.as_str()) {
                            Ok(text.clone())
                        } else {
                            let message = field_message(shape.name.as_str(), "contains an unknown enum member");
                            Err(copy_error("E-AUTHORING-BATCH-COPY-INVALID", message.as_str()))
                        }
                    },
                    _ => Ok(text.clone()),
                }
            } else {
                let message = field_message(shape.name.as_str(), "contains a value outside its resolved type");
                Err(copy_error("E-AUTHORING-BATCH-COPY-INVALID", message.as_str()))
            }
        },
        AuthoringValue::Bool { value: b } => {
            if primitive == PrimitiveType::Bool {
                if *b {
                    Ok(String::from_str("true"))
                } else {
                    Ok(String::from_str("false"))
                }
            } else {
                let message = field_message(shape.name.as_str(), "contains a value outside its resolved type");
                Err(copy_error("E-AUTHORING-BATCH-COPY-INVALID", message.as_str()))
            }
        },
        AuthoringValue::Number { value: text } => {
            if primitive.is_integer() {
                if valid_integer_token(text.as_str(), primitive) {
                    Ok(text.clone())
                } else {
                    let message = field_message(shape.name.as_str(), "contains an invalid integer");
                    Err(copy_error("E-AUTHORING-BATCH-COPY-INVALID", message.as_str()))
                }
            } else if primitive == PrimitiveType::Float || primitive == PrimitiveType::Double {
                if valid_float_token(text.as_str()) {
                    Ok(text.clone())
                } else {
                    let chars = chars_of(text.as_str());
                    if f64_text_finite(&chars) {
                        let mut out = text.clone();
                        out.append(".0");
                        Ok(out)
                    } else {
                        let message = field_message(shape.name.as_str(), "contains an invalid or non-finite float");
                        Err(copy_error("E-AUTHORING-BATCH-COPY-INVALID", message.as_str()))
                    }
                }
            } else {
                let message = field_message(shape.name.as_str(), "contains a value outside its resolved type");
                Err(copy_error("E-AUTHORING-BATCH-COPY-INVALID", message.as_str()))
            }
        },
        AuthoringValue::Invalid { .. } => {
            let message = field_message(shape.name.as_str(), "contains a value outside its resolved type");
            Err(copy_error("E-AUTHORING-BATCH-COPY-INVALID", message.as_str()))
        },
        _ => {
            let message = field_message(shape.name.as_str(), "is null, invalid, or complex");
            Err(copy_error("E-AUTHORING-BATCH-COPY-INVALID", message.as_str()))
        },
    }
}


/// Pasting what was copied from a scalar field gives the value back, of the
/// same kind with the same text; the one exception is a float field's
/// number written without fraction or exponent, which is copied with `.0`.
pub proof fn law_paste_of_copy_gives_the_value_back(shape: ResolvedAuthoringField, value: AuthoringValue, text: Seq<char>)
    requires
        spec_is_scalar_batch_field(shape),
        clipboard_text(shape, value) == Some(text),
        !(value matches AuthoringValue::Number { value: v } && !spec_valid_float_token(v@)
            && (scalar_primitive(shape.shape) is Float || scalar_primitive(shape.shape) is Double)),
    ensures
        pasted(shape, text, value),
{
    reveal_strlit("true");
    reveal_strlit("false");
    let primitive = scalar_primitive(shape.shape);
    match value {
        AuthoringValue::Bool { value: b } => {
            assert(text == if b { "true"@ } else { "false"@ });
            assert("true"@ != "false"@) by {
                assert("true"@[0] != "false"@[0]);
            }
            assert(text.len() > 0);
            assert(primitive is Bool);
            assert(b == (text == "true"@));
            assert(value == (AuthoringValue::Bool { value: text == "true"@ }));
        },
        AuthoringValue::Number { value: v } => {
            if spec_is_integer(primitive) {
                assert(!(primitive is Float || primitive is Double));
            }
        },
        AuthoringValue::String { value: v } => {
            assert(primitive is String);
            assert(text == v@) by {
                match shape.shape {
                    ResolvedAuthoringType::Enum { members, .. } => {},
                    _ => {},
                }
            }
            assert(!clipboard_number(primitive, text));
            if text.len() == 0 {
                assert(text =~= Seq::<char>::empty());
            }
        },
        _ => {},
    }
}

} // verus!
