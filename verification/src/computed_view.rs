//! Shared semantics for authoring-only Computed Views: expression syntax
//! checks and the field references that the source-preserving rename patches.

use vstd::prelude::*;

use crate::error::{fresh_diagnostic, ErrorKind, MasterdataError};
use crate::expression::{
    byte_offset, field_refs, lemma_byte_offset_monotone, lemma_byte_offset_strict, lemma_source_refs,
    parse_source, parse_source_text, refs_between, tree_of, ExprTree, RawExpression, RawExpressionKind,
};
use crate::text::{chars_of, splice_chars, str_eq, string_from_chars, strings_contain};
use crate::type_system::{spec_is_integer, FieldModifier, PrimitiveType, ResolvedAuthoringField, ResolvedAuthoringType};
use crate::expression::{BinaryOperator, ExprKind, UnaryOperator};

verus! {

/// A byte range of an expression's source text.
#[derive(Debug, Clone, Copy, PartialEq, Eq, Structural)]
pub struct ExpressionSpan {
    pub start: usize,
    pub end: usize,
}

/// A field reference with its byte span and character positions.
#[derive(Debug, Clone, Copy, PartialEq, Eq, Structural)]
pub struct FieldReference {
    pub span: ExpressionSpan,
    pub first: usize,
    pub last: usize,
}

pub open spec fn reference_of(r: ExprTree) -> FieldReference {
    FieldReference {
        span: ExpressionSpan { start: r.start as usize, end: r.end as usize },
        first: r.first as usize,
        last: r.last as usize,
    }
}

pub open spec fn span_of(r: ExprTree) -> ExpressionSpan {
    ExpressionSpan { start: r.start as usize, end: r.end as usize }
}

/// The references to `field` in an expression, left to right; none when
/// the expression does not parse.
pub open spec fn expression_references(expression: Seq<char>, field: Seq<char>) -> Seq<ExprTree> {
    match parse_source(expression) {
        Ok(tree) => field_refs(tree, field),
        Err(_) => Seq::empty(),
    }
}

fn collect_field_references(expression: &RawExpression, field: &str, out: &mut Vec<FieldReference>)
    ensures
        final(out)@ == old(out)@ + field_refs(tree_of(*expression), field@).map_values(|r: ExprTree| reference_of(r)),
    decreases expression,
{
    let ghost before = out@;
    match &expression.kind {
        RawExpressionKind::Field(name) => {
            if str_eq(name.as_str(), field) {
                out.push(FieldReference { span: expression.span, first: expression.first, last: expression.last });
                proof {
                    assert(out@ =~= before + field_refs(tree_of(*expression), field@).map_values(|r: ExprTree| reference_of(r)));
                }
            } else {
                proof {
                    assert(out@ =~= before + field_refs(tree_of(*expression), field@).map_values(|r: ExprTree| reference_of(r)));
                }
            }
        },
        RawExpressionKind::Unary { operand, .. } => {
            collect_field_references(operand, field, out);
        },
        RawExpressionKind::Binary { left, right, .. } => {
            collect_field_references(left, field, out);
            collect_field_references(right, field, out);
            proof {
                let a = field_refs(tree_of(**left), field@);
                let b = field_refs(tree_of(**right), field@);
                assert((a + b).map_values(|r: ExprTree| reference_of(r))
                    =~= a.map_values(|r: ExprTree| reference_of(r)) + b.map_values(|r: ExprTree| reference_of(r)));
                assert(out@ =~= before + (a + b).map_values(|r: ExprTree| reference_of(r)));
            }
        },
        RawExpressionKind::Conditional { condition, when_true, when_false } => {
            collect_field_references(condition, field, out);
            collect_field_references(when_true, field, out);
            collect_field_references(when_false, field, out);
            proof {
                let a = field_refs(tree_of(**condition), field@);
                let b = field_refs(tree_of(**when_true), field@);
                let c = field_refs(tree_of(**when_false), field@);
                assert((a + b + c).map_values(|r: ExprTree| reference_of(r))
                    =~= a.map_values(|r: ExprTree| reference_of(r)) + b.map_values(|r: ExprTree| reference_of(r))
                        + c.map_values(|r: ExprTree| reference_of(r)));
                assert(out@ =~= before + (a + b + c).map_values(|r: ExprTree| reference_of(r)));
            }
        },
        _ => {
            proof {
                assert(out@ =~= before + field_refs(tree_of(*expression), field@).map_values(|r: ExprTree| reference_of(r)));
            }
        },
    }
}

/// The references to `field`, left to right, or none when the expression
/// does not parse.
fn references_in(expression: &str, field: &str) -> (refs: Vec<FieldReference>)
    ensures
        refs@ == expression_references(expression@, field@).map_values(|r: ExprTree| reference_of(r)),
{
    let mut refs: Vec<FieldReference> = Vec::new();
    match parse_source_text(expression) {
        Ok(root) => {
            collect_field_references(&root, field, &mut refs);
            proof {
                assert(refs@ =~= expression_references(expression@, field@).map_values(|r: ExprTree| reference_of(r)));
            }
        },
        Err(_) => {
            proof {
                assert(refs@ =~= expression_references(expression@, field@).map_values(|r: ExprTree| reference_of(r)));
            }
        },
    }
    refs
}

/// Return resolved source-field references in expression source order. The
/// parser distinguishes field nodes from Enum literal type/member nodes, so
/// the source-preserving RenameField patcher never guesses from raw text.
pub fn field_reference_spans(expression: &str, field: &str) -> (spans: Vec<ExpressionSpan>)
    ensures
        spans@ == expression_references(expression@, field@).map_values(|r: ExprTree| span_of(r)),
        forall|k: int| 0 <= k < spans@.len() ==> #[trigger] spans@[k].start < spans@[k].end,
        forall|k: int, m: int| 0 <= k < m < spans@.len() ==> #[trigger] spans@[k].end <= #[trigger] spans@[m].start,
{
    let refs = references_in(expression, field);
    let ghost found = expression_references(expression@, field@);
    let total = expression.as_bytes().len();
    proof {
        lemma_source_refs(expression@, field@);
        assert(expression@.subrange(0, expression@.len() as int) =~= expression@);
        assert(total == byte_offset(expression@, expression@.len() as int));
    }
    let mut spans: Vec<ExpressionSpan> = Vec::new();
    let mut i: usize = 0;
    while i < refs.len()
        invariant
            i <= refs@.len(),
            refs@ == found.map_values(|r: ExprTree| reference_of(r)),
            spans@ == found.take(i as int).map_values(|r: ExprTree| span_of(r)),
        decreases refs@.len() - i,
    {
        spans.push(refs[i].span);
        proof {
            assert(found.take(i + 1) =~= found.take(i as int).push(found[i as int]));
            assert(spans@ =~= found.take(i + 1).map_values(|r: ExprTree| span_of(r)));
        }
        i = i + 1;
    }
    proof {
        assert(found.take(i as int) =~= found);
        if let Ok(tree) = parse_source(expression@) {
            assert(refs_between(expression@, found, 0, expression@.len() as int));
            assert forall|k: int| 0 <= k < spans@.len() implies 0 <= #[trigger] found[k].start < found[k].end <= total
                && spans@[k].start == found[k].start && spans@[k].end == found[k].end by {
                assert(spans@[k] == span_of(found[k]));
                assert(0 <= found[k].first < found[k].last <= expression@.len());
                assert(found[k].start == byte_offset(expression@, found[k].first));
                lemma_byte_offset_strict(expression@, found[k].first, found[k].last);
                lemma_byte_offset_monotone(expression@, found[k].last, expression@.len() as int);
                lemma_byte_offset_monotone(expression@, 0, found[k].first);
            }
            assert forall|k: int, m: int| 0 <= k < m < spans@.len() implies #[trigger] spans@[k].end <= #[trigger] spans@[m].start by {
                assert(found[k].first < found[k].last && found[m].first < found[m].last);
                assert(found[k].last <= found[m].first);
                assert(0 <= found[k].start && 0 <= found[m].start);
                lemma_byte_offset_monotone(expression@, found[k].last, found[m].first);
            }
        }
    }
    spans
}

/// `text` with each reference replaced by `new`, the last reference first.
pub open spec fn renamed(text: Seq<char>, refs: Seq<ExprTree>, new: Seq<char>) -> Seq<char>
    decreases refs.len(),
{
    if refs.len() == 0 {
        text
    } else {
        let r = refs.last();
        renamed(text.subrange(0, r.first) + new + text.subrange(r.last, text.len() as int), refs.drop_last(), new)
    }
}

/// Rename every reference to field `old` to `new`, leaving every other byte
/// of the expression as it is; `None` when there is no reference.
pub fn rename_field_references(expression: &str, old: &str, new: &str) -> (result: Option<String>)
    ensures
        match result {
            Some(text) => expression_references(expression@, old@).len() > 0
                && text@ == renamed(expression@, expression_references(expression@, old@), new@),
            None => expression_references(expression@, old@).len() == 0,
        },
{
    let refs = references_in(expression, old);
    if refs.len() == 0 {
        return None;
    }
    let ghost found = expression_references(expression@, old@);
    proof {
        lemma_source_refs(expression@, old@);
        assert(found.len() > 0);
        assert(parse_source(expression@) is Ok);
        assert(refs_between(expression@, found, 0, expression@.len() as int));
        assert(found.take(found.len() as int) =~= found);
    }
    let insert = chars_of(new);
    let mut text = chars_of(expression);
    let n = text.len();
    proof {
        assert forall|m: int| 0 <= m < refs@.len() implies 0 <= #[trigger] found[m].first < found[m].last <= text@.len() by {
            assert(found[m].first < found[m].last);
        }
        assert forall|m: int| 0 <= m < refs@.len() implies #[trigger] found[m].last <= text@.len() by {
            assert(found[m].first < found[m].last);
        }
    }
    let mut k: usize = refs.len();
    while k > 0
        invariant
            k <= refs@.len(),
            refs@ == found.map_values(|r: ExprTree| reference_of(r)),
            refs_between(expression@, found, 0, expression@.len() as int),
            insert@ == new@,
            renamed(expression@, found, new@) == renamed(text@, found.take(k as int), new@),
            forall|m: int| 0 <= m < k ==> #[trigger] found[m].last <= text@.len(),
            forall|m: int| 0 <= m < refs@.len() ==> 0 <= #[trigger] found[m].first < found[m].last <= n,
            n == expression@.len(),
        decreases k,
    {
        k = k - 1;
        let r = refs[k];
        proof {
            assert(found[k as int].first < found[k as int].last);
            assert(refs@[k as int] == reference_of(found[k as int]));
            assert(r.first == found[k as int].first && r.last == found[k as int].last);
            assert(found.take(k + 1).last() == found[k as int]);
            assert(found.take(k + 1).drop_last() =~= found.take(k as int));
        }
        let ghost before = text@;
        text = splice_chars(&text, r.first, r.last, &insert);
        proof {
            assert forall|m: int| 0 <= m < k implies #[trigger] found[m].last <= text@.len() by {
                assert(found[m].first < found[m].last);
                assert(found[k as int].first < found[k as int].last);
                assert(found[m].last <= found[k as int].first);
            }
        }
    }
    proof {
        assert(found.take(0) =~= Seq::<ExprTree>::empty());
    }
    Some(string_from_chars(&text))
}

/// Check an expression's syntax; a syntax error becomes an
/// `E-VIEW-EXPRESSION-SYNTAX` parse error with the parser's message.
pub fn parse_expression(expression: &str) -> (result: Result<(), MasterdataError>)
    ensures
        match result {
            Ok(()) => parse_source(expression@) is Ok,
            Err(e) => parse_source(expression@) matches Err(failure)
                && e@ == fresh_diagnostic("E-VIEW-EXPRESSION-SYNTAX"@, ErrorKind::Parse, failure.message),
        },
{
    match parse_source_text(expression) {
        Ok(_) => Ok(()),
        Err(failure) => Err(MasterdataError::new("E-VIEW-EXPRESSION-SYNTAX", ErrorKind::Parse, failure.message.as_str())),
    }
}


/// The scalar type of an expression value.
#[derive(Debug, PartialEq, Eq)]
pub enum ScalarType {
    Primitive(PrimitiveType),
    ValueObject { name: String, underlying: PrimitiveType },
    Enum { name: String, underlying: PrimitiveType, members: Vec<String> },
}

/// The type of an expression: `null`, an untyped number literal, or a
/// scalar that may be nullable.
#[derive(Debug, PartialEq, Eq)]
pub enum ExpressionType {
    Null,
    IntegerLiteral,
    FloatLiteral,
    Scalar { scalar: ScalarType, nullable: bool },
}

/// A scalar type; an enum's members as a set.
pub enum ScalarView {
    Primitive(PrimitiveType),
    ValueObject(Seq<char>, PrimitiveType),
    Enum(Seq<char>, PrimitiveType, Set<Seq<char>>),
}

pub enum TypeView {
    Null,
    IntegerLiteral,
    FloatLiteral,
    Scalar(ScalarView, bool),
}

pub open spec fn members_view(members: Vec<String>) -> Set<Seq<char>> {
    Set::new(|m: Seq<char>| members.deep_view().contains(m))
}

pub open spec fn scalar_view(scalar: ScalarType) -> ScalarView {
    match scalar {
        ScalarType::Primitive(p) => ScalarView::Primitive(p),
        ScalarType::ValueObject { name, underlying } => ScalarView::ValueObject(name@, underlying),
        ScalarType::Enum { name, underlying, members } => ScalarView::Enum(name@, underlying, members_view(members)),
    }
}

pub open spec fn type_view(ty: ExpressionType) -> TypeView {
    match ty {
        ExpressionType::Null => TypeView::Null,
        ExpressionType::IntegerLiteral => TypeView::IntegerLiteral,
        ExpressionType::FloatLiteral => TypeView::FloatLiteral,
        ExpressionType::Scalar { scalar, nullable } => TypeView::Scalar(scalar_view(scalar), nullable),
    }
}

/// A type error: its code, message and the byte span of the node.
#[derive(Debug)]
pub struct TypeError {
    pub code: String,
    pub message: String,
    pub span: ExpressionSpan,
}

pub struct TypeErrorView {
    pub code: Seq<char>,
    pub message: Seq<char>,
    pub start: int,
    pub end: int,
}

pub open spec fn error_view(e: TypeError) -> TypeErrorView {
    TypeErrorView { code: e.code@, message: e.message@, start: e.span.start as int, end: e.span.end as int }
}

pub open spec fn mismatch(message: Seq<char>, t: ExprTree) -> TypeErrorView {
    TypeErrorView { code: "E-VIEW-TYPE-MISMATCH"@, message, start: t.start, end: t.end }
}

pub open spec fn is_numeric_primitive(p: PrimitiveType) -> bool {
    spec_is_integer(p) || p is Float || p is Double
}

pub open spec fn plain(p: PrimitiveType) -> TypeView {
    TypeView::Scalar(ScalarView::Primitive(p), false)
}

/// A literal number stands for `int` or `double`; `null` has no scalar.
pub open spec fn normalized(ty: TypeView) -> Option<(ScalarView, bool)> {
    match ty {
        TypeView::Null => None,
        TypeView::IntegerLiteral => Some((ScalarView::Primitive(PrimitiveType::Int), false)),
        TypeView::FloatLiteral => Some((ScalarView::Primitive(PrimitiveType::Double), false)),
        TypeView::Scalar(s, n) => Some((s, n)),
    }
}

pub open spec fn numeric_result(ty: TypeView, t: ExprTree) -> Result<TypeView, TypeErrorView> {
    match ty {
        TypeView::IntegerLiteral => Ok(plain(PrimitiveType::Int)),
        TypeView::FloatLiteral => Ok(plain(PrimitiveType::Double)),
        TypeView::Scalar(ScalarView::Primitive(p), false) => {
            if is_numeric_primitive(p) { Ok(ty) } else { Err(mismatch("arithmetic requires a non-null numeric primitive"@, t)) }
        },
        _ => Err(mismatch("arithmetic requires a non-null numeric primitive"@, t)),
    }
}

pub open spec fn coalesce_result(l: TypeView, r: TypeView, t: ExprTree) -> Result<TypeView, TypeErrorView> {
    match normalized(l) {
        None => match normalized(r) {
            None => Err(mismatch("null coalesce requires a scalar fallback"@, t)),
            Some((s, n)) => Ok(TypeView::Scalar(s, n)),
        },
        Some((ls, ln)) => {
            if !ln {
                Err(mismatch("left side of `??` must be nullable"@, t))
            } else {
                match normalized(r) {
                    None => Err(mismatch("right side of `??` must have a scalar type"@, t)),
                    Some((rs, rn)) => {
                        if ls != rs {
                            Err(mismatch("both sides of `??` must have the same semantic type"@, t))
                        } else {
                            Ok(TypeView::Scalar(ls, rn))
                        }
                    },
                }
            }
        },
    }
}

pub open spec fn ordering_result(a: (ScalarView, bool), b: (ScalarView, bool), t: ExprTree) -> Result<TypeView, TypeErrorView> {
    if a.1 || b.1 {
        Err(mismatch("ordering comparison does not accept nullable operands; use `??` first"@, t))
    } else {
        match (a.0, b.0) {
            (ScalarView::Primitive(x), ScalarView::Primitive(y)) => {
                if x == y && (x is String || is_numeric_primitive(x)) {
                    Ok(plain(PrimitiveType::Bool))
                } else {
                    Err(mismatch("ordering comparison is unsupported for these scalar operands"@, t))
                }
            },
            (ScalarView::ValueObject(n1, u1), ScalarView::ValueObject(n2, u2)) => {
                if n1 == n2 && u1 == u2 {
                    Ok(plain(PrimitiveType::Bool))
                } else {
                    Err(mismatch("ordering comparison is unsupported for these scalar operands"@, t))
                }
            },
            _ => Err(mismatch("ordering comparison is unsupported for these scalar operands"@, t)),
        }
    }
}

pub open spec fn arithmetic_result(op: BinaryOperator, l: TypeView, r: TypeView, t: ExprTree) -> Result<TypeView, TypeErrorView> {
    if op is Add && l == plain(PrimitiveType::String) && r == plain(PrimitiveType::String) {
        Ok(plain(PrimitiveType::String))
    } else {
        match (normalized(l), normalized(r)) {
            (Some(a), Some(b)) => match (a.0, b.0) {
                (ScalarView::Primitive(x), ScalarView::Primitive(y)) => {
                    if x == y && is_numeric_primitive(x) {
                        Ok(plain(x))
                    } else {
                        Err(mismatch("arithmetic operands must be the same non-null numeric primitive"@, t))
                    }
                },
                _ => Err(mismatch("arithmetic operands must be the same non-null numeric primitive"@, t)),
            },
            _ => Err(mismatch("operator requires scalar operands"@, t)),
        }
    }
}

/// The type of a binary operation on operands of types `l` and `r`.
pub open spec fn binary_result(op: BinaryOperator, l: TypeView, r: TypeView, t: ExprTree) -> Result<TypeView, TypeErrorView> {
    match op {
        BinaryOperator::And | BinaryOperator::Or => {
            if l != plain(PrimitiveType::Bool) || r != plain(PrimitiveType::Bool) {
                Err(mismatch("condition and boolean operators require a non-null bool"@, t))
            } else {
                Ok(plain(PrimitiveType::Bool))
            }
        },
        BinaryOperator::Coalesce => coalesce_result(l, r, t),
        BinaryOperator::Equal | BinaryOperator::NotEqual => {
            if l is Null || r is Null {
                Ok(plain(PrimitiveType::Bool))
            } else {
                match (normalized(l), normalized(r)) {
                    (Some(a), Some(b)) => {
                        if a.0 != b.0 {
                            Err(mismatch("equality operands must have the same semantic type"@, t))
                        } else {
                            Ok(plain(PrimitiveType::Bool))
                        }
                    },
                    _ => Err(mismatch("operator requires scalar operands"@, t)),
                }
            }
        },
        BinaryOperator::Less | BinaryOperator::LessEqual | BinaryOperator::Greater | BinaryOperator::GreaterEqual => {
            match (normalized(l), normalized(r)) {
                (Some(a), Some(b)) => ordering_result(a, b, t),
                _ => Err(mismatch("operator requires scalar operands"@, t)),
            }
        },
        _ => arithmetic_result(op, l, r, t),
    }
}

/// The type of a conditional whose branches have types `a` and `b`.
pub open spec fn merge_result(a: TypeView, b: TypeView, t: ExprTree) -> Result<TypeView, TypeErrorView> {
    if a is Null {
        match normalized(b) {
            None => Err(mismatch("conditional branch has no scalar type"@, t)),
            Some((s, _)) => Ok(TypeView::Scalar(s, true)),
        }
    } else if b is Null {
        match normalized(a) {
            None => Err(mismatch("conditional branch has no scalar type"@, t)),
            Some((s, _)) => Ok(TypeView::Scalar(s, true)),
        }
    } else {
        match (normalized(a), normalized(b)) {
            (Some(x), Some(y)) => {
                if x.0 != y.0 {
                    Err(mismatch("conditional branches must have the same semantic type"@, t))
                } else {
                    Ok(TypeView::Scalar(x.0, x.1 || y.1))
                }
            },
            _ => Err(mismatch("operator requires scalar operands"@, t)),
        }
    }
}

/// The first entry for `name`.
pub open spec fn lookup<V>(entries: Seq<(Seq<char>, V)>, name: Seq<char>) -> Option<V>
    decreases entries.len(),
{
    if entries.len() == 0 {
        None
    } else if entries[0].0 == name {
        Some(entries[0].1)
    } else {
        lookup(entries.drop_first(), name)
    }
}

pub open spec fn fields_view(fields: Seq<(String, Option<ExpressionType>)>) -> Seq<(Seq<char>, Option<TypeView>)> {
    fields.map_values(|f: (String, Option<ExpressionType>)| (f.0@, match f.1 { Some(t) => Some(type_view(t)), None => None }))
}

pub open spec fn enums_view(enums: Seq<(String, ScalarType)>) -> Seq<(Seq<char>, ScalarView)> {
    enums.map_values(|e: (String, ScalarType)| (e.0@, scalar_view(e.1)))
}

/// The type of a syntax tree, given the types of the row's fields (`None`
/// for a field that is no scalar operand) and the normal enums by name; the
/// first error met, operands left to right.
pub open spec fn type_of(t: ExprTree, fields: Seq<(Seq<char>, Option<TypeView>)>, enums: Seq<(Seq<char>, ScalarView)>) -> Result<TypeView, TypeErrorView>
    decreases t,
{
    match t.kind {
        ExprKind::Null => Ok(TypeView::Null),
        ExprKind::Bool(_) => Ok(plain(PrimitiveType::Bool)),
        ExprKind::Integer(_) => Ok(TypeView::IntegerLiteral),
        ExprKind::Float(_) => Ok(TypeView::FloatLiteral),
        ExprKind::Text(_) => Ok(plain(PrimitiveType::String)),
        ExprKind::Field(name) => match lookup(fields, name) {
            None => Err(TypeErrorView { code: "E-VIEW-UNKNOWN-FIELD"@,
                message: "expression refers to unknown field `"@ + name + "`"@, start: t.start, end: t.end }),
            Some(None) => Err(TypeErrorView { code: "E-VIEW-UNSUPPORTED-OPERAND"@,
                message: "field `"@ + name + "` is not a supported scalar expression operand"@, start: t.start, end: t.end }),
            Some(Some(ty)) => Ok(ty),
        },
        ExprKind::EnumLiteral(enum_name, member) => match lookup(enums, enum_name) {
            None => Err(mismatch("unknown normal Enum `"@ + enum_name + "` in enum literal"@, t)),
            Some(scalar) => match scalar {
                ScalarView::Enum(_, _, members) => {
                    if members.contains(member) {
                        Ok(TypeView::Scalar(scalar, false))
                    } else {
                        Err(mismatch("Enum `"@ + enum_name + "` has no member `"@ + member + "`"@, t))
                    }
                },
                _ => Err(TypeErrorView { code: "E-VIEW-UNSUPPORTED-OPERAND"@,
                    message: "`"@ + enum_name + "` is not a normal Enum"@, start: t.start, end: t.end }),
            },
        },
        ExprKind::Unary(op, operand) => match type_of(*operand, fields, enums) {
            Err(e) => Err(e),
            Ok(ty) => match op {
                UnaryOperator::Not => {
                    if ty == plain(PrimitiveType::Bool) {
                        Ok(plain(PrimitiveType::Bool))
                    } else {
                        Err(mismatch("condition and boolean operators require a non-null bool"@, t))
                    }
                },
                _ => numeric_result(ty, t),
            },
        },
        ExprKind::Binary(op, left, right) => match type_of(*left, fields, enums) {
            Err(e) => Err(e),
            Ok(l) => match type_of(*right, fields, enums) {
                Err(e) => Err(e),
                Ok(r) => binary_result(op, l, r, t),
            },
        },
        ExprKind::Conditional(condition, when_true, when_false) => match type_of(*condition, fields, enums) {
            Err(e) => Err(e),
            Ok(c) => {
                if c != plain(PrimitiveType::Bool) {
                    Err(mismatch("condition and boolean operators require a non-null bool"@, *condition))
                } else {
                    match type_of(*when_true, fields, enums) {
                        Err(e) => Err(e),
                        Ok(a) => match type_of(*when_false, fields, enums) {
                            Err(e) => Err(e),
                            Ok(b) => merge_result(a, b, t),
                        },
                    }
                }
            },
        },
    }
}


fn copy_members(members: &Vec<String>) -> (copy: Vec<String>)
    ensures
        copy.deep_view() == members.deep_view(),
{
    let mut copy: Vec<String> = Vec::new();
    let mut i: usize = 0;
    while i < members.len()
        invariant
            i <= members@.len(),
            copy.deep_view() == members.deep_view().take(i as int),
        decreases members@.len() - i,
    {
        let ghost before = copy.deep_view();
        copy.push(members[i].clone());
        proof {
            assert(copy.deep_view() =~= before.push(members@[i as int]@));
            assert(members.deep_view().take(i + 1) =~= members.deep_view().take(i as int).push(members@[i as int]@));
        }
        i = i + 1;
    }
    proof {
        assert(members.deep_view().take(i as int) =~= members.deep_view());
    }
    copy
}

pub(crate) fn copy_scalar(scalar: &ScalarType) -> (copy: ScalarType)
    ensures
        scalar_view(copy) == scalar_view(*scalar),
{
    match scalar {
        ScalarType::Primitive(p) => ScalarType::Primitive(*p),
        ScalarType::ValueObject { name, underlying } => ScalarType::ValueObject { name: name.clone(), underlying: *underlying },
        ScalarType::Enum { name, underlying, members } => {
            let copy = copy_members(members);
            proof {
                assert(members_view(copy) =~= members_view(*members));
            }
            ScalarType::Enum { name: name.clone(), underlying: *underlying, members: copy }
        },
    }
}

pub(crate) fn copy_type(ty: &ExpressionType) -> (copy: ExpressionType)
    ensures
        type_view(copy) == type_view(*ty),
{
    match ty {
        ExpressionType::Null => ExpressionType::Null,
        ExpressionType::IntegerLiteral => ExpressionType::IntegerLiteral,
        ExpressionType::FloatLiteral => ExpressionType::FloatLiteral,
        ExpressionType::Scalar { scalar, nullable } => ExpressionType::Scalar { scalar: copy_scalar(scalar), nullable: *nullable },
    }
}

fn all_contained(a: &Vec<String>, b: &Vec<String>) -> (all: bool)
    ensures
        all == forall|k: int| 0 <= k < a@.len() ==> #[trigger] b.deep_view().contains(a.deep_view()[k]),
{
    let mut i: usize = 0;
    while i < a.len()
        invariant
            i <= a@.len(),
            forall|k: int| 0 <= k < i ==> #[trigger] b.deep_view().contains(a.deep_view()[k]),
        decreases a@.len() - i,
    {
        if !strings_contain(b, a[i].as_str()) {
            proof {
                assert(a.deep_view()[i as int] == a@[i as int]@);
            }
            return false;
        }
        proof {
            assert(a.deep_view()[i as int] == a@[i as int]@);
        }
        i = i + 1;
    }
    true
}

fn same_members(a: &Vec<String>, b: &Vec<String>) -> (same: bool)
    ensures
        same == (members_view(*a) == members_view(*b)),
{
    let forward = all_contained(a, b);
    let backward = all_contained(b, a);
    proof {
        if forward && backward {
            assert forall|m: Seq<char>| members_view(*a).contains(m) <==> members_view(*b).contains(m) by {
                if a.deep_view().contains(m) {
                    let k = choose|k: int| 0 <= k < a.deep_view().len() && a.deep_view()[k] == m;
                    assert(b.deep_view().contains(a.deep_view()[k]));
                }
                if b.deep_view().contains(m) {
                    let k = choose|k: int| 0 <= k < b.deep_view().len() && b.deep_view()[k] == m;
                    assert(a.deep_view().contains(b.deep_view()[k]));
                }
            }
            assert(members_view(*a) =~= members_view(*b));
        } else if !forward {
            let k = choose|k: int| 0 <= k < a@.len() && !b.deep_view().contains(a.deep_view()[k]);
            assert(a.deep_view().contains(a.deep_view()[k]));
            assert(members_view(*a).contains(a.deep_view()[k]));
            assert(!members_view(*b).contains(a.deep_view()[k]));
        } else {
            let k = choose|k: int| 0 <= k < b@.len() && !a.deep_view().contains(b.deep_view()[k]);
            assert(b.deep_view().contains(b.deep_view()[k]));
            assert(members_view(*b).contains(b.deep_view()[k]));
            assert(!members_view(*a).contains(b.deep_view()[k]));
        }
    }
    forward && backward
}

fn scalar_eq(a: &ScalarType, b: &ScalarType) -> (equal: bool)
    ensures
        equal == (scalar_view(*a) == scalar_view(*b)),
{
    match (a, b) {
        (ScalarType::Primitive(x), ScalarType::Primitive(y)) => *x == *y,
        (ScalarType::ValueObject { name: n1, underlying: u1 }, ScalarType::ValueObject { name: n2, underlying: u2 }) => {
            str_eq(n1.as_str(), n2.as_str()) && *u1 == *u2
        },
        (ScalarType::Enum { name: n1, underlying: u1, members: m1 }, ScalarType::Enum { name: n2, underlying: u2, members: m2 }) => {
            str_eq(n1.as_str(), n2.as_str()) && *u1 == *u2 && same_members(m1, m2)
        },
        _ => false,
    }
}

pub(crate) fn is_plain(ty: &ExpressionType, p: PrimitiveType) -> (result: bool)
    ensures
        result == (type_view(*ty) == plain(p)),
{
    match ty {
        ExpressionType::Scalar { scalar: ScalarType::Primitive(q), nullable } => *q == p && !*nullable,
        _ => false,
    }
}

pub(crate) fn is_numeric(p: PrimitiveType) -> (result: bool)
    ensures
        result == is_numeric_primitive(p),
{
    p.is_integer() || p == PrimitiveType::Float || p == PrimitiveType::Double
}

fn plain_type(p: PrimitiveType) -> (ty: ExpressionType)
    ensures
        type_view(ty) == plain(p),
{
    ExpressionType::Scalar { scalar: ScalarType::Primitive(p), nullable: false }
}

pub(crate) fn normalized_of(ty: &ExpressionType) -> (result: Option<(ScalarType, bool)>)
    ensures
        match result {
            Some((s, n)) => normalized(type_view(*ty)) == Some((scalar_view(s), n)),
            None => normalized(type_view(*ty)) is None,
        },
{
    match ty {
        ExpressionType::Null => None,
        ExpressionType::IntegerLiteral => Some((ScalarType::Primitive(PrimitiveType::Int), false)),
        ExpressionType::FloatLiteral => Some((ScalarType::Primitive(PrimitiveType::Double), false)),
        ExpressionType::Scalar { scalar, nullable } => Some((copy_scalar(scalar), *nullable)),
    }
}

fn mismatch_at(message: &str, node: &RawExpression) -> (e: TypeError)
    ensures
        error_view(e) == mismatch(message@, tree_of(*node)),
{
    TypeError { code: String::from_str("E-VIEW-TYPE-MISMATCH"), message: String::from_str(message), span: node.span }
}

fn numeric_of(ty: ExpressionType, node: &RawExpression) -> (result: Result<ExpressionType, TypeError>)
    ensures
        match result {
            Ok(t) => numeric_result(type_view(ty), tree_of(*node)) == Ok::<TypeView, TypeErrorView>(type_view(t)),
            Err(e) => numeric_result(type_view(ty), tree_of(*node)) == Err::<TypeView, TypeErrorView>(error_view(e)),
        },
{
    match ty {
        ExpressionType::IntegerLiteral => Ok(plain_type(PrimitiveType::Int)),
        ExpressionType::FloatLiteral => Ok(plain_type(PrimitiveType::Double)),
        ExpressionType::Scalar { scalar: ScalarType::Primitive(p), nullable: false } => {
            if is_numeric(p) {
                Ok(ExpressionType::Scalar { scalar: ScalarType::Primitive(p), nullable: false })
            } else {
                Err(mismatch_at("arithmetic requires a non-null numeric primitive", node))
            }
        },
        _ => Err(mismatch_at("arithmetic requires a non-null numeric primitive", node)),
    }
}

fn coalesce_of(l: &ExpressionType, r: &ExpressionType, node: &RawExpression) -> (result: Result<ExpressionType, TypeError>)
    ensures
        match result {
            Ok(t) => coalesce_result(type_view(*l), type_view(*r), tree_of(*node)) == Ok::<TypeView, TypeErrorView>(type_view(t)),
            Err(e) => coalesce_result(type_view(*l), type_view(*r), tree_of(*node)) == Err::<TypeView, TypeErrorView>(error_view(e)),
        },
{
    match normalized_of(l) {
        None => match normalized_of(r) {
            None => Err(mismatch_at("null coalesce requires a scalar fallback", node)),
            Some((s, n)) => Ok(ExpressionType::Scalar { scalar: s, nullable: n }),
        },
        Some((ls, ln)) => {
            if !ln {
                return Err(mismatch_at("left side of `??` must be nullable", node));
            }
            match normalized_of(r) {
                None => Err(mismatch_at("right side of `??` must have a scalar type", node)),
                Some((rs, rn)) => {
                    if !scalar_eq(&ls, &rs) {
                        Err(mismatch_at("both sides of `??` must have the same semantic type", node))
                    } else {
                        Ok(ExpressionType::Scalar { scalar: ls, nullable: rn })
                    }
                },
            }
        },
    }
}

fn ordering_of(a: (ScalarType, bool), b: (ScalarType, bool), node: &RawExpression) -> (result: Result<ExpressionType, TypeError>)
    ensures
        match result {
            Ok(t) => ordering_result((scalar_view(a.0), a.1), (scalar_view(b.0), b.1), tree_of(*node)) == Ok::<TypeView, TypeErrorView>(type_view(t)),
            Err(e) => ordering_result((scalar_view(a.0), a.1), (scalar_view(b.0), b.1), tree_of(*node)) == Err::<TypeView, TypeErrorView>(error_view(e)),
        },
{
    if a.1 || b.1 {
        return Err(mismatch_at("ordering comparison does not accept nullable operands; use `??` first", node));
    }
    match (&a.0, &b.0) {
        (ScalarType::Primitive(x), ScalarType::Primitive(y)) => {
            if *x == *y && (*x == PrimitiveType::String || is_numeric(*x)) {
                Ok(plain_type(PrimitiveType::Bool))
            } else {
                Err(mismatch_at("ordering comparison is unsupported for these scalar operands", node))
            }
        },
        (ScalarType::ValueObject { name: n1, underlying: u1 }, ScalarType::ValueObject { name: n2, underlying: u2 }) => {
            if str_eq(n1.as_str(), n2.as_str()) && *u1 == *u2 {
                Ok(plain_type(PrimitiveType::Bool))
            } else {
                Err(mismatch_at("ordering comparison is unsupported for these scalar operands", node))
            }
        },
        _ => Err(mismatch_at("ordering comparison is unsupported for these scalar operands", node)),
    }
}

fn arithmetic_of(op: BinaryOperator, l: &ExpressionType, r: &ExpressionType, node: &RawExpression) -> (result: Result<ExpressionType, TypeError>)
    ensures
        match result {
            Ok(t) => arithmetic_result(op, type_view(*l), type_view(*r), tree_of(*node)) == Ok::<TypeView, TypeErrorView>(type_view(t)),
            Err(e) => arithmetic_result(op, type_view(*l), type_view(*r), tree_of(*node)) == Err::<TypeView, TypeErrorView>(error_view(e)),
        },
{
    if op == BinaryOperator::Add && is_plain(l, PrimitiveType::String) && is_plain(r, PrimitiveType::String) {
        return Ok(plain_type(PrimitiveType::String));
    }
    match (normalized_of(l), normalized_of(r)) {
        (Some(a), Some(b)) => match (&a.0, &b.0) {
            (ScalarType::Primitive(x), ScalarType::Primitive(y)) => {
                if *x == *y && is_numeric(*x) {
                    Ok(plain_type(*x))
                } else {
                    Err(mismatch_at("arithmetic operands must be the same non-null numeric primitive", node))
                }
            },
            _ => Err(mismatch_at("arithmetic operands must be the same non-null numeric primitive", node)),
        },
        _ => Err(mismatch_at("operator requires scalar operands", node)),
    }
}

fn binary_of(op: BinaryOperator, l: &ExpressionType, r: &ExpressionType, node: &RawExpression) -> (result: Result<ExpressionType, TypeError>)
    ensures
        match result {
            Ok(t) => binary_result(op, type_view(*l), type_view(*r), tree_of(*node)) == Ok::<TypeView, TypeErrorView>(type_view(t)),
            Err(e) => binary_result(op, type_view(*l), type_view(*r), tree_of(*node)) == Err::<TypeView, TypeErrorView>(error_view(e)),
        },
{
    match op {
        BinaryOperator::And | BinaryOperator::Or => {
            if !is_plain(l, PrimitiveType::Bool) || !is_plain(r, PrimitiveType::Bool) {
                Err(mismatch_at("condition and boolean operators require a non-null bool", node))
            } else {
                Ok(plain_type(PrimitiveType::Bool))
            }
        },
        BinaryOperator::Coalesce => coalesce_of(l, r, node),
        BinaryOperator::Equal | BinaryOperator::NotEqual => {
            let l_null = match l { ExpressionType::Null => true, _ => false };
            let r_null = match r { ExpressionType::Null => true, _ => false };
            if l_null || r_null {
                return Ok(plain_type(PrimitiveType::Bool));
            }
            match (normalized_of(l), normalized_of(r)) {
                (Some(a), Some(b)) => {
                    if !scalar_eq(&a.0, &b.0) {
                        Err(mismatch_at("equality operands must have the same semantic type", node))
                    } else {
                        Ok(plain_type(PrimitiveType::Bool))
                    }
                },
                _ => Err(mismatch_at("operator requires scalar operands", node)),
            }
        },
        BinaryOperator::Less | BinaryOperator::LessEqual | BinaryOperator::Greater | BinaryOperator::GreaterEqual => {
            match (normalized_of(l), normalized_of(r)) {
                (Some(a), Some(b)) => ordering_of(a, b, node),
                _ => Err(mismatch_at("operator requires scalar operands", node)),
            }
        },
        _ => arithmetic_of(op, l, r, node),
    }
}

fn merge_of(a: &ExpressionType, b: &ExpressionType, node: &RawExpression) -> (result: Result<ExpressionType, TypeError>)
    ensures
        match result {
            Ok(t) => merge_result(type_view(*a), type_view(*b), tree_of(*node)) == Ok::<TypeView, TypeErrorView>(type_view(t)),
            Err(e) => merge_result(type_view(*a), type_view(*b), tree_of(*node)) == Err::<TypeView, TypeErrorView>(error_view(e)),
        },
{
    let a_null = match a { ExpressionType::Null => true, _ => false };
    let b_null = match b { ExpressionType::Null => true, _ => false };
    if a_null {
        return match normalized_of(b) {
            None => Err(mismatch_at("conditional branch has no scalar type", node)),
            Some((s, _)) => Ok(ExpressionType::Scalar { scalar: s, nullable: true }),
        };
    }
    if b_null {
        return match normalized_of(a) {
            None => Err(mismatch_at("conditional branch has no scalar type", node)),
            Some((s, _)) => Ok(ExpressionType::Scalar { scalar: s, nullable: true }),
        };
    }
    match (normalized_of(a), normalized_of(b)) {
        (Some(x), Some(y)) => {
            if !scalar_eq(&x.0, &y.0) {
                Err(mismatch_at("conditional branches must have the same semantic type", node))
            } else {
                Ok(ExpressionType::Scalar { scalar: x.0, nullable: x.1 || y.1 })
            }
        },
        _ => Err(mismatch_at("operator requires scalar operands", node)),
    }
}


fn lookup_field(fields: &Vec<(String, Option<ExpressionType>)>, name: &str) -> (found: Option<Option<ExpressionType>>)
    ensures
        match found {
            Some(Some(t)) => lookup(fields_view(fields@), name@) == Some(Some(type_view(t))),
            Some(None) => lookup(fields_view(fields@), name@) == Some(None::<TypeView>),
            None => lookup(fields_view(fields@), name@) is None,
        },
{
    let ghost all = fields_view(fields@);
    let mut k: usize = 0;
    proof {
        assert(all.skip(0) =~= all);
    }
    while k < fields.len()
        invariant
            k <= fields@.len(),
            all == fields_view(fields@),
            lookup(all, name@) == lookup(all.skip(k as int), name@),
        decreases fields@.len() - k,
    {
        proof {
            assert(all.skip(k as int)[0] == all[k as int]);
            assert(all.skip(k as int).drop_first() =~= all.skip(k + 1));
        }
        if str_eq(fields[k].0.as_str(), name) {
            return match &fields[k].1 {
                Some(t) => Some(Some(copy_type(t))),
                None => Some(None),
            };
        }
        k = k + 1;
    }
    None
}

fn lookup_enum(enums: &Vec<(String, ScalarType)>, name: &str) -> (found: Option<ScalarType>)
    ensures
        match found {
            Some(s) => lookup(enums_view(enums@), name@) == Some(scalar_view(s)),
            None => lookup(enums_view(enums@), name@) is None,
        },
{
    let ghost all = enums_view(enums@);
    let mut k: usize = 0;
    proof {
        assert(all.skip(0) =~= all);
    }
    while k < enums.len()
        invariant
            k <= enums@.len(),
            all == enums_view(enums@),
            lookup(all, name@) == lookup(all.skip(k as int), name@),
        decreases enums@.len() - k,
    {
        proof {
            assert(all.skip(k as int)[0] == all[k as int]);
            assert(all.skip(k as int).drop_first() =~= all.skip(k + 1));
        }
        if str_eq(enums[k].0.as_str(), name) {
            return Some(copy_scalar(&enums[k].1));
        }
        k = k + 1;
    }
    None
}

pub(crate) fn quoted_message(before: &str, name: &str, after: &str) -> (message: String)
    ensures
        message@ == before@ + name@ + after@,
{
    let mut message = String::from_str(before);
    message.append(name);
    message.append(after);
    message
}

/// Type-check a syntax tree against the types of the row's fields and the
/// normal enums by name; the first error met, operands left to right.
pub fn type_check(node: &RawExpression, fields: &Vec<(String, Option<ExpressionType>)>, enums: &Vec<(String, ScalarType)>)
    -> (result: Result<ExpressionType, TypeError>)
    ensures
        match result {
            Ok(t) => type_of(tree_of(*node), fields_view(fields@), enums_view(enums@)) == Ok::<TypeView, TypeErrorView>(type_view(t)),
            Err(e) => type_of(tree_of(*node), fields_view(fields@), enums_view(enums@)) == Err::<TypeView, TypeErrorView>(error_view(e)),
        },
    decreases node,
{
    match &node.kind {
        RawExpressionKind::Null => Ok(ExpressionType::Null),
        RawExpressionKind::Bool(_) => Ok(plain_type(PrimitiveType::Bool)),
        RawExpressionKind::Integer(_) => Ok(ExpressionType::IntegerLiteral),
        RawExpressionKind::Float(_) => Ok(ExpressionType::FloatLiteral),
        RawExpressionKind::Text(_) => Ok(plain_type(PrimitiveType::String)),
        RawExpressionKind::Field(name) => match lookup_field(fields, name.as_str()) {
            None => Err(TypeError {
                code: String::from_str("E-VIEW-UNKNOWN-FIELD"),
                message: quoted_message("expression refers to unknown field `", name.as_str(), "`"),
                span: node.span,
            }),
            Some(None) => Err(TypeError {
                code: String::from_str("E-VIEW-UNSUPPORTED-OPERAND"),
                message: quoted_message("field `", name.as_str(), "` is not a supported scalar expression operand"),
                span: node.span,
            }),
            Some(Some(t)) => Ok(t),
        },
        RawExpressionKind::EnumLiteral { enum_name, member } => match lookup_enum(enums, enum_name.as_str()) {
            None => {
                let message = quoted_message("unknown normal Enum `", enum_name.as_str(), "` in enum literal");
                Err(mismatch_at(message.as_str(), node))
            },
            Some(scalar) => {
                let known = match &scalar {
                    ScalarType::Enum { members, .. } => Some(strings_contain(members, member.as_str())),
                    _ => None,
                };
                match known {
                    Some(true) => Ok(ExpressionType::Scalar { scalar, nullable: false }),
                    Some(false) => {
                        let mut message = quoted_message("Enum `", enum_name.as_str(), "` has no member `");
                        message.append(member.as_str());
                        message.append("`");
                        Err(mismatch_at(message.as_str(), node))
                    },
                    None => Err(TypeError {
                        code: String::from_str("E-VIEW-UNSUPPORTED-OPERAND"),
                        message: quoted_message("`", enum_name.as_str(), "` is not a normal Enum"),
                        span: node.span,
                    }),
                }
            },
        },
        RawExpressionKind::Unary { operator, operand } => {
            let ty = match type_check(operand, fields, enums) {
                Err(e) => {
                    return Err(e);
                },
                Ok(t) => t,
            };
            match operator {
                UnaryOperator::Not => {
                    if is_plain(&ty, PrimitiveType::Bool) {
                        Ok(plain_type(PrimitiveType::Bool))
                    } else {
                        Err(mismatch_at("condition and boolean operators require a non-null bool", node))
                    }
                },
                _ => numeric_of(ty, node),
            }
        },
        RawExpressionKind::Binary { operator, left, right } => {
            let l = match type_check(left, fields, enums) {
                Err(e) => {
                    return Err(e);
                },
                Ok(t) => t,
            };
            let r = match type_check(right, fields, enums) {
                Err(e) => {
                    return Err(e);
                },
                Ok(t) => t,
            };
            binary_of(*operator, &l, &r, node)
        },
        RawExpressionKind::Conditional { condition, when_true, when_false } => {
            let c = match type_check(condition, fields, enums) {
                Err(e) => {
                    return Err(e);
                },
                Ok(t) => t,
            };
            if !is_plain(&c, PrimitiveType::Bool) {
                return Err(mismatch_at("condition and boolean operators require a non-null bool", condition));
            }
            let a = match type_check(when_true, fields, enums) {
                Err(e) => {
                    return Err(e);
                },
                Ok(t) => t,
            };
            let b = match type_check(when_false, fields, enums) {
                Err(e) => {
                    return Err(e);
                },
                Ok(t) => t,
            };
            merge_of(&a, &b, node)
        },
    }
}


/// The type an expression has over a row: syntax errors are reported with
/// the code `E-VIEW-EXPRESSION-SYNTAX`, then the type of the tree.
pub open spec fn expression_type_of(expression: Seq<char>, fields: Seq<(Seq<char>, Option<TypeView>)>, enums: Seq<(Seq<char>, ScalarView)>) -> Result<TypeView, TypeErrorView> {
    match parse_source(expression) {
        Err(e) => Err(TypeErrorView { code: "E-VIEW-EXPRESSION-SYNTAX"@, message: e.message, start: e.start, end: e.end }),
        Ok(t) => type_of(t, fields, enums),
    }
}

/// Parse and type-check an expression over the row's fields and the normal
/// enums by name.
pub fn expression_type(expression: &str, fields: &Vec<(String, Option<ExpressionType>)>, enums: &Vec<(String, ScalarType)>)
    -> (result: Result<ExpressionType, TypeError>)
    ensures
        match result {
            Ok(t) => expression_type_of(expression@, fields_view(fields@), enums_view(enums@)) == Ok::<TypeView, TypeErrorView>(type_view(t)),
            Err(e) => expression_type_of(expression@, fields_view(fields@), enums_view(enums@)) == Err::<TypeView, TypeErrorView>(error_view(e)),
        },
{
    match parse_source_text(expression) {
        Err(failure) => Err(TypeError { code: String::from_str("E-VIEW-EXPRESSION-SYNTAX"), message: failure.message, span: failure.span }),
        Ok(root) => type_check(&root, fields, enums),
    }
}

/// The expression type of a field's values: scalar shapes only, nullable
/// when the field is; `None` for arrays, flags and custom types.
pub open spec fn shape_expression_type(shape: ResolvedAuthoringField) -> Option<TypeView> {
    let scalar = match shape.shape {
        ResolvedAuthoringType::Primitive { primitive } => Some(ScalarView::Primitive(primitive)),
        ResolvedAuthoringType::ValueObject { name, underlying } => Some(ScalarView::ValueObject(name@, underlying)),
        ResolvedAuthoringType::Enum { name, underlying, members } => Some(ScalarView::Enum(name@, underlying, members_view(members))),
        _ => None,
    };
    match scalar {
        None => None,
        Some(s) => {
            if shape.modifier is Array {
                None
            } else {
                Some(TypeView::Scalar(s, shape.modifier is Nullable))
            }
        },
    }
}

pub fn expression_type_for_shape(shape: &ResolvedAuthoringField) -> (ty: Option<ExpressionType>)
    ensures
        match ty {
            Some(t) => shape_expression_type(*shape) == Some(type_view(t)),
            None => shape_expression_type(*shape) is None,
        },
{
    let scalar = match &shape.shape {
        ResolvedAuthoringType::Primitive { primitive } => ScalarType::Primitive(*primitive),
        ResolvedAuthoringType::ValueObject { name, underlying } => ScalarType::ValueObject { name: name.clone(), underlying: *underlying },
        ResolvedAuthoringType::Enum { name, underlying, members } => {
            let copy = copy_members(members);
            proof {
                assert(members_view(copy) =~= members_view(*members));
            }
            ScalarType::Enum { name: name.clone(), underlying: *underlying, members: copy }
        },
        _ => {
            return None;
        },
    };
    if shape.modifier == FieldModifier::Array {
        return None;
    }
    Some(ExpressionType::Scalar { scalar, nullable: shape.modifier == FieldModifier::Nullable })
}

proof fn lemma_field_refs_named(t: ExprTree, field: Seq<char>)
    ensures
        forall|k: int| 0 <= k < field_refs(t, field).len() ==> (#[trigger] field_refs(t, field)[k]).kind == ExprKind::Field(field),
    decreases t,
{
    match t.kind {
        ExprKind::Unary(_, operand) => lemma_field_refs_named(*operand, field),
        ExprKind::Binary(_, left, right) => {
            lemma_field_refs_named(*left, field);
            lemma_field_refs_named(*right, field);
            let a = field_refs(*left, field);
            let b = field_refs(*right, field);
            assert forall|k: int| 0 <= k < (a + b).len() implies (#[trigger] (a + b)[k]).kind == ExprKind::Field(field) by {
                if k >= a.len() {
                    assert((a + b)[k] == b[k - a.len()]);
                }
            }
        },
        ExprKind::Conditional(condition, when_true, when_false) => {
            lemma_field_refs_named(*condition, field);
            lemma_field_refs_named(*when_true, field);
            lemma_field_refs_named(*when_false, field);
            let a = field_refs(*condition, field);
            let b = field_refs(*when_true, field);
            let c = field_refs(*when_false, field);
            assert forall|k: int| 0 <= k < (a + b).len() implies (#[trigger] (a + b)[k]).kind == ExprKind::Field(field) by {
                if k >= a.len() {
                    assert((a + b)[k] == b[k - a.len()]);
                }
            }
            assert forall|k: int| 0 <= k < (a + b + c).len() implies (#[trigger] (a + b + c)[k]).kind == ExprKind::Field(field) by {
                if k >= (a + b).len() {
                    assert((a + b + c)[k] == c[k - (a + b).len()]);
                } else {
                    assert((a + b + c)[k] == (a + b)[k]);
                }
            }
        },
        _ => {},
    }
}

/// The references to a field that span lookup and renaming use are the
/// field's own occurrences in the parsed expression: each is a field node
/// of that name spanning exactly the characters of the name, they come in
/// source order without overlap, and an expression that does not parse has
/// none.
pub proof fn law_references_spell_the_field(expression: Seq<char>, field: Seq<char>)
    ensures
        forall|k: int| 0 <= k < expression_references(expression, field).len() ==> {
            let r = #[trigger] expression_references(expression, field)[k];
            &&& r.kind == ExprKind::Field(field)
            &&& 0 <= r.first < r.last <= expression.len()
            &&& expression.subrange(r.first, r.last) == field
        },
        forall|k: int, m: int| 0 <= k < m < expression_references(expression, field).len()
            ==> (#[trigger] expression_references(expression, field)[k]).last
                <= (#[trigger] expression_references(expression, field)[m]).first,
        parse_source(expression) is Err ==> expression_references(expression, field).len() == 0,
{
    lemma_source_refs(expression, field);
    if let Ok(t) = parse_source(expression) {
        lemma_field_refs_named(t, field);
        let refs = field_refs(t, field);
        assert forall|k: int| 0 <= k < refs.len() implies {
            let r = #[trigger] refs[k];
            &&& r.kind == ExprKind::Field(field)
            &&& 0 <= r.first < r.last <= expression.len()
            &&& expression.subrange(r.first, r.last) == field
        } by {
            assert(refs[k].kind matches ExprKind::Field(name) && name == expression.subrange(refs[k].first, refs[k].last));
        }
    }
}

/// Whether a checked type admits null: the type of `null`, or a nullable
/// scalar.
pub open spec fn admits_null(ty: TypeView) -> bool {
    ty is Null || ty matches TypeView::Scalar(_, true)
}

/// A conditional that type-checks is typed as a scalar that admits null
/// exactly when one of its branches does: a branch that can yield null
/// makes the conditional nullable, two required branches keep it
/// required, and the scalar is the one both branches share.
pub proof fn law_conditionals_admit_null_of_either_branch(
    t: ExprTree,
    c: ExprTree,
    a: ExprTree,
    b: ExprTree,
    fields: Seq<(Seq<char>, Option<TypeView>)>,
    enums: Seq<(Seq<char>, ScalarView)>,
    ta: TypeView,
    tb: TypeView,
    result: TypeView,
)
    requires
        t.kind == ExprKind::Conditional(Box::new(c), Box::new(a), Box::new(b)),
        type_of(a, fields, enums) == Ok::<TypeView, TypeErrorView>(ta),
        type_of(b, fields, enums) == Ok::<TypeView, TypeErrorView>(tb),
        type_of(t, fields, enums) == Ok::<TypeView, TypeErrorView>(result),
    ensures
        result is Scalar,
        admits_null(result) <==> (admits_null(ta) || admits_null(tb)),
        !(ta is Null) ==> (normalized(ta)->0).0 == (normalized(result)->0).0,
        !(tb is Null) ==> (normalized(tb)->0).0 == (normalized(result)->0).0,
{
}

} // verus!
