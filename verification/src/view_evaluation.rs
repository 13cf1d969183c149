//! Row evaluation of a type-checked Computed View expression.
//!
//! Integer arithmetic is checked against the range of its primitive,
//! comparisons go by the operand type, and every problem of one row
//! becomes that row's diagnostic.  Arithmetic and ordering of `float` and
//! `double` values are supplied by the caller, since the library holds no
//! floating-point numbers; the contracts are stated for any spec functions
//! that the supplied closures implement.

use vstd::prelude::*;
use crate::authoring_query::{int_order, Comparison};
use crate::authoring_value::AuthoringValue;
use crate::computed_view::{
    is_numeric, is_numeric_primitive, normalized, normalized_of, type_check, type_of, type_view,
    ExpressionType, ScalarType, ScalarView, TypeView,
};
use crate::error::{Diagnostic, DiagnosticView, ErrorKind};
use crate::expression::{tree_of, BinaryOperator, ExprKind, ExprTree, RawExpression, RawExpressionKind, UnaryOperator};
use crate::numeric::{
    decimal_i128, decimal_text, decimal_u128, f64_text_finite, f64_text_is_finite, i128_text_value, parse_i128,
    parse_u128, signed_decimal_text, u128_text_value,
};
use crate::text::{chars_of, str_eq};
use crate::text_order::{text_less, text_lt};
use crate::type_system::{
    primitive_name, spec_integer_range, spec_is_integer, FieldModifier, PrimitiveType, ResolvedAuthoringField,
    ResolvedAuthoringType,
};
use crate::text_order::{strictly_ascending, texts, union_ascending};
use crate::expression::{parse_source, parse_source_text};
use crate::computed_view::{enums_view, fields_view};

verus! {

/// An evaluated scalar.
pub enum RowValue {
    Null,
    Bool(bool),
    Number(Seq<char>),
    Text(Seq<char>),
}

/// Why a row could not be evaluated: arithmetic or another row problem,
/// the message and the byte position of the node.
pub struct Failure {
    pub arithmetic: bool,
    pub message: Seq<char>,
    pub start: int,
}

/// What evaluation reads: the field types and normal enums the expression
/// was checked against, the row's values by field name, and the `float` /
/// `double` arithmetic and ordering.
pub struct Row {
    pub fields: Seq<(Seq<char>, Option<TypeView>)>,
    pub enums: Seq<(Seq<char>, ScalarView)>,
    pub values: Seq<(String, AuthoringValue)>,
    pub float_arithmetic: spec_fn(Seq<char>, Seq<char>, BinaryOperator, bool) -> Result<Seq<char>, Seq<char>>,
    pub float_order: spec_fn(Seq<char>, Seq<char>, bool) -> Option<Comparison>,
}

pub open spec fn row_failure(message: Seq<char>, t: ExprTree) -> Failure {
    Failure { arithmetic: false, message, start: t.start }
}

pub open spec fn arithmetic_failure(message: Seq<char>, t: ExprTree) -> Failure {
    Failure { arithmetic: true, message, start: t.start }
}

/// The checked type of a node (`null` where it has none).
pub open spec fn node_type(t: ExprTree, row: Row) -> TypeView {
    match type_of(t, row.fields, row.enums) {
        Ok(ty) => ty,
        Err(_) => TypeView::Null,
    }
}

/// The first value of the row for `name`.
pub open spec fn row_lookup(values: Seq<(String, AuthoringValue)>, name: Seq<char>) -> Option<AuthoringValue>
    decreases values.len(),
{
    if values.len() == 0 {
        None
    } else if values[0].0@ == name {
        Some(values[0].1)
    } else {
        row_lookup(values.drop_first(), name)
    }
}

/// A value that a primitive's values take.
pub open spec fn primitive_fits(p: PrimitiveType, v: AuthoringValue) -> bool {
    match v {
        AuthoringValue::Bool { .. } => p is Bool,
        AuthoringValue::String { .. } => p is String,
        AuthoringValue::Number { value } => {
            if spec_is_integer(p) {
                match (i128_text_value(value@), spec_integer_range(p)) {
                    (Some(n), Some((low, high))) => low <= n <= high,
                    _ => false,
                }
            } else if p is Float || p is Double {
                f64_text_is_finite(value@)
            } else {
                false
            }
        },
        _ => false,
    }
}

/// Whether a non-null source value has the runtime shape of a type.
pub open spec fn value_fits(ty: TypeView, v: AuthoringValue) -> bool {
    match ty {
        TypeView::Scalar(scalar, _) => match scalar {
            ScalarView::Primitive(p) => primitive_fits(p, v),
            ScalarView::ValueObject(_, underlying) => primitive_fits(underlying, v),
            ScalarView::Enum(_, _, members) => v matches AuthoringValue::String { value } && members.contains(value@),
        },
        _ => false,
    }
}

/// The scalar an authoring value holds.
pub open spec fn value_of(v: AuthoringValue) -> RowValue {
    match v {
        AuthoringValue::Bool { value } => RowValue::Bool(value),
        AuthoringValue::Number { value } => RowValue::Number(value@),
        AuthoringValue::String { value } => RowValue::Text(value@),
        _ => RowValue::Null,
    }
}

pub open spec fn is_scalar_value(v: AuthoringValue) -> bool {
    v is Null || v is Bool || v is Number || v is String
}

/// A source field's value for a node of type `ty`.
pub open spec fn field_value(name: Seq<char>, t: ExprTree, row: Row) -> Result<RowValue, Failure> {
    match row_lookup(row.values, name) {
        None => Err(row_failure("source field `"@ + name + "` is unavailable for this record"@, t)),
        Some(v) => match v {
            AuthoringValue::Invalid { diagnostic } => Err(row_failure(
                "source field `"@ + name + "` is invalid: "@ + diagnostic.message@,
                t,
            )),
            _ => {
                if v is Null && (node_type(t, row) matches TypeView::Scalar(_, nullable) && !nullable) {
                    Err(row_failure("required source field `"@ + name + "` is null"@, t))
                } else if !(v is Null) && !value_fits(node_type(t, row), v) {
                    Err(row_failure("source field `"@ + name + "` has an invalid value shape"@, t))
                } else {
                    Ok(value_of(v))
                }
            },
        },
    }
}

/// Checked arithmetic of `i128` values (`i128::checked_*`).
pub open spec fn signed_operation(x: i128, y: i128, op: BinaryOperator) -> Option<i128> {
    match op {
        BinaryOperator::Add => x.checked_add(y),
        BinaryOperator::Subtract => x.checked_sub(y),
        BinaryOperator::Multiply => x.checked_mul(y),
        BinaryOperator::Divide => if y == 0 { None } else { x.checked_div(y) },
        BinaryOperator::Remainder => if y == 0 { None } else { x.checked_rem(y) },
        _ => None,
    }
}

/// Checked arithmetic of `u128` values (`u128::checked_*`).
pub open spec fn unsigned_operation(x: u128, y: u128, op: BinaryOperator) -> Option<u128> {
    match op {
        BinaryOperator::Add => x.checked_add(y),
        BinaryOperator::Subtract => x.checked_sub(y),
        BinaryOperator::Multiply => x.checked_mul(y),
        BinaryOperator::Divide => if y == 0 { None } else { x.checked_div(y) },
        BinaryOperator::Remainder => if y == 0 { None } else { x.checked_rem(y) },
        _ => None,
    }
}

/// Signed integer arithmetic whose result must lie in `low..=high`.
pub open spec fn checked_signed(a: Seq<char>, b: Seq<char>, op: BinaryOperator, low: int, high: int) -> Result<Seq<char>, Seq<char>> {
    match (i128_text_value(a), i128_text_value(b)) {
        (Some(x), Some(y)) => match signed_operation(x as i128, y as i128, op) {
            None => Err("integer arithmetic overflow or division by zero"@),
            Some(r) => if low <= r <= high {
                Ok(signed_decimal_text(r as int))
            } else {
                Err("integer arithmetic overflow"@)
            },
        },
        _ => Err("invalid signed integer source value"@),
    }
}

/// Unsigned integer arithmetic whose result must not exceed `high`.
pub open spec fn checked_unsigned(a: Seq<char>, b: Seq<char>, op: BinaryOperator, high: int) -> Result<Seq<char>, Seq<char>> {
    match (u128_text_value(a), u128_text_value(b)) {
        (Some(x), Some(y)) => match unsigned_operation(x as u128, y as u128, op) {
            None => Err("unsigned arithmetic overflow or division by zero"@),
            Some(r) => if r <= high {
                Ok(decimal_text(r as nat))
            } else {
                Err("unsigned arithmetic overflow"@)
            },
        },
        _ => Err("invalid unsigned integer source value"@),
    }
}

/// The arithmetic of one numeric primitive.
pub open spec fn primitive_arithmetic(p: PrimitiveType, a: Seq<char>, b: Seq<char>, op: BinaryOperator, row: Row) -> Result<Seq<char>, Seq<char>> {
    match p {
        PrimitiveType::Int => checked_signed(a, b, op, i32::MIN as int, i32::MAX as int),
        PrimitiveType::Long => checked_signed(a, b, op, i64::MIN as int, i64::MAX as int),
        PrimitiveType::UInt => checked_unsigned(a, b, op, u32::MAX as int),
        PrimitiveType::ULong => checked_unsigned(a, b, op, u64::MAX as int),
        PrimitiveType::Float => (row.float_arithmetic)(a, b, op, true),
        PrimitiveType::Double => (row.float_arithmetic)(a, b, op, false),
        _ => Err("unsupported numeric primitive"@),
    }
}

/// A numeric operation on two values of the primitive `primitive`.
pub open spec fn numeric_value(left: RowValue, right: RowValue, primitive: Option<PrimitiveType>, op: BinaryOperator, t: ExprTree, row: Row) -> Result<RowValue, Failure> {
    match primitive {
        None => Err(arithmetic_failure("numeric operation has no numeric type"@, t)),
        Some(p) => match (left, right) {
            (RowValue::Number(a), RowValue::Number(b)) => match primitive_arithmetic(p, a, b, op, row) {
                Ok(s) => Ok(RowValue::Number(s)),
                Err(m) => Err(arithmetic_failure(m, t)),
            },
            _ => Err(arithmetic_failure("numeric operation received null or a non-numeric value"@, t)),
        },
    }
}

/// The shared numeric primitive of two operand types.
pub open spec fn numeric_primitive(left: TypeView, right: TypeView) -> Option<PrimitiveType> {
    match (normalized(left), normalized(right)) {
        (Some((ScalarView::Primitive(p), _)), Some((ScalarView::Primitive(q), _))) => {
            if p == q && is_numeric_primitive(p) {
                Some(p)
            } else {
                None
            }
        },
        _ => None,
    }
}

/// The order of texts (`Ord` on `String`).
pub open spec fn text_order(a: Seq<char>, b: Seq<char>) -> Comparison {
    if a == b {
        Comparison::Equal
    } else if text_lt(a, b) {
        Comparison::Less
    } else {
        Comparison::Greater
    }
}

pub open spec fn texts_order(left: RowValue, right: RowValue) -> Option<Comparison> {
    match (left, right) {
        (RowValue::Text(a), RowValue::Text(b)) => Some(text_order(a, b)),
        _ => None,
    }
}

/// How two values of the left operand's type are ordered, where they are.
pub open spec fn compare_values(left: RowValue, right: RowValue, ty: TypeView, row: Row) -> Option<Comparison> {
    match normalized(ty) {
        None => None,
        Some((scalar, _)) => match scalar {
            ScalarView::Primitive(p) => {
                if is_numeric_primitive(p) {
                    match (left, right) {
                        (RowValue::Number(a), RowValue::Number(b)) => {
                            if p is Int || p is Long {
                                match (i128_text_value(a), i128_text_value(b)) {
                                    (Some(x), Some(y)) => Some(int_order(x, y)),
                                    _ => None,
                                }
                            } else if p is UInt || p is ULong {
                                match (u128_text_value(a), u128_text_value(b)) {
                                    (Some(x), Some(y)) => Some(int_order(x, y)),
                                    _ => None,
                                }
                            } else if p is Float {
                                (row.float_order)(a, b, true)
                            } else {
                                (row.float_order)(a, b, false)
                            }
                        },
                        _ => None,
                    }
                } else if p is String {
                    texts_order(left, right)
                } else {
                    None
                }
            },
            ScalarView::ValueObject(_, underlying) => {
                if underlying is String {
                    texts_order(left, right)
                } else {
                    None
                }
            },
            ScalarView::Enum(..) => None,
        },
    }
}

pub open spec fn ordering_holds(op: BinaryOperator, order: Comparison) -> bool {
    match op {
        BinaryOperator::Less => order is Less,
        BinaryOperator::LessEqual => !(order is Greater),
        BinaryOperator::Greater => order is Greater,
        _ => !(order is Less),
    }
}

/// `==` of evaluated values: `null` equals only `null`.
pub open spec fn values_equal(left: RowValue, right: RowValue) -> bool {
    match (left, right) {
        (RowValue::Null, RowValue::Null) => true,
        (RowValue::Null, _) => false,
        (_, RowValue::Null) => false,
        _ => left == right,
    }
}

/// Whether the left operand alone decides a binary operation.
pub open spec fn decided_by_left(op: BinaryOperator, left: RowValue) -> bool {
    ||| op is And && left == RowValue::Bool(false)
    ||| op is Or && left == RowValue::Bool(true)
    ||| op is Coalesce && !(left is Null)
}

/// A binary operation on both evaluated operands.
pub open spec fn binary_value(op: BinaryOperator, left: RowValue, right: RowValue, l: ExprTree, r: ExprTree, t: ExprTree, row: Row) -> Result<RowValue, Failure> {
    match op {
        BinaryOperator::Coalesce => Ok(right),
        BinaryOperator::And | BinaryOperator::Or => match (left, right) {
            (RowValue::Bool(a), RowValue::Bool(b)) => Ok(RowValue::Bool(if op is And { a && b } else { a || b })),
            _ => Err(row_failure("boolean operation received null or a non-bool value"@, t)),
        },
        BinaryOperator::Equal => Ok(RowValue::Bool(values_equal(left, right))),
        BinaryOperator::NotEqual => Ok(RowValue::Bool(!values_equal(left, right))),
        BinaryOperator::Less | BinaryOperator::LessEqual | BinaryOperator::Greater | BinaryOperator::GreaterEqual => {
            if left is Null || right is Null {
                Err(row_failure("ordering comparison received null; use `??` first"@, t))
            } else {
                match compare_values(left, right, node_type(l, row), row) {
                    None => Err(row_failure("ordering comparison could not compare these values"@, t)),
                    Some(order) => Ok(RowValue::Bool(ordering_holds(op, order))),
                }
            }
        },
        BinaryOperator::Add => {
            if node_type(l, row) matches TypeView::Scalar(ScalarView::Primitive(PrimitiveType::String), _) {
                match (left, right) {
                    (RowValue::Text(a), RowValue::Text(b)) => Ok(RowValue::Text(a + b)),
                    _ => Err(row_failure("string composition received a null or non-string value"@, t)),
                }
            } else {
                numeric_value(left, right, numeric_primitive(node_type(l, row), node_type(r, row)), op, t, row)
            }
        },
        _ => numeric_value(left, right, numeric_primitive(node_type(l, row), node_type(r, row)), op, t, row),
    }
}

/// A unary operation on its evaluated operand.
pub open spec fn unary_value(op: UnaryOperator, v: RowValue, t: ExprTree, row: Row) -> Result<RowValue, Failure> {
    match op {
        UnaryOperator::Not => match v {
            RowValue::Bool(b) => Ok(RowValue::Bool(!b)),
            RowValue::Null => Err(row_failure("boolean negation received null"@, t)),
            _ => Err(row_failure("boolean negation received a non-bool value"@, t)),
        },
        UnaryOperator::Plus => Ok(v),
        UnaryOperator::Minus => match normalized(node_type(t, row)) {
            Some((ScalarView::Primitive(p), _)) => {
                if is_numeric_primitive(p) {
                    numeric_value(RowValue::Number(seq!['0']), v, Some(p), BinaryOperator::Subtract, t, row)
                } else {
                    Err(arithmetic_failure("unary numeric operation has no numeric type"@, t))
                }
            },
            _ => Err(arithmetic_failure("unary numeric operation has no numeric type"@, t)),
        },
    }
}

/// The value of a checked expression for one row: operands left to right,
/// `&&`, `||` and `??` deciding by the left operand where they can, the
/// first failure met.
pub open spec fn evaluate(t: ExprTree, row: Row) -> Result<RowValue, Failure>
    decreases t,
{
    match t.kind {
        ExprKind::Null => Ok(RowValue::Null),
        ExprKind::Bool(b) => Ok(RowValue::Bool(b)),
        ExprKind::Integer(text) => {
            if (i128_text_value(text) matches Some(n) && i32::MIN <= n <= i32::MAX) {
                Ok(RowValue::Number(text))
            } else {
                Err(arithmetic_failure("integer literal is outside the v1 int range"@, t))
            }
        },
        ExprKind::Float(text) => {
            if f64_text_is_finite(text) {
                Ok(RowValue::Number(text))
            } else {
                Err(arithmetic_failure("floating literal is not finite"@, t))
            }
        },
        ExprKind::Text(s) => Ok(RowValue::Text(s)),
        ExprKind::Field(name) => field_value(name, t, row),
        ExprKind::EnumLiteral(_, member) => Ok(RowValue::Text(member)),
        ExprKind::Unary(op, operand) => match evaluate(*operand, row) {
            Err(e) => Err(e),
            Ok(v) => unary_value(op, v, t, row),
        },
        ExprKind::Binary(op, l, r) => match evaluate(*l, row) {
            Err(e) => Err(e),
            Ok(lv) => {
                if decided_by_left(op, lv) {
                    Ok(if op is And { RowValue::Bool(false) } else if op is Or { RowValue::Bool(true) } else { lv })
                } else {
                    match evaluate(*r, row) {
                        Err(e) => Err(e),
                        Ok(rv) => binary_value(op, lv, rv, *l, *r, t, row),
                    }
                }
            },
        },
        ExprKind::Conditional(condition, when_true, when_false) => match evaluate(*condition, row) {
            Err(e) => Err(e),
            Ok(RowValue::Bool(true)) => evaluate(*when_true, row),
            Ok(RowValue::Bool(false)) => evaluate(*when_false, row),
            Ok(_) => Err(row_failure("conditional condition was not a non-null bool"@, t)),
        },
    }
}

/// The column of a diagnostic at byte position `start`.
pub open spec fn column_at(start: int) -> usize {
    if start < usize::MAX {
        (start + 1) as usize
    } else {
        usize::MAX
    }
}

/// The diagnostic of a row that could not be evaluated.
pub open spec fn failure_diagnostic(f: Failure, source: Seq<char>, record_index: usize) -> DiagnosticView {
    DiagnosticView {
        code: if f.arithmetic { "E-VIEW-ARITHMETIC"@ } else { "E-VIEW-ROW-EVALUATION"@ },
        kind: ErrorKind::Validation,
        message: f.message,
        source: Some(source),
        line: Some(1usize),
        column: Some(column_at(f.start)),
        schema_path: None,
        record_identity: Some("record["@ + decimal_text(record_index as nat) + "]"@),
        suggestion: None,
        related_requirements: seq!["ADV-VIEW-003"@],
    }
}

// ---------------------------------------------------------------------------
// Executable parts

/// The text of an arithmetic outcome.
pub open spec fn outcome_text(out: Result<String, String>) -> Result<Seq<char>, Seq<char>> {
    match out {
        Ok(s) => Ok(s@),
        Err(m) => Err(m@),
    }
}

/// The closure computes `f` on every input.
pub open spec fn arithmetic_implemented<A: Fn(&str, &str, BinaryOperator, bool) -> Result<String, String>>(
    arith: A,
    f: spec_fn(Seq<char>, Seq<char>, BinaryOperator, bool) -> Result<Seq<char>, Seq<char>>,
) -> bool {
    forall|a: &str, b: &str, op: BinaryOperator, single: bool, out: Result<String, String>|
        #[trigger] call_ensures(arith, (a, b, op, single), out) ==> outcome_text(out) == f(a@, b@, op, single)
}

/// The closure computes `f` on every input.
pub open spec fn order_implemented<C: Fn(&str, &str, bool) -> Option<Comparison>>(
    order: C,
    f: spec_fn(Seq<char>, Seq<char>, bool) -> Option<Comparison>,
) -> bool {
    forall|a: &str, b: &str, single: bool, out: Option<Comparison>|
        #[trigger] call_ensures(order, (a, b, single), out) ==> out == f(a@, b@, single)
}

pub open spec fn checked_type(node: RawExpression, fields: Seq<(String, Option<ExpressionType>)>, enums: Seq<(String, ScalarType)>) -> TypeView {
    match type_of(tree_of(node), crate::computed_view::fields_view(fields), crate::computed_view::enums_view(enums)) {
        Ok(ty) => ty,
        Err(_) => TypeView::Null,
    }
}

fn node_type_of(node: &RawExpression, fields: &Vec<(String, Option<ExpressionType>)>, enums: &Vec<(String, ScalarType)>) -> (ty: ExpressionType)
    ensures
        type_view(ty) == checked_type(*node, fields@, enums@),
{
    match type_check(node, fields, enums) {
        Ok(ty) => ty,
        Err(_) => ExpressionType::Null,
    }
}

fn lookup_row_value(values: &Vec<(String, AuthoringValue)>, name: &str) -> (found: Option<usize>)
    ensures
        match found {
            Some(i) => i < values@.len() && row_lookup(values@, name@) == Some(values@[i as int].1),
            None => row_lookup(values@, name@) is None,
        },
{
    let mut i: usize = 0;
    proof {
        assert(values@.skip(0) =~= values@);
    }
    while i < values.len()
        invariant
            i <= values@.len(),
            row_lookup(values@, name@) == row_lookup(values@.skip(i as int), name@),
        decreases values@.len() - i,
    {
        proof {
            assert(values@.skip(i as int).drop_first() =~= values@.skip(i + 1));
            assert(values@.skip(i as int)[0] == values@[i as int]);
        }
        if str_eq(values[i].0.as_str(), name) {
            return Some(i);
        }
        i = i + 1;
    }
    None
}

fn primitive_fits_value(p: PrimitiveType, v: &AuthoringValue) -> (fits: bool)
    ensures
        fits == primitive_fits(p, *v),
{
    match v {
        AuthoringValue::Bool { .. } => p == PrimitiveType::Bool,
        AuthoringValue::String { .. } => p == PrimitiveType::String,
        AuthoringValue::Number { value } => {
            let chars = chars_of(value.as_str());
            if p.is_integer() {
                match (parse_i128(chars.as_slice()), p.integer_range()) {
                    (Some(n), Some((low, high))) => low <= n && n <= high,
                    (None, _) => false,
                    (Some(_), None) => false,
                }
            } else if p == PrimitiveType::Float || p == PrimitiveType::Double {
                f64_text_finite(chars.as_slice())
            } else {
                false
            }
        },
        _ => false,
    }
}

fn value_fits_type(ty: &ExpressionType, v: &AuthoringValue) -> (fits: bool)
    ensures
        fits == value_fits(type_view(*ty), *v),
{
    match ty {
        ExpressionType::Scalar { scalar, .. } => match scalar {
            ScalarType::Primitive(p) => primitive_fits_value(*p, v),
            ScalarType::ValueObject { underlying, .. } => primitive_fits_value(*underlying, v),
            ScalarType::Enum { members, .. } => match v {
                AuthoringValue::String { value } => {
                    let found = crate::text::strings_contain(members, value.as_str());
                    proof {
                        assert(crate::computed_view::members_view(*members).contains(value@) == members.deep_view().contains(value@));
                    }
                    found
                },
                _ => false,
            },
        },
        _ => false,
    }
}

fn scalar_copy(v: &AuthoringValue) -> (copy: AuthoringValue)
    requires
        is_scalar_value(*v),
    ensures
        is_scalar_value(copy),
        value_of(copy) == value_of(*v),
{
    match v {
        AuthoringValue::Bool { value } => AuthoringValue::Bool { value: *value },
        AuthoringValue::Number { value } => AuthoringValue::Number { value: value.clone() },
        AuthoringValue::String { value } => AuthoringValue::String { value: value.clone() },
        _ => AuthoringValue::Null,
    }
}

fn signed_operation_of(x: i128, y: i128, op: BinaryOperator) -> (result: Option<i128>)
    ensures
        result == signed_operation(x, y, op),
{
    match op {
        BinaryOperator::Add => x.checked_add(y),
        BinaryOperator::Subtract => x.checked_sub(y),
        BinaryOperator::Multiply => x.checked_mul(y),
        BinaryOperator::Divide => if y == 0 { None } else { x.checked_div(y) },
        BinaryOperator::Remainder => if y == 0 { None } else { x.checked_rem(y) },
        _ => None,
    }
}

fn unsigned_operation_of(x: u128, y: u128, op: BinaryOperator) -> (result: Option<u128>)
    ensures
        result == unsigned_operation(x, y, op),
{
    match op {
        BinaryOperator::Add => x.checked_add(y),
        BinaryOperator::Subtract => x.checked_sub(y),
        BinaryOperator::Multiply => x.checked_mul(y),
        BinaryOperator::Divide => if y == 0 { None } else { x.checked_div(y) },
        BinaryOperator::Remainder => if y == 0 { None } else { x.checked_rem(y) },
        _ => None,
    }
}

fn checked_signed_text(a: &str, b: &str, op: BinaryOperator, low: i128, high: i128) -> (result: Result<String, String>)
    ensures
        outcome_text(result) == checked_signed(a@, b@, op, low as int, high as int),
{
    let x = parse_i128(chars_of(a).as_slice());
    let y = parse_i128(chars_of(b).as_slice());
    match (x, y) {
        (Some(x), Some(y)) => match signed_operation_of(x, y, op) {
            None => Err(String::from_str("integer arithmetic overflow or division by zero")),
            Some(r) => if low <= r && r <= high {
                Ok(decimal_i128(r))
            } else {
                Err(String::from_str("integer arithmetic overflow"))
            },
        },
        _ => Err(String::from_str("invalid signed integer source value")),
    }
}

fn checked_unsigned_text(a: &str, b: &str, op: BinaryOperator, high: u128) -> (result: Result<String, String>)
    ensures
        outcome_text(result) == checked_unsigned(a@, b@, op, high as int),
{
    let x = parse_u128(chars_of(a).as_slice());
    let y = parse_u128(chars_of(b).as_slice());
    match (x, y) {
        (Some(x), Some(y)) => match unsigned_operation_of(x, y, op) {
            None => Err(String::from_str("unsigned arithmetic overflow or division by zero")),
            Some(r) => if r <= high {
                Ok(decimal_u128(r))
            } else {
                Err(String::from_str("unsigned arithmetic overflow"))
            },
        },
        _ => Err(String::from_str("invalid unsigned integer source value")),
    }
}

/// A row problem met while evaluating.
pub struct RowError {
    pub arithmetic: bool,
    pub message: String,
    pub start: usize,
}

pub open spec fn outcome(result: Result<AuthoringValue, RowError>) -> Result<RowValue, Failure> {
    match result {
        Ok(v) => Ok(value_of(v)),
        Err(e) => Err(Failure { arithmetic: e.arithmetic, message: e.message@, start: e.start as int }),
    }
}

pub open spec fn scalar_outcome(result: Result<AuthoringValue, RowError>) -> bool {
    result matches Ok(v) ==> is_scalar_value(v)
}

pub open spec fn arithmetic_total<A: Fn(&str, &str, BinaryOperator, bool) -> Result<String, String>>(arith: A) -> bool {
    forall|a: &str, b: &str, op: BinaryOperator, single: bool| #[trigger] arith.requires((a, b, op, single))
}

pub open spec fn order_total<C: Fn(&str, &str, bool) -> Option<Comparison>>(order: C) -> bool {
    forall|a: &str, b: &str, single: bool| #[trigger] order.requires((a, b, single))
}

/// The row an evaluation reads.
pub open spec fn row_of(
    fields: Seq<(String, Option<ExpressionType>)>,
    enums: Seq<(String, ScalarType)>,
    values: Seq<(String, AuthoringValue)>,
    float_arithmetic: spec_fn(Seq<char>, Seq<char>, BinaryOperator, bool) -> Result<Seq<char>, Seq<char>>,
    float_order: spec_fn(Seq<char>, Seq<char>, bool) -> Option<Comparison>,
) -> Row {
    Row {
        fields: crate::computed_view::fields_view(fields),
        enums: crate::computed_view::enums_view(enums),
        values,
        float_arithmetic,
        float_order,
    }
}

fn row_error(arithmetic: bool, message: &str, start: usize) -> (e: RowError)
    ensures
        e.arithmetic == arithmetic,
        e.message@ == message@,
        e.start == start,
{
    RowError { arithmetic, message: String::from_str(message), start }
}

fn quoted_field(before: &str, name: &str, after: &str) -> (message: String)
    ensures
        message@ == before@ + name@ + after@,
{
    let mut message = String::from_str(before);
    message.append(name);
    message.append(after);
    message
}

fn primitive_arithmetic_text<A>(p: PrimitiveType, a: &str, b: &str, op: BinaryOperator, arith: &A) -> (result: Result<String, String>)
    where
        A: Fn(&str, &str, BinaryOperator, bool) -> Result<String, String>,
    requires
        arithmetic_total(*arith),
    ensures
        forall|row: Row| arithmetic_implemented(*arith, row.float_arithmetic) ==>
            outcome_text(result) == #[trigger] primitive_arithmetic(p, a@, b@, op, row),
{
    match p {
        PrimitiveType::Int => checked_signed_text(a, b, op, i32::MIN as i128, i32::MAX as i128),
        PrimitiveType::Long => checked_signed_text(a, b, op, i64::MIN as i128, i64::MAX as i128),
        PrimitiveType::UInt => checked_unsigned_text(a, b, op, u32::MAX as u128),
        PrimitiveType::ULong => checked_unsigned_text(a, b, op, u64::MAX as u128),
        PrimitiveType::Float => {
            assert(arith.requires((a, b, op, true)));
            arith(a, b, op, true)
        },
        PrimitiveType::Double => {
            assert(arith.requires((a, b, op, false)));
            arith(a, b, op, false)
        },
        _ => Err(String::from_str("unsupported numeric primitive")),
    }
}

fn numeric_value_of<A>(
    left: &AuthoringValue,
    right: &AuthoringValue,
    primitive: Option<PrimitiveType>,
    op: BinaryOperator,
    start: usize,
    arith: &A,
) -> (result: Result<AuthoringValue, RowError>)
    where
        A: Fn(&str, &str, BinaryOperator, bool) -> Result<String, String>,
    requires
        arithmetic_total(*arith),
    ensures
        scalar_outcome(result),
        forall|row: Row, t: ExprTree| t.start == start && arithmetic_implemented(*arith, row.float_arithmetic) ==>
            outcome(result) == #[trigger] numeric_value(value_of(*left), value_of(*right), primitive, op, t, row),
{
    match primitive {
        None => Err(row_error(true, "numeric operation has no numeric type", start)),
        Some(p) => match (left, right) {
            (AuthoringValue::Number { value: a }, AuthoringValue::Number { value: b }) => {
                match primitive_arithmetic_text(p, a.as_str(), b.as_str(), op, arith) {
                    Ok(text) => Ok(AuthoringValue::Number { value: text }),
                    Err(message) => Err(RowError { arithmetic: true, message, start }),
                }
            },
            _ => Err(row_error(true, "numeric operation received null or a non-numeric value", start)),
        },
    }
}

/// The text order of two strings.
fn text_order_of(a: &str, b: &str) -> (order: Comparison)
    ensures
        order == text_order(a@, b@),
{
    if str_eq(a, b) {
        Comparison::Equal
    } else if text_less(a, b) {
        Comparison::Less
    } else {
        Comparison::Greater
    }
}

fn texts_order_of(left: &AuthoringValue, right: &AuthoringValue) -> (order: Option<Comparison>)
    requires
        is_scalar_value(*left),
        is_scalar_value(*right),
    ensures
        order == texts_order(value_of(*left), value_of(*right)),
{
    match (left, right) {
        (AuthoringValue::String { value: a }, AuthoringValue::String { value: b }) => Some(text_order_of(a.as_str(), b.as_str())),
        _ => None,
    }
}

fn int_order_of(x: i128, y: i128) -> (order: Comparison)
    ensures
        order == int_order(x as int, y as int),
{
    if x < y {
        Comparison::Less
    } else if x == y {
        Comparison::Equal
    } else {
        Comparison::Greater
    }
}

fn uint_order_of(x: u128, y: u128) -> (order: Comparison)
    ensures
        order == int_order(x as int, y as int),
{
    if x < y {
        Comparison::Less
    } else if x == y {
        Comparison::Equal
    } else {
        Comparison::Greater
    }
}

fn compare_values_of<C>(left: &AuthoringValue, right: &AuthoringValue, ty: &ExpressionType, order: &C) -> (result: Option<Comparison>)
    where
        C: Fn(&str, &str, bool) -> Option<Comparison>,
    requires
        is_scalar_value(*left),
        is_scalar_value(*right),
        order_total(*order),
    ensures
        forall|row: Row| order_implemented(*order, row.float_order) ==>
            result == #[trigger] compare_values(value_of(*left), value_of(*right), type_view(*ty), row),
{
    match normalized_of(ty) {
        None => None,
        Some((scalar, _)) => match scalar {
            ScalarType::Primitive(p) => {
                if is_numeric(p) {
                    match (left, right) {
                        (AuthoringValue::Number { value: a }, AuthoringValue::Number { value: b }) => {
                            if p == PrimitiveType::Int || p == PrimitiveType::Long {
                                match (parse_i128(chars_of(a.as_str()).as_slice()), parse_i128(chars_of(b.as_str()).as_slice())) {
                                    (Some(x), Some(y)) => Some(int_order_of(x, y)),
                                    _ => None,
                                }
                            } else if p == PrimitiveType::UInt || p == PrimitiveType::ULong {
                                match (parse_u128(chars_of(a.as_str()).as_slice()), parse_u128(chars_of(b.as_str()).as_slice())) {
                                    (Some(x), Some(y)) => Some(uint_order_of(x, y)),
                                    _ => None,
                                }
                            } else {
                                let x = a.as_str();
                                let y = b.as_str();
                                let single = p == PrimitiveType::Float;
                                assert(order.requires((x, y, single)));
                                order(x, y, single)
                            }
                        },
                        _ => None,
                    }
                } else if p == PrimitiveType::String {
                    texts_order_of(left, right)
                } else {
                    None
                }
            },
            ScalarType::ValueObject { underlying, .. } => {
                if underlying == PrimitiveType::String {
                    texts_order_of(left, right)
                } else {
                    None
                }
            },
            ScalarType::Enum { .. } => None,
        },
    }
}

fn values_equal_of(left: &AuthoringValue, right: &AuthoringValue) -> (equal: bool)
    requires
        is_scalar_value(*left),
        is_scalar_value(*right),
    ensures
        equal == values_equal(value_of(*left), value_of(*right)),
{
    match (left, right) {
        (AuthoringValue::Null, AuthoringValue::Null) => true,
        (AuthoringValue::Null, _) => false,
        (_, AuthoringValue::Null) => false,
        (AuthoringValue::Bool { value: a }, AuthoringValue::Bool { value: b }) => *a == *b,
        (AuthoringValue::Number { value: a }, AuthoringValue::Number { value: b }) => str_eq(a.as_str(), b.as_str()),
        (AuthoringValue::String { value: a }, AuthoringValue::String { value: b }) => str_eq(a.as_str(), b.as_str()),
        _ => false,
    }
}

fn is_string_scalar(ty: &ExpressionType) -> (result: bool)
    ensures
        result == (type_view(*ty) matches TypeView::Scalar(ScalarView::Primitive(PrimitiveType::String), _)),
{
    match ty {
        ExpressionType::Scalar { scalar: ScalarType::Primitive(PrimitiveType::String), .. } => true,
        _ => false,
    }
}

fn numeric_primitive_of(left: &ExpressionType, right: &ExpressionType) -> (primitive: Option<PrimitiveType>)
    ensures
        primitive == numeric_primitive(type_view(*left), type_view(*right)),
{
    match (normalized_of(left), normalized_of(right)) {
        (Some((ScalarType::Primitive(p), _)), Some((ScalarType::Primitive(q), _))) => {
            if p == q && is_numeric(p) {
                Some(p)
            } else {
                None
            }
        },
        _ => None,
    }
}

fn ordering_holds_of(op: BinaryOperator, order: Comparison) -> (holds: bool)
    ensures
        holds == ordering_holds(op, order),
{
    match op {
        BinaryOperator::Less => order == Comparison::Less,
        BinaryOperator::LessEqual => order != Comparison::Greater,
        BinaryOperator::Greater => order == Comparison::Greater,
        _ => order != Comparison::Less,
    }
}

/// The row's facts about a node that the binary helpers rely on.
pub open spec fn row_matches(row: Row, fields: Seq<(String, Option<ExpressionType>)>, enums: Seq<(String, ScalarType)>) -> bool {
    row.fields == crate::computed_view::fields_view(fields) && row.enums == crate::computed_view::enums_view(enums)
}

fn binary_of<A, C>(
    op: BinaryOperator,
    lv: AuthoringValue,
    rv: AuthoringValue,
    left: &RawExpression,
    right: &RawExpression,
    start: usize,
    fields: &Vec<(String, Option<ExpressionType>)>,
    enums: &Vec<(String, ScalarType)>,
    arith: &A,
    order: &C,
) -> (result: Result<AuthoringValue, RowError>)
    where
        A: Fn(&str, &str, BinaryOperator, bool) -> Result<String, String>,
        C: Fn(&str, &str, bool) -> Option<Comparison>,
    requires
        is_scalar_value(lv),
        is_scalar_value(rv),
        arithmetic_total(*arith),
        order_total(*order),
    ensures
        scalar_outcome(result),
        forall|row: Row, t: ExprTree|
            t.start == start && row_matches(row, fields@, enums@) && arithmetic_implemented(*arith, row.float_arithmetic)
                && order_implemented(*order, row.float_order) ==>
            outcome(result) == #[trigger] binary_value(op, value_of(lv), value_of(rv), tree_of(*left), tree_of(*right), t, row),
{
    match op {
        BinaryOperator::Coalesce => Ok(rv),
        BinaryOperator::And | BinaryOperator::Or => match (&lv, &rv) {
            (AuthoringValue::Bool { value: a }, AuthoringValue::Bool { value: b }) => {
                let value = if op == BinaryOperator::And { *a && *b } else { *a || *b };
                Ok(AuthoringValue::Bool { value })
            },
            _ => Err(row_error(false, "boolean operation received null or a non-bool value", start)),
        },
        BinaryOperator::Equal => Ok(AuthoringValue::Bool { value: values_equal_of(&lv, &rv) }),
        BinaryOperator::NotEqual => Ok(AuthoringValue::Bool { value: !values_equal_of(&lv, &rv) }),
        BinaryOperator::Less | BinaryOperator::LessEqual | BinaryOperator::Greater | BinaryOperator::GreaterEqual => {
            if matches!(lv, AuthoringValue::Null) || matches!(rv, AuthoringValue::Null) {
                return Err(row_error(false, "ordering comparison received null; use `??` first", start));
            }
            let left_type = node_type_of(left, fields, enums);
            match compare_values_of(&lv, &rv, &left_type, order) {
                None => Err(row_error(false, "ordering comparison could not compare these values", start)),
                Some(ordering) => Ok(AuthoringValue::Bool { value: ordering_holds_of(op, ordering) }),
            }
        },
        BinaryOperator::Add => {
            let left_type = node_type_of(left, fields, enums);
            if is_string_scalar(&left_type) {
                match (&lv, &rv) {
                    (AuthoringValue::String { value: a }, AuthoringValue::String { value: b }) => {
                        let mut text = a.clone();
                        text.append(b.as_str());
                        Ok(AuthoringValue::String { value: text })
                    },
                    _ => Err(row_error(false, "string composition received a null or non-string value", start)),
                }
            } else {
                let right_type = node_type_of(right, fields, enums);
                let primitive = numeric_primitive_of(&left_type, &right_type);
                numeric_value_of(&lv, &rv, primitive, op, start, arith)
            }
        },
        _ => {
            let left_type = node_type_of(left, fields, enums);
            let right_type = node_type_of(right, fields, enums);
            let primitive = numeric_primitive_of(&left_type, &right_type);
            numeric_value_of(&lv, &rv, primitive, op, start, arith)
        },
    }
}

fn field_value_of(
    name: &str,
    node: &RawExpression,
    fields: &Vec<(String, Option<ExpressionType>)>,
    enums: &Vec<(String, ScalarType)>,
    values: &Vec<(String, AuthoringValue)>,
) -> (result: Result<AuthoringValue, RowError>)
    ensures
        scalar_outcome(result),
        forall|row: Row| row_matches(row, fields@, enums@) && row.values == values@ ==>
            outcome(result) == #[trigger] field_value(name@, tree_of(*node), row),
{
    let start = node.span.start;
    match lookup_row_value(values, name) {
        None => Err(RowError {
            arithmetic: false,
            message: quoted_field("source field `", name, "` is unavailable for this record"),
            start,
        }),
        Some(i) => {
            let v = &values[i].1;
            match v {
                AuthoringValue::Invalid { diagnostic } => {
                    let mut message = quoted_field("source field `", name, "` is invalid: ");
                    message.append(diagnostic.message.as_str());
                    Err(RowError { arithmetic: false, message, start })
                },
                _ => {
                    let ty = node_type_of(node, fields, enums);
                    let required = match &ty {
                        ExpressionType::Scalar { nullable, .. } => !*nullable,
                        _ => false,
                    };
                    let is_null = matches!(v, AuthoringValue::Null);
                    if is_null && required {
                        Err(RowError {
                            arithmetic: false,
                            message: quoted_field("required source field `", name, "` is null"),
                            start,
                        })
                    } else if !is_null && !value_fits_type(&ty, v) {
                        Err(RowError {
                            arithmetic: false,
                            message: quoted_field("source field `", name, "` has an invalid value shape"),
                            start,
                        })
                    } else {
                        proof {
                            if !is_null {
                                assert(value_fits(type_view(ty), *v));
                            }
                        }
                        Ok(scalar_copy(v))
                    }
                },
            }
        },
    }
}

fn unary_of<A>(
    op: UnaryOperator,
    v: AuthoringValue,
    node: &RawExpression,
    start: usize,
    fields: &Vec<(String, Option<ExpressionType>)>,
    enums: &Vec<(String, ScalarType)>,
    arith: &A,
) -> (result: Result<AuthoringValue, RowError>)
    where
        A: Fn(&str, &str, BinaryOperator, bool) -> Result<String, String>,
    requires
        is_scalar_value(v),
        start == node.span.start,
        arithmetic_total(*arith),
    ensures
        scalar_outcome(result),
        forall|row: Row| row_matches(row, fields@, enums@) && arithmetic_implemented(*arith, row.float_arithmetic) ==>
            outcome(result) == #[trigger] unary_value(op, value_of(v), tree_of(*node), row),
{
    match op {
        UnaryOperator::Not => match v {
            AuthoringValue::Bool { value } => Ok(AuthoringValue::Bool { value: !value }),
            AuthoringValue::Null => Err(row_error(false, "boolean negation received null", start)),
            _ => Err(row_error(false, "boolean negation received a non-bool value", start)),
        },
        UnaryOperator::Plus => Ok(v),
        UnaryOperator::Minus => {
            let ty = node_type_of(node, fields, enums);
            match normalized_of(&ty) {
                Some((ScalarType::Primitive(p), _)) => {
                    if is_numeric(p) {
                        let mut digits = String::new();
                        crate::text::push_char(&mut digits, '0');
                        proof {
                            assert(digits@ =~= seq!['0']);
                        }
                        let zero = AuthoringValue::Number { value: digits };
                        numeric_value_of(&zero, &v, Some(p), BinaryOperator::Subtract, start, arith)
                    } else {
                        Err(row_error(true, "unary numeric operation has no numeric type", start))
                    }
                },
                _ => Err(row_error(true, "unary numeric operation has no numeric type", start)),
            }
        },
    }
}

/// Evaluates a checked expression for one row: the row's values by field
/// name, and the `float` / `double` arithmetic and ordering supplied.
pub fn evaluate_expression<A, C>(
    node: &RawExpression,
    fields: &Vec<(String, Option<ExpressionType>)>,
    enums: &Vec<(String, ScalarType)>,
    values: &Vec<(String, AuthoringValue)>,
    arith: &A,
    order: &C,
) -> (result: Result<AuthoringValue, RowError>)
    where
        A: Fn(&str, &str, BinaryOperator, bool) -> Result<String, String>,
        C: Fn(&str, &str, bool) -> Option<Comparison>,
    requires
        arithmetic_total(*arith),
        order_total(*order),
    ensures
        scalar_outcome(result),
        forall|fa: spec_fn(Seq<char>, Seq<char>, BinaryOperator, bool) -> Result<Seq<char>, Seq<char>>, fc: spec_fn(Seq<char>, Seq<char>, bool) -> Option<Comparison>|
            arithmetic_implemented(*arith, fa) && order_implemented(*order, fc) ==>
            outcome(result) == #[trigger] evaluate(tree_of(*node), row_of(fields@, enums@, values@, fa, fc)),
    decreases node,
{
    let start = node.span.start;
    match &node.kind {
        RawExpressionKind::Null => Ok(AuthoringValue::Null),
        RawExpressionKind::Bool(b) => Ok(AuthoringValue::Bool { value: *b }),
        RawExpressionKind::Integer(text) => {
            let valid = match parse_i128(chars_of(text.as_str()).as_slice()) {
                Some(n) => i32::MIN as i128 <= n && n <= i32::MAX as i128,
                None => false,
            };
            if valid {
                Ok(AuthoringValue::Number { value: text.clone() })
            } else {
                Err(row_error(true, "integer literal is outside the v1 int range", start))
            }
        },
        RawExpressionKind::Float(text) => {
            if f64_text_finite(chars_of(text.as_str()).as_slice()) {
                Ok(AuthoringValue::Number { value: text.clone() })
            } else {
                Err(row_error(true, "floating literal is not finite", start))
            }
        },
        RawExpressionKind::Text(text) => Ok(AuthoringValue::String { value: text.clone() }),
        RawExpressionKind::Field(name) => field_value_of(name.as_str(), node, fields, enums, values),
        RawExpressionKind::EnumLiteral { member, .. } => Ok(AuthoringValue::String { value: member.clone() }),
        RawExpressionKind::Unary { operator, operand } => {
            let v = match evaluate_expression(operand, fields, enums, values, arith, order) {
                Ok(v) => v,
                Err(e) => {
                    proof {
                        assert forall|fa: spec_fn(Seq<char>, Seq<char>, BinaryOperator, bool) -> Result<Seq<char>, Seq<char>>, fc: spec_fn(Seq<char>, Seq<char>, bool) -> Option<Comparison>|
                            arithmetic_implemented(*arith, fa) && order_implemented(*order, fc) implies
                            outcome(Err::<AuthoringValue, RowError>(e)) == #[trigger] evaluate(tree_of(*node), row_of(fields@, enums@, values@, fa, fc)) by {
                            let row = row_of(fields@, enums@, values@, fa, fc);
                            assert(outcome(Err::<AuthoringValue, RowError>(e)) == evaluate(tree_of(**operand), row));
                        }
                    }
                    return Err(e);
                },
            };
            let ghost operand_value = v;
            let result = unary_of(*operator, v, node, start, fields, enums, arith);
            proof {
                        assert forall|fa: spec_fn(Seq<char>, Seq<char>, BinaryOperator, bool) -> Result<Seq<char>, Seq<char>>, fc: spec_fn(Seq<char>, Seq<char>, bool) -> Option<Comparison>|
                            arithmetic_implemented(*arith, fa) && order_implemented(*order, fc) implies
                            outcome(result) == #[trigger] evaluate(tree_of(*node), row_of(fields@, enums@, values@, fa, fc)) by {
                            let row = row_of(fields@, enums@, values@, fa, fc);
                            assert(outcome(Ok::<AuthoringValue, RowError>(operand_value)) == evaluate(tree_of(**operand), row));
                            assert(outcome(result) == unary_value(*operator, value_of(operand_value), tree_of(*node), row));
                        }
                    }
            result
        },
        RawExpressionKind::Binary { operator, left, right } => {
            let op = *operator;
            let lv = match evaluate_expression(left, fields, enums, values, arith, order) {
                Ok(v) => v,
                Err(e) => {
                    proof {
                        assert forall|fa: spec_fn(Seq<char>, Seq<char>, BinaryOperator, bool) -> Result<Seq<char>, Seq<char>>, fc: spec_fn(Seq<char>, Seq<char>, bool) -> Option<Comparison>|
                            arithmetic_implemented(*arith, fa) && order_implemented(*order, fc) implies
                            outcome(Err::<AuthoringValue, RowError>(e)) == #[trigger] evaluate(tree_of(*node), row_of(fields@, enums@, values@, fa, fc)) by {
                            let row = row_of(fields@, enums@, values@, fa, fc);
                            assert(outcome(Err::<AuthoringValue, RowError>(e)) == evaluate(tree_of(**left), row));
                        }
                    }
                    return Err(e);
                },
            };
            let ghost left_value = lv;
            let decided = (op == BinaryOperator::And && matches!(lv, AuthoringValue::Bool { value: false }))
                || (op == BinaryOperator::Or && matches!(lv, AuthoringValue::Bool { value: true }))
                || (op == BinaryOperator::Coalesce && !matches!(lv, AuthoringValue::Null));
            if decided {
                let result = if op == BinaryOperator::And {
                    Ok(AuthoringValue::Bool { value: false })
                } else if op == BinaryOperator::Or {
                    Ok(AuthoringValue::Bool { value: true })
                } else {
                    Ok(lv)
                };
                proof {
                        assert forall|fa: spec_fn(Seq<char>, Seq<char>, BinaryOperator, bool) -> Result<Seq<char>, Seq<char>>, fc: spec_fn(Seq<char>, Seq<char>, bool) -> Option<Comparison>|
                            arithmetic_implemented(*arith, fa) && order_implemented(*order, fc) implies
                            outcome(result) == #[trigger] evaluate(tree_of(*node), row_of(fields@, enums@, values@, fa, fc)) by {
                            let row = row_of(fields@, enums@, values@, fa, fc);
                            assert(outcome(Ok::<AuthoringValue, RowError>(left_value)) == evaluate(tree_of(**left), row));
                            assert(decided_by_left(op, value_of(left_value)));
                        }
                    }
                return result;
            }
            let rv = match evaluate_expression(right, fields, enums, values, arith, order) {
                Ok(v) => v,
                Err(e) => {
                    proof {
                        assert forall|fa: spec_fn(Seq<char>, Seq<char>, BinaryOperator, bool) -> Result<Seq<char>, Seq<char>>, fc: spec_fn(Seq<char>, Seq<char>, bool) -> Option<Comparison>|
                            arithmetic_implemented(*arith, fa) && order_implemented(*order, fc) implies
                            outcome(Err::<AuthoringValue, RowError>(e)) == #[trigger] evaluate(tree_of(*node), row_of(fields@, enums@, values@, fa, fc)) by {
                            let row = row_of(fields@, enums@, values@, fa, fc);
                            assert(outcome(Ok::<AuthoringValue, RowError>(left_value)) == evaluate(tree_of(**left), row));
                            assert(!decided_by_left(op, value_of(left_value)));
                            assert(outcome(Err::<AuthoringValue, RowError>(e)) == evaluate(tree_of(**right), row));
                        }
                    }
                    return Err(e);
                },
            };
            let ghost right_value = rv;
            let result = binary_of(op, lv, rv, left, right, start, fields, enums, arith, order);
            proof {
                        assert forall|fa: spec_fn(Seq<char>, Seq<char>, BinaryOperator, bool) -> Result<Seq<char>, Seq<char>>, fc: spec_fn(Seq<char>, Seq<char>, bool) -> Option<Comparison>|
                            arithmetic_implemented(*arith, fa) && order_implemented(*order, fc) implies
                            outcome(result) == #[trigger] evaluate(tree_of(*node), row_of(fields@, enums@, values@, fa, fc)) by {
                            let row = row_of(fields@, enums@, values@, fa, fc);
                            assert(outcome(Ok::<AuthoringValue, RowError>(left_value)) == evaluate(tree_of(**left), row));
                            assert(!decided_by_left(op, value_of(left_value)));
                            assert(outcome(Ok::<AuthoringValue, RowError>(right_value)) == evaluate(tree_of(**right), row));
                            assert(outcome(result) == binary_value(op, value_of(left_value), value_of(right_value), tree_of(**left), tree_of(**right), tree_of(*node), row));
                        }
                    }
            result
        },
        RawExpressionKind::Conditional { condition, when_true, when_false } => {
            let c = match evaluate_expression(condition, fields, enums, values, arith, order) {
                Ok(v) => v,
                Err(e) => {
                    proof {
                        assert forall|fa: spec_fn(Seq<char>, Seq<char>, BinaryOperator, bool) -> Result<Seq<char>, Seq<char>>, fc: spec_fn(Seq<char>, Seq<char>, bool) -> Option<Comparison>|
                            arithmetic_implemented(*arith, fa) && order_implemented(*order, fc) implies
                            outcome(Err::<AuthoringValue, RowError>(e)) == #[trigger] evaluate(tree_of(*node), row_of(fields@, enums@, values@, fa, fc)) by {
                            let row = row_of(fields@, enums@, values@, fa, fc);
                            assert(outcome(Err::<AuthoringValue, RowError>(e)) == evaluate(tree_of(**condition), row));
                        }
                    }
                    return Err(e);
                },
            };
            let ghost condition_value = c;
            match c {
                AuthoringValue::Bool { value: true } => {
                    let result = evaluate_expression(when_true, fields, enums, values, arith, order);
                    proof {
                        assert forall|fa: spec_fn(Seq<char>, Seq<char>, BinaryOperator, bool) -> Result<Seq<char>, Seq<char>>, fc: spec_fn(Seq<char>, Seq<char>, bool) -> Option<Comparison>|
                            arithmetic_implemented(*arith, fa) && order_implemented(*order, fc) implies
                            outcome(result) == #[trigger] evaluate(tree_of(*node), row_of(fields@, enums@, values@, fa, fc)) by {
                            let row = row_of(fields@, enums@, values@, fa, fc);
                            assert(outcome(Ok::<AuthoringValue, RowError>(condition_value)) == evaluate(tree_of(**condition), row));
                            assert(outcome(result) == evaluate(tree_of(**when_true), row));
                        }
                    }
                    result
                },
                AuthoringValue::Bool { value: false } => {
                    let result = evaluate_expression(when_false, fields, enums, values, arith, order);
                    proof {
                        assert forall|fa: spec_fn(Seq<char>, Seq<char>, BinaryOperator, bool) -> Result<Seq<char>, Seq<char>>, fc: spec_fn(Seq<char>, Seq<char>, bool) -> Option<Comparison>|
                            arithmetic_implemented(*arith, fa) && order_implemented(*order, fc) implies
                            outcome(result) == #[trigger] evaluate(tree_of(*node), row_of(fields@, enums@, values@, fa, fc)) by {
                            let row = row_of(fields@, enums@, values@, fa, fc);
                            assert(outcome(Ok::<AuthoringValue, RowError>(condition_value)) == evaluate(tree_of(**condition), row));
                            assert(outcome(result) == evaluate(tree_of(**when_false), row));
                        }
                    }
                    result
                },
                _ => {
                    let result = Err(row_error(false, "conditional condition was not a non-null bool", start));
                    proof {
                        assert forall|fa: spec_fn(Seq<char>, Seq<char>, BinaryOperator, bool) -> Result<Seq<char>, Seq<char>>, fc: spec_fn(Seq<char>, Seq<char>, bool) -> Option<Comparison>|
                            arithmetic_implemented(*arith, fa) && order_implemented(*order, fc) implies
                            outcome(result) == #[trigger] evaluate(tree_of(*node), row_of(fields@, enums@, values@, fa, fc)) by {
                            let row = row_of(fields@, enums@, values@, fa, fc);
                            assert(outcome(Ok::<AuthoringValue, RowError>(condition_value)) == evaluate(tree_of(**condition), row));
                        }
                    }
                    result
                },
            }
        },
    }
}

fn record_label(record_index: usize) -> (label: String)
    ensures
        label@ == "record["@ + decimal_text(record_index as nat) + "]"@,
{
    let mut label = String::from_str("record[");
    let digits = decimal_u128(record_index as u128);
    label.append(digits.as_str());
    label.append("]");
    label
}

/// The diagnostic of a row problem in the source `source`.
pub fn row_diagnostic(error: &RowError, source: &str, record_index: usize) -> (diagnostic: Diagnostic)
    ensures
        diagnostic@ == failure_diagnostic(
            Failure { arithmetic: error.arithmetic, message: error.message@, start: error.start as int },
            source@,
            record_index,
        ),
{
    let code = if error.arithmetic { "E-VIEW-ARITHMETIC" } else { "E-VIEW-ROW-EVALUATION" };
    let label = record_label(record_index);
    let mut diagnostic = Diagnostic::new(code, ErrorKind::Validation, error.message.as_str())
        .with_source(source)
        .with_record_identity(label.as_str())
        .with_related_requirement("ADV-VIEW-003");
    diagnostic.line = Some(1);
    diagnostic.column = Some(if error.start < usize::MAX { error.start + 1 } else { usize::MAX });
    proof {
        assert(diagnostic@.related_requirements =~= seq!["ADV-VIEW-003"@]);
    }
    diagnostic
}

// ---------------------------------------------------------------------------
// Computed columns

/// The authoring shape a computed column of type `ty` presents: its
/// concrete scalar, nullable where the type is; Enum members ascending.
pub open spec fn is_output_shape(name: Seq<char>, ty: TypeView, field: ResolvedAuthoringField) -> bool {
    match normalized(ty) {
        None => false,
        Some((scalar, nullable)) => {
            &&& field.name@ == name
            &&& field.modifier == (if nullable { FieldModifier::Nullable } else { FieldModifier::Required })
            &&& match scalar {
                ScalarView::Primitive(p) => field.declared_type@ == primitive_name(p)
                    && field.shape == (ResolvedAuthoringType::Primitive { primitive: p }),
                ScalarView::ValueObject(n, u) => field.declared_type@ == n
                    && (field.shape matches ResolvedAuthoringType::ValueObject { name: m, underlying: v } && m@ == n && v == u),
                ScalarView::Enum(n, u, members) => field.declared_type@ == n
                    && (field.shape matches ResolvedAuthoringType::Enum { name: m, underlying: v, members: ms }
                        && m@ == n && v == u && strictly_ascending(texts(ms@))
                        && forall|x: Seq<char>| texts(ms@).contains(x) <==> members.contains(x)),
            }
        },
    }
}

/// The authoring shape of a computed column, where its type has one.
pub fn output_shape(name: &str, ty: &ExpressionType) -> (shape: Option<ResolvedAuthoringField>)
    ensures
        match shape {
            Some(field) => is_output_shape(name@, type_view(*ty), field),
            None => normalized(type_view(*ty)) is None,
        },
{
    let (scalar, nullable) = match normalized_of(ty) {
        Some(concrete) => concrete,
        None => return None,
    };
    let modifier = if nullable { FieldModifier::Nullable } else { FieldModifier::Required };
    let (declared_type, shape) = match scalar {
        ScalarType::Primitive(p) => (String::from_str(p.name()), ResolvedAuthoringType::Primitive { primitive: p }),
        ScalarType::ValueObject { name: declared, underlying } => {
            (declared.clone(), ResolvedAuthoringType::ValueObject { name: declared, underlying })
        },
        ScalarType::Enum { name: declared, underlying, members } => {
            let none: Vec<String> = Vec::new();
            let ordered = union_ascending(&members, &none);
            proof {
                crate::type_compatibility::lemma_texts_deep_view(members);
                assert(texts(none@) =~= Seq::<Seq<char>>::empty());
                assert forall|x: Seq<char>| texts(ordered@).contains(x) <==> crate::computed_view::members_view(members).contains(x) by {}
            }
            (declared.clone(), ResolvedAuthoringType::Enum { name: declared, underlying, members: ordered })
        },
    };
    Some(ResolvedAuthoringField { name: String::from_str(name), declared_type, modifier, shape })
}

/// A computed column of a view: its name, expression and presented shape,
/// with the checked expression and what it was checked against.
#[derive(Debug)]
pub struct ResolvedComputedColumn {
    pub name: String,
    pub expression: String,
    pub shape: ResolvedAuthoringField,
    ast: RawExpression,
    fields: Vec<(String, Option<ExpressionType>)>,
    enums: Vec<(String, ScalarType)>,
}

impl ResolvedComputedColumn {
    pub closed spec fn tree(&self) -> ExprTree {
        tree_of(self.ast)
    }

    pub closed spec fn field_types(&self) -> Seq<(String, Option<ExpressionType>)> {
        self.fields@
    }

    pub closed spec fn enum_types(&self) -> Seq<(String, ScalarType)> {
        self.enums@
    }

    pub closed spec fn column_name(&self) -> Seq<char> {
        self.name@
    }

    pub closed spec fn column_expression(&self) -> Seq<char> {
        self.expression@
    }

    pub closed spec fn column_shape(&self) -> ResolvedAuthoringField {
        self.shape
    }
}

/// The diagnostic of an expression that does not parse or check.
pub open spec fn expression_failure(
    code: Seq<char>,
    kind: ErrorKind,
    message: Seq<char>,
    start: int,
    path: Seq<char>,
    schema_path: Seq<char>,
) -> DiagnosticView {
    DiagnosticView {
        code,
        kind,
        message,
        source: Some(path),
        line: Some(1usize),
        column: Some(column_at(start)),
        schema_path: Some(schema_path),
        record_identity: None,
        suggestion: None,
        related_requirements: seq!["ADV-VIEW-002"@],
    }
}

/// A column whose type has no authoring shape.
pub open spec fn unsupported_column(name: Seq<char>, path: Seq<char>, schema_path: Seq<char>) -> DiagnosticView {
    DiagnosticView {
        code: "E-VIEW-UNSUPPORTED-OPERAND"@,
        kind: ErrorKind::Validation,
        message: "computed column `"@ + name + "` does not produce a supported scalar value"@,
        source: Some(path),
        line: None,
        column: None,
        schema_path: Some(schema_path),
        record_identity: None,
        suggestion: None,
        related_requirements: seq!["ADV-VIEW-003"@],
    }
}

fn expression_diagnostic(code: &str, kind: ErrorKind, message: &str, start: usize, path: &str, schema_path: &str) -> (d: Diagnostic)
    ensures
        d@ == expression_failure(code@, kind, message@, start as int, path@, schema_path@),
{
    let mut d = Diagnostic::new(code, kind, message)
        .with_source(path)
        .with_schema_path(schema_path)
        .with_related_requirement("ADV-VIEW-002");
    d.line = Some(1);
    d.column = Some(if start < usize::MAX { start + 1 } else { usize::MAX });
    proof {
        assert(d@.related_requirements =~= seq!["ADV-VIEW-002"@]);
    }
    d
}

/// Resolves one column of a view: parses its expression, checks it against
/// the target table's field types and the normal enums, and derives the
/// shape it presents; each failure is the column's diagnostic.
pub fn resolve_computed_column(
    name: &str,
    expression: &str,
    fields: Vec<(String, Option<ExpressionType>)>,
    enums: Vec<(String, ScalarType)>,
    path: &str,
    schema_path: &str,
) -> (result: Result<ResolvedComputedColumn, Diagnostic>)
    ensures
        match parse_source(expression@) {
            Err(e) => result matches Err(d)
                && d@ == expression_failure("E-VIEW-EXPRESSION-SYNTAX"@, ErrorKind::Parse, e.message, e.start, path@, schema_path@),
            Ok(tree) => match type_of(tree, fields_view(fields@), enums_view(enums@)) {
                Err(e) => result matches Err(d)
                    && d@ == expression_failure(e.code, ErrorKind::Validation, e.message, e.start, path@, schema_path@),
                Ok(ty) => match result {
                    Ok(column) => {
                        &&& column.column_name() == name@
                        &&& column.column_expression() == expression@
                        &&& is_output_shape(name@, ty, column.column_shape())
                        &&& column.tree() == tree
                        &&& column.field_types() == fields@
                        &&& column.enum_types() == enums@
                    },
                    Err(d) => normalized(ty) is None && d@ == unsupported_column(name@, path@, schema_path@),
                },
            },
        },
{
    let ast = match parse_source_text(expression) {
        Ok(ast) => ast,
        Err(failure) => {
            return Err(expression_diagnostic(
                "E-VIEW-EXPRESSION-SYNTAX",
                ErrorKind::Parse,
                failure.message.as_str(),
                failure.span.start,
                path,
                schema_path,
            ));
        },
    };
    let ty = match type_check(&ast, &fields, &enums) {
        Ok(ty) => ty,
        Err(error) => {
            return Err(expression_diagnostic(
                error.code.as_str(),
                ErrorKind::Validation,
                error.message.as_str(),
                error.span.start,
                path,
                schema_path,
            ));
        },
    };
    let shape = match output_shape(name, &ty) {
        Some(shape) => shape,
        None => {
            let mut message = String::from_str("computed column `");
            message.append(name);
            message.append("` does not produce a supported scalar value");
            let d = Diagnostic::new("E-VIEW-UNSUPPORTED-OPERAND", ErrorKind::Validation, message.as_str())
                .with_source(path)
                .with_schema_path(schema_path)
                .with_related_requirement("ADV-VIEW-003");
            proof {
                assert(d@.related_requirements =~= seq!["ADV-VIEW-003"@]);
            }
            return Err(d);
        },
    };
    Ok(ResolvedComputedColumn {
        name: String::from_str(name),
        expression: String::from_str(expression),
        shape,
        ast,
        fields,
        enums,
    })
}

/// Evaluates one computed column for a source row: the value, or an
/// `Invalid` value that carries the row's diagnostic; a problem is never
/// replaced by a default scalar.
pub fn evaluate_computed_column<A, C>(
    column: &ResolvedComputedColumn,
    values: &Vec<(String, AuthoringValue)>,
    source: &str,
    record_index: usize,
    arith: &A,
    order: &C,
) -> (value: AuthoringValue)
    where
        A: Fn(&str, &str, BinaryOperator, bool) -> Result<String, String>,
        C: Fn(&str, &str, bool) -> Option<Comparison>,
    requires
        arithmetic_total(*arith),
        order_total(*order),
    ensures
        forall|fa: spec_fn(Seq<char>, Seq<char>, BinaryOperator, bool) -> Result<Seq<char>, Seq<char>>, fc: spec_fn(Seq<char>, Seq<char>, bool) -> Option<Comparison>|
            arithmetic_implemented(*arith, fa) && order_implemented(*order, fc) ==>
            match #[trigger] evaluate(column.tree(), row_of(column.field_types(), column.enum_types(), values@, fa, fc)) {
                Ok(v) => is_scalar_value(value) && value_of(value) == v,
                Err(f) => value matches AuthoringValue::Invalid { diagnostic } && diagnostic@ == failure_diagnostic(f, source@, record_index),
            },
{
    let result = evaluate_expression(&column.ast, &column.fields, &column.enums, values, arith, order);
    match result {
        Ok(value) => value,
        Err(error) => AuthoringValue::Invalid { diagnostic: Box::new(row_diagnostic(&error, source, record_index)) },
    }
}

/// A resolved view: its name, target table, source file and columns.
#[derive(Debug)]
pub struct ResolvedComputedView {
    pub name: String,
    pub table: String,
    pub source: String,
    pub columns: Vec<ResolvedComputedColumn>,
}

/// The resolved views of a project and the diagnostics of those refused.
#[derive(Debug)]
pub struct ComputedViewBuild {
    pub views: Vec<ResolvedComputedView>,
    pub diagnostics: Vec<Diagnostic>,
}

/// The positions of the views whose target is `table`, in order.
pub fn computed_views_for_table(build: &ComputedViewBuild, table: &str) -> (positions: Vec<usize>)
    ensures
        forall|k: int| 0 <= k < positions@.len() ==> #[trigger] positions@[k] < build.views@.len()
            && build.views@[positions@[k] as int].table@ == table@,
        forall|k: int, m: int| 0 <= k < m < positions@.len() ==> positions@[k] < positions@[m],
        forall|i: int| 0 <= i < build.views@.len() && #[trigger] build.views@[i].table@ == table@
            ==> positions@.contains(i as usize),
{
    let mut positions: Vec<usize> = Vec::new();
    let mut i: usize = 0;
    while i < build.views.len()
        invariant
            i <= build.views@.len(),
            forall|k: int| 0 <= k < positions@.len() ==> #[trigger] positions@[k] < i
                && build.views@[positions@[k] as int].table@ == table@,
            forall|k: int, m: int| 0 <= k < m < positions@.len() ==> positions@[k] < positions@[m],
            forall|j: int| 0 <= j < i && #[trigger] build.views@[j].table@ == table@ ==> positions@.contains(j as usize),
        decreases build.views@.len() - i,
    {
        if str_eq(build.views[i].table.as_str(), table) {
            let ghost before = positions@;
            positions.push(i);
            proof {
                assert forall|j: int| 0 <= j < i + 1 && #[trigger] build.views@[j].table@ == table@ implies positions@.contains(j as usize) by {
                    if j < i {
                        let k = choose|k: int| 0 <= k < before.len() && before[k] == j as usize;
                        assert(positions@[k] == j as usize);
                    } else {
                        assert(positions@[before.len() as int] == j as usize);
                    }
                }
            }
        }
        i = i + 1;
    }
    positions
}

/// A row that cannot be evaluated is reported where it stands: an
/// arithmetic or row-evaluation diagnostic of the view's source, at line 1
/// and a column of the expression, naming the record by its index.
pub proof fn law_row_failures_are_located(f: Failure, source: Seq<char>, record_index: usize)
    ensures
        ({
            let d = failure_diagnostic(f, source, record_index);
            &&& d.code == "E-VIEW-ARITHMETIC"@ || d.code == "E-VIEW-ROW-EVALUATION"@
            &&& d.source == Some(source)
            &&& d.line == Some(1usize)
            &&& d.column is Some
            &&& d.record_identity == Some("record["@ + decimal_text(record_index as nat) + "]"@)
        }),
{
}

/// The ordering operators mean their math: on two non-null operands that
/// the left operand's type orders, `<` holds exactly when the left value
/// is less than the right, `<=` when it is less or equal, `>` when it is
/// greater, and `>=` when it is greater or equal.
pub proof fn law_ordering_operators_mean_their_order(
    t: ExprTree,
    op: BinaryOperator,
    l: ExprTree,
    r: ExprTree,
    row: Row,
    lv: RowValue,
    rv: RowValue,
    order: Comparison,
)
    requires
        t.kind == ExprKind::Binary(op, Box::new(l), Box::new(r)),
        evaluate(l, row) == Ok::<RowValue, Failure>(lv),
        evaluate(r, row) == Ok::<RowValue, Failure>(rv),
        !(lv is Null),
        !(rv is Null),
        compare_values(lv, rv, node_type(l, row), row) == Some(order),
    ensures
        op is Less ==> evaluate(t, row) == Ok::<RowValue, Failure>(RowValue::Bool(order == Comparison::Less)),
        op is LessEqual ==> evaluate(t, row)
            == Ok::<RowValue, Failure>(RowValue::Bool(order == Comparison::Less || order == Comparison::Equal)),
        op is Greater ==> evaluate(t, row) == Ok::<RowValue, Failure>(RowValue::Bool(order == Comparison::Greater)),
        op is GreaterEqual ==> evaluate(t, row)
            == Ok::<RowValue, Failure>(RowValue::Bool(order == Comparison::Greater || order == Comparison::Equal)),
{
}

/// A value is ordered equal to itself by every type that orders it
/// without a floating-point closure: integers, texts and text Value
/// Objects.
pub proof fn law_values_order_equal_to_themselves(v: RowValue, ty: TypeView, row: Row)
    requires
        !(normalized(ty) matches Some((ScalarView::Primitive(p), _)) && (p is Float || p is Double)),
    ensures
        compare_values(v, v, ty, row) is None || compare_values(v, v, ty, row) == Some(Comparison::Equal),
{
}

/// `x <= x` and `x >= x` hold, and `x < x` and `x > x` do not, for any
/// non-null value `x` of an integer, text or text Value Object type.
pub proof fn law_a_value_is_within_its_own_bounds(
    t: ExprTree,
    op: BinaryOperator,
    l: ExprTree,
    r: ExprTree,
    row: Row,
    v: RowValue,
)
    requires
        t.kind == ExprKind::Binary(op, Box::new(l), Box::new(r)),
        op is Less || op is LessEqual || op is Greater || op is GreaterEqual,
        evaluate(l, row) == Ok::<RowValue, Failure>(v),
        evaluate(r, row) == Ok::<RowValue, Failure>(v),
        !(v is Null),
        compare_values(v, v, node_type(l, row), row) is Some,
        !(normalized(node_type(l, row)) matches Some((ScalarView::Primitive(p), _)) && (p is Float || p is Double)),
    ensures
        evaluate(t, row) == Ok::<RowValue, Failure>(RowValue::Bool(op is LessEqual || op is GreaterEqual)),
{
    law_values_order_equal_to_themselves(v, node_type(l, row), row);
    law_ordering_operators_mean_their_order(t, op, l, r, row, v, v, Comparison::Equal);
}

} // verus!
