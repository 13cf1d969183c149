use masterdata_core::computed_view::{field_reference_spans, parse_expression, rename_field_references, ExpressionSpan};
use masterdata_core::error::ErrorKind;

#[test]
fn rename_spans_skip_strings_and_enum_members() {
    assert_eq!(
        field_reference_spans("old + \"old\" + Rarity.Rare", "old").len(),
        1
    );
}

#[test]
fn field_reference_spans_are_byte_ranges_in_source_order() {
    let spans = field_reference_spans("price * 2 + (price ?? 0) - prices", "price");
    assert_eq!(
        spans,
        vec![ExpressionSpan { start: 0, end: 5 }, ExpressionSpan { start: 13, end: 18 }]
    );
    let after_text = field_reference_spans("\"é\" == name", "name");
    assert_eq!(after_text, vec![ExpressionSpan { start: 8, end: 12 }]);
    assert!(field_reference_spans("name +", "name").is_empty());
}

#[test]
fn rename_rewrites_only_field_references() {
    assert_eq!(
        rename_field_references("old + \"old\" + Rarity.old + old", "old", "fresh"),
        Some("fresh + \"old\" + Rarity.old + fresh".to_string())
    );
    assert_eq!(rename_field_references("  a ? b : a  ", "a", "x"), Some("  x ? b : x  ".to_string()));
    assert_eq!(rename_field_references("other + 1", "old", "fresh"), None);
    assert_eq!(rename_field_references("old +", "old", "fresh"), None);
}

#[test]
fn parse_errors_carry_the_syntax_code_and_message() {
    assert!(parse_expression("a ?? b || !c && -d == +1.5e3 % 2 ? Kind.Member : (x)").is_ok());
    let error = parse_expression("name @ 1").unwrap_err();
    assert_eq!(error.diagnostic().code, "E-VIEW-EXPRESSION-SYNTAX");
    assert_eq!(error.diagnostic().kind, ErrorKind::Parse);
    assert_eq!(error.diagnostic().message, "unexpected character in expression");
    let error = parse_expression("1e+").unwrap_err();
    assert_eq!(error.diagnostic().message, "numeric exponent requires digits");
    let error = parse_expression("\"open").unwrap_err();
    assert_eq!(error.diagnostic().message, "unterminated string literal");
    let error = parse_expression("\"bad \\q\"").unwrap_err();
    assert_eq!(error.diagnostic().message, "invalid JSON-compatible string escape");
    let error = parse_expression("a ? b").unwrap_err();
    assert_eq!(error.diagnostic().message, "conditional expression requires `:`");
    let error = parse_expression("(a").unwrap_err();
    assert_eq!(error.diagnostic().message, "grouped expression requires `)`");
    let error = parse_expression("Kind.").unwrap_err();
    assert_eq!(error.diagnostic().message, "Enum literal requires a member name after `.`");
    let error = parse_expression("a b").unwrap_err();
    assert_eq!(error.diagnostic().message, "unexpected token after expression");
    let error = parse_expression("").unwrap_err();
    assert_eq!(error.diagnostic().message, "expected literal, field, Enum literal, or grouped expression");
}

use masterdata_core::computed_view::{expression_type, expression_type_for_shape, ExpressionType, ScalarType};
use masterdata_core::type_system::{FieldModifier, PrimitiveType, ResolvedAuthoringField, ResolvedAuthoringType};

fn scalar(primitive: PrimitiveType, nullable: bool) -> Option<ExpressionType> {
    Some(ExpressionType::Scalar { scalar: ScalarType::Primitive(primitive), nullable })
}

fn status_enum() -> ScalarType {
    ScalarType::Enum {
        name: "Status".into(),
        underlying: PrimitiveType::Int,
        members: vec!["Active".into(), "Retired".into()],
    }
}

fn row_fields() -> Vec<(String, Option<ExpressionType>)> {
    vec![
        ("id".into(), scalar(PrimitiveType::Int, false)),
        ("name".into(), scalar(PrimitiveType::String, false)),
        ("nickname".into(), scalar(PrimitiveType::String, true)),
        ("flag".into(), scalar(PrimitiveType::Bool, false)),
        ("tags".into(), None),
        ("status".into(), Some(ExpressionType::Scalar { scalar: status_enum(), nullable: false })),
    ]
}

fn enums() -> Vec<(String, ScalarType)> {
    vec![("Status".into(), status_enum())]
}

#[test]
fn type_diagnostics_reject_unknown_fields_and_implicit_coercion() {
    let unknown = expression_type("missing + 1", &row_fields(), &enums()).unwrap_err();
    assert_eq!(unknown.code, "E-VIEW-UNKNOWN-FIELD");
    assert_eq!(unknown.message, "expression refers to unknown field `missing`");
    assert_eq!((unknown.span.start, unknown.span.end), (0, 7));

    let mixed = expression_type("1 + \"x\"", &row_fields(), &enums()).unwrap_err();
    assert_eq!(mixed.code, "E-VIEW-TYPE-MISMATCH");
    assert_eq!(mixed.message, "arithmetic operands must be the same non-null numeric primitive");

    let fractional = expression_type("id + 0.5", &row_fields(), &enums()).unwrap_err();
    assert_eq!(fractional.code, "E-VIEW-TYPE-MISMATCH");
}

#[test]
fn scalar_expressions_are_typed() {
    assert_eq!(expression_type("name + \"!\"", &row_fields(), &enums()).unwrap(), scalar(PrimitiveType::String, false).unwrap());
    assert_eq!(expression_type("nickname ?? \"unknown\"", &row_fields(), &enums()).unwrap(), scalar(PrimitiveType::String, false).unwrap());
    assert_eq!(expression_type("id * 2 + 1", &row_fields(), &enums()).unwrap(), scalar(PrimitiveType::Int, false).unwrap());
    assert_eq!(expression_type("flag ? 1 : null", &row_fields(), &enums()).unwrap(), scalar(PrimitiveType::Int, true).unwrap());
    assert_eq!(expression_type("id < 3 && !flag", &row_fields(), &enums()).unwrap(), scalar(PrimitiveType::Bool, false).unwrap());
    assert_eq!(expression_type("status == Status.Active", &row_fields(), &enums()).unwrap(), scalar(PrimitiveType::Bool, false).unwrap());
    assert_eq!(expression_type("-1", &row_fields(), &enums()).unwrap(), scalar(PrimitiveType::Int, false).unwrap());
    assert_eq!(expression_type("null", &row_fields(), &enums()).unwrap(), ExpressionType::Null);
}

#[test]
fn operand_and_enum_errors_name_their_subject() {
    let member = expression_type("Status.Gone", &row_fields(), &enums()).unwrap_err();
    assert_eq!(member.code, "E-VIEW-TYPE-MISMATCH");
    assert_eq!(member.message, "Enum `Status` has no member `Gone`");

    let unknown_enum = expression_type("Rarity.Rare", &row_fields(), &enums()).unwrap_err();
    assert_eq!(unknown_enum.message, "unknown normal Enum `Rarity` in enum literal");

    let array = expression_type("tags", &row_fields(), &enums()).unwrap_err();
    assert_eq!(array.code, "E-VIEW-UNSUPPORTED-OPERAND");
    assert_eq!(array.message, "field `tags` is not a supported scalar expression operand");

    let nullable_order = expression_type("nickname < \"b\"", &row_fields(), &enums()).unwrap_err();
    assert_eq!(nullable_order.message, "ordering comparison does not accept nullable operands; use `??` first");

    let required_coalesce = expression_type("name ?? \"x\"", &row_fields(), &enums()).unwrap_err();
    assert_eq!(required_coalesce.message, "left side of `??` must be nullable");

    let condition = expression_type("id ? 1 : 2", &row_fields(), &enums()).unwrap_err();
    assert_eq!(condition.message, "condition and boolean operators require a non-null bool");
    assert_eq!((condition.span.start, condition.span.end), (0, 2));

    let syntax = expression_type("id +", &row_fields(), &enums()).unwrap_err();
    assert_eq!(syntax.code, "E-VIEW-EXPRESSION-SYNTAX");
}

#[test]
fn field_shapes_give_expression_types() {
    let nullable = ResolvedAuthoringField {
        name: "label".into(),
        declared_type: "string".into(),
        modifier: FieldModifier::Nullable,
        shape: ResolvedAuthoringType::Primitive { primitive: PrimitiveType::String },
    };
    assert_eq!(expression_type_for_shape(&nullable), scalar(PrimitiveType::String, true));
    let array = ResolvedAuthoringField {
        name: "ids".into(),
        declared_type: "int".into(),
        modifier: FieldModifier::Array,
        shape: ResolvedAuthoringType::Primitive { primitive: PrimitiveType::Int },
    };
    assert_eq!(expression_type_for_shape(&array), None);
}
