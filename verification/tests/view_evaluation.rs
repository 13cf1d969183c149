use masterdata_core::authoring_query::Comparison;
use masterdata_core::authoring_value::AuthoringValue;
use masterdata_core::computed_view::{ExpressionType, ScalarType};
use masterdata_core::expression::BinaryOperator;
use masterdata_core::type_system::{FieldModifier, PrimitiveType, ResolvedAuthoringType};
use masterdata_core::view_evaluation::{
    computed_views_for_table, evaluate_computed_column, output_shape, resolve_computed_column, ComputedViewBuild,
    ResolvedComputedColumn, ResolvedComputedView,
};

fn float_arithmetic(left: &str, right: &str, operator: BinaryOperator, single: bool) -> Result<String, String> {
    if single {
        let left = left.parse::<f32>().map_err(|_| "invalid float source value".to_owned())?;
        let right = right.parse::<f32>().map_err(|_| "invalid float source value".to_owned())?;
        let result = match operator {
            BinaryOperator::Add => left + right,
            BinaryOperator::Subtract => left - right,
            BinaryOperator::Multiply => left * right,
            BinaryOperator::Divide => left / right,
            BinaryOperator::Remainder => left % right,
            _ => return Err("invalid floating operation".to_owned()),
        };
        if result.is_finite() { Ok(result.to_string()) } else { Err("floating arithmetic produced a non-finite result".to_owned()) }
    } else {
        let left = left.parse::<f64>().map_err(|_| "invalid double source value".to_owned())?;
        let right = right.parse::<f64>().map_err(|_| "invalid double source value".to_owned())?;
        let result = match operator {
            BinaryOperator::Add => left + right,
            BinaryOperator::Subtract => left - right,
            BinaryOperator::Multiply => left * right,
            BinaryOperator::Divide => left / right,
            BinaryOperator::Remainder => left % right,
            _ => return Err("invalid floating operation".to_owned()),
        };
        if result.is_finite() { Ok(result.to_string()) } else { Err("floating arithmetic produced a non-finite result".to_owned()) }
    }
}

fn float_order(left: &str, right: &str, single: bool) -> Option<Comparison> {
    let ordering = if single {
        left.parse::<f32>().ok()?.partial_cmp(&right.parse::<f32>().ok()?)
    } else {
        left.parse::<f64>().ok()?.partial_cmp(&right.parse::<f64>().ok()?)
    }?;
    Some(match ordering {
        std::cmp::Ordering::Less => Comparison::Less,
        std::cmp::Ordering::Equal => Comparison::Equal,
        std::cmp::Ordering::Greater => Comparison::Greater,
    })
}

fn scalar(primitive: PrimitiveType, nullable: bool) -> Option<ExpressionType> {
    Some(ExpressionType::Scalar { scalar: ScalarType::Primitive(primitive), nullable })
}

fn column(name: &str, expression: &str, fields: Vec<(String, Option<ExpressionType>)>, enums: Vec<(String, ScalarType)>) -> ResolvedComputedColumn {
    resolve_computed_column(name, expression, fields, enums, "view.yaml", "columns[0]").unwrap()
}

fn evaluate(column: &ResolvedComputedColumn, row: &Vec<(String, AuthoringValue)>, record: usize) -> AuthoringValue {
    evaluate_computed_column(column, row, "data.yaml", record, &float_arithmetic, &float_order)
}

fn text(value: &str) -> AuthoringValue {
    AuthoringValue::String { value: value.into() }
}

fn number(value: &str) -> AuthoringValue {
    AuthoringValue::Number { value: value.into() }
}

#[test]
fn resolves_typed_scalar_expression_and_evaluates_it() {
    let label = column("label", "name + \"!\"", vec![("name".into(), scalar(PrimitiveType::String, false))], vec![]);
    assert_eq!(label.shape.declared_type, "string");
    assert_eq!(label.shape.modifier, FieldModifier::Required);
    let row = vec![("name".to_string(), text("Potion"))];
    assert_eq!(evaluate(&label, &row, 0), text("Potion!"));
}

#[test]
fn nullable_coalesce_and_partial_expression_are_deterministic() {
    let label = column("label", "name ?? \"unknown\"", vec![("name".into(), scalar(PrimitiveType::String, true))], vec![]);
    let row = vec![("name".to_string(), AuthoringValue::Null)];
    assert_eq!(evaluate(&label, &row, 0), text("unknown"));
}

#[test]
fn checked_arithmetic_and_required_nulls_become_row_diagnostics() {
    let fields = || {
        vec![("quantity".to_string(), scalar(PrimitiveType::Int, false)), ("divisor".to_string(), scalar(PrimitiveType::Int, false))]
    };
    let quotient = column("quotient", "quantity / divisor", fields(), vec![]);
    let sum = column("sum", "quantity + 1", fields(), vec![]);
    let mut row = vec![("quantity".to_string(), number(&i32::MAX.to_string())), ("divisor".to_string(), number("0"))];
    let value = evaluate(&quotient, &row, 2);
    assert!(matches!(&value, AuthoringValue::Invalid { diagnostic } if diagnostic.code == "E-VIEW-ARITHMETIC"));
    assert!(matches!(evaluate(&sum, &row, 2), AuthoringValue::Invalid { .. }));
    row[0].1 = AuthoringValue::Null;
    assert!(matches!(evaluate(&sum, &row, 3), AuthoringValue::Invalid { .. }));
}

#[test]
fn lexer_diagnostics_keep_the_unexpected_character_span() {
    let error = resolve_computed_column(
        "value",
        "name @ 1",
        vec![("name".into(), scalar(PrimitiveType::String, false))],
        vec![],
        "view.yaml",
        "columns[0]",
    )
    .unwrap_err();
    assert_eq!(error.code, "E-VIEW-EXPRESSION-SYNTAX");
    assert_eq!(error.column, Some(6));
    assert_eq!(error.schema_path.as_deref(), Some("columns[0]"));
    assert_eq!(error.related_requirements, vec!["ADV-VIEW-002".to_string()]);
}

#[test]
fn conditional_and_enum_literal_are_typed_without_cross_column_dependencies() {
    let kind = || ScalarType::Enum { name: "Kind".into(), underlying: PrimitiveType::Int, members: vec!["Active".into()] };
    let display = column(
        "display",
        "status == Kind.Active ? \"active\" : \"other\"",
        vec![("status".into(), Some(ExpressionType::Scalar { scalar: kind(), nullable: false }))],
        vec![("Kind".into(), kind())],
    );
    let row = vec![("status".to_string(), text("Active"))];
    assert_eq!(evaluate(&display, &row, 0), text("active"));
}

#[test]
fn row_diagnostics_name_the_record_and_column() {
    let sum = column("sum", "quantity + 1", vec![("quantity".into(), scalar(PrimitiveType::Int, false))], vec![]);
    let row = vec![("quantity".to_string(), AuthoringValue::Null)];
    match evaluate(&sum, &row, 7) {
        AuthoringValue::Invalid { diagnostic } => {
            assert_eq!(diagnostic.code, "E-VIEW-ROW-EVALUATION");
            assert_eq!(diagnostic.message, "required source field `quantity` is null");
            assert_eq!(diagnostic.record_identity.as_deref(), Some("record[7]"));
            assert_eq!(diagnostic.source.as_deref(), Some("data.yaml"));
            assert_eq!(diagnostic.line, Some(1));
            assert_eq!(diagnostic.column, Some(1));
            assert_eq!(diagnostic.related_requirements, vec!["ADV-VIEW-003".to_string()]);
        },
        other => panic!("expected an invalid value, got {other:?}"),
    }
    let missing = evaluate(&sum, &vec![], 0);
    assert!(matches!(&missing, AuthoringValue::Invalid { diagnostic }
        if diagnostic.message == "source field `quantity` is unavailable for this record"));
}

#[test]
fn integer_arithmetic_is_checked_against_its_primitive() {
    let long_sum = column("total", "a * b", vec![("a".into(), scalar(PrimitiveType::Long, false)), ("b".into(), scalar(PrimitiveType::Long, false))], vec![]);
    let row = vec![("a".to_string(), number("3000000000")), ("b".to_string(), number("-3"))];
    assert_eq!(evaluate(&long_sum, &row, 0), number("-9000000000"));

    let remainder = column("rest", "a % b", vec![("a".into(), scalar(PrimitiveType::Int, false)), ("b".into(), scalar(PrimitiveType::Int, false))], vec![]);
    let row = vec![("a".to_string(), number("-7")), ("b".to_string(), number("2"))];
    assert_eq!(evaluate(&remainder, &row, 0), number("-1"));

    let unsigned = column("gap", "a - b", vec![("a".into(), scalar(PrimitiveType::UInt, false)), ("b".into(), scalar(PrimitiveType::UInt, false))], vec![]);
    let row = vec![("a".to_string(), number("1")), ("b".to_string(), number("2"))];
    match evaluate(&unsigned, &row, 0) {
        AuthoringValue::Invalid { diagnostic } => {
            assert_eq!(diagnostic.code, "E-VIEW-ARITHMETIC");
            assert_eq!(diagnostic.message, "unsigned arithmetic overflow or division by zero");
            assert_eq!(diagnostic.column, Some(1));
        },
        other => panic!("expected an invalid value, got {other:?}"),
    }

    let negated = column("neg", "-a", vec![("a".into(), scalar(PrimitiveType::Int, false))], vec![]);
    let row = vec![("a".to_string(), number("-2147483648"))];
    assert!(matches!(evaluate(&negated, &row, 0), AuthoringValue::Invalid { .. }));
    let row = vec![("a".to_string(), number("5"))];
    assert_eq!(evaluate(&negated, &row, 0), number("-5"));
}

#[test]
fn short_circuit_skips_the_right_operand() {
    let guard = column(
        "safe",
        "b != 0 && a / b > 1",
        vec![("a".into(), scalar(PrimitiveType::Int, false)), ("b".into(), scalar(PrimitiveType::Int, false))],
        vec![],
    );
    let row = vec![("a".to_string(), number("10")), ("b".to_string(), number("0"))];
    assert_eq!(evaluate(&guard, &row, 0), AuthoringValue::Bool { value: false });
    let row = vec![("a".to_string(), number("10")), ("b".to_string(), number("2"))];
    assert_eq!(evaluate(&guard, &row, 0), AuthoringValue::Bool { value: true });
}

#[test]
fn strings_compare_by_character_and_floats_by_the_supplied_order() {
    let before = column("before", "a < b", vec![("a".into(), scalar(PrimitiveType::String, false)), ("b".into(), scalar(PrimitiveType::String, false))], vec![]);
    let row = vec![("a".to_string(), text("Zebra")), ("b".to_string(), text("apple"))];
    assert_eq!(evaluate(&before, &row, 0), AuthoringValue::Bool { value: true });

    let larger = column("larger", "x >= y", vec![("x".into(), scalar(PrimitiveType::Double, false)), ("y".into(), scalar(PrimitiveType::Double, false))], vec![]);
    let row = vec![("x".to_string(), number("2.5")), ("y".to_string(), number("2.25"))];
    assert_eq!(evaluate(&larger, &row, 0), AuthoringValue::Bool { value: true });

    let half = column("half", "x / 2.0", vec![("x".into(), scalar(PrimitiveType::Double, false))], vec![]);
    let row = vec![("x".to_string(), number("5"))];
    assert_eq!(evaluate(&half, &row, 0), number("2.5"));
}

#[test]
fn invalid_source_values_and_shapes_are_row_problems() {
    let echo = column("echo", "a", vec![("a".into(), scalar(PrimitiveType::Int, false))], vec![]);
    let row = vec![("a".to_string(), number("12.5"))];
    assert!(matches!(evaluate(&echo, &row, 0), AuthoringValue::Invalid { diagnostic }
        if diagnostic.message == "source field `a` has an invalid value shape"));
    let literal = column("big", "3000000000", vec![], vec![]);
    assert!(matches!(evaluate(&literal, &vec![], 0), AuthoringValue::Invalid { diagnostic }
        if diagnostic.message == "integer literal is outside the v1 int range"));
}

#[test]
fn enum_shapes_list_members_in_ascending_order_once() {
    let ty = ExpressionType::Scalar {
        scalar: ScalarType::Enum { name: "Kind".into(), underlying: PrimitiveType::Int, members: vec!["b".into(), "a".into(), "b".into()] },
        nullable: true,
    };
    let shape = output_shape("kind", &ty).unwrap();
    assert_eq!(shape.modifier, FieldModifier::Nullable);
    assert_eq!(shape.declared_type, "Kind");
    match shape.shape {
        ResolvedAuthoringType::Enum { members, .. } => assert_eq!(members, vec!["a".to_string(), "b".to_string()]),
        other => panic!("expected an enum shape, got {other:?}"),
    }
    assert!(output_shape("none", &ExpressionType::Null).is_none());
    let literal = output_shape("n", &ExpressionType::FloatLiteral).unwrap();
    assert_eq!(literal.declared_type, "double");
}

#[test]
fn unsupported_columns_and_type_errors_are_column_diagnostics() {
    let error = resolve_computed_column("nothing", "null", vec![], vec![], "view.yaml", "columns[1]").unwrap_err();
    assert_eq!(error.code, "E-VIEW-UNSUPPORTED-OPERAND");
    assert_eq!(error.message, "computed column `nothing` does not produce a supported scalar value");
    assert_eq!(error.related_requirements, vec!["ADV-VIEW-003".to_string()]);
    let unknown = resolve_computed_column("value", "missing + 1", vec![], vec![], "view.yaml", "columns[0]").unwrap_err();
    assert_eq!(unknown.code, "E-VIEW-UNKNOWN-FIELD");
    assert_eq!(unknown.column, Some(1));
}

#[test]
fn views_are_selected_by_target_table() {
    let view = |name: &str, table: &str| ResolvedComputedView { name: name.into(), table: table.into(), source: "v.yaml".into(), columns: vec![] };
    let build = ComputedViewBuild { views: vec![view("a", "item"), view("b", "shop"), view("c", "item")], diagnostics: vec![] };
    assert_eq!(computed_views_for_table(&build, "item"), vec![0, 2]);
    assert!(computed_views_for_table(&build, "none").is_empty());
}
