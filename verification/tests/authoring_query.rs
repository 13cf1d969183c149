use masterdata_core::authoring_query::{
    apply_authoring_query, AuthoringQuery, ColumnFilter, QueryOperator, QueryRow, QuerySort,
    SortDirection,
};
use masterdata_core::authoring_value::AuthoringValue;
use masterdata_core::type_system::{
    FieldModifier, PrimitiveType, ResolvedAuthoringField, ResolvedAuthoringType,
};

fn field(name: &str, primitive: PrimitiveType) -> ResolvedAuthoringField {
    ResolvedAuthoringField {
        name: name.into(),
        declared_type: primitive.name().into(),
        modifier: FieldModifier::Required,
        shape: ResolvedAuthoringType::Primitive { primitive },
    }
}
fn string_field() -> ResolvedAuthoringField {
    field("name", PrimitiveType::String)
}
fn nullable_field(name: &str, primitive: PrimitiveType) -> ResolvedAuthoringField {
    let mut field = field(name, primitive);
    field.modifier = FieldModifier::Nullable;
    field
}
fn string(value: &str) -> AuthoringValue {
    AuthoringValue::String {
        value: value.into(),
    }
}
fn number(value: &str) -> AuthoringValue {
    AuthoringValue::Number {
        value: value.into(),
    }
}

#[test]
fn search_is_or_and_filters_are_and() {
    let columns = vec![string_field(), field("id", PrimitiveType::ULong)];
    let rows = vec![
        QueryRow {
            source_order: 0,
            values: vec![string("alpha"), number("10")],
        },
        QueryRow {
            source_order: 1,
            values: vec![string("beta"), number("20")],
        },
    ];
    let query = AuthoringQuery {
        search: "a".into(),
        filters: vec![ColumnFilter {
            field: "id".into(),
            operator: QueryOperator::GreaterThan,
            value: Some(number("15")),
        }],
        sort: None,
    };
    assert_eq!(
        apply_authoring_query(&columns, &rows, &query).unwrap(),
        vec![1]
    );
}

#[test]
fn sort_keeps_null_and_invalid_groups_stable_and_reverses_valid_only() {
    let columns = vec![field("id", PrimitiveType::Long)];
    let rows = vec![
        QueryRow {
            source_order: 0,
            values: vec![number("2")],
        },
        QueryRow {
            source_order: 1,
            values: vec![AuthoringValue::Null],
        },
        QueryRow {
            source_order: 2,
            values: vec![string("bad")],
        },
        QueryRow {
            source_order: 3,
            values: vec![number("1")],
        },
    ];
    let asc = AuthoringQuery {
        sort: Some(QuerySort {
            field: "id".into(),
            direction: SortDirection::Ascending,
        }),
        ..Default::default()
    };
    assert_eq!(
        apply_authoring_query(&columns, &rows, &asc).unwrap(),
        vec![3, 0, 1, 2]
    );
    let desc = AuthoringQuery {
        sort: Some(QuerySort {
            field: "id".into(),
            direction: SortDirection::Descending,
        }),
        ..Default::default()
    };
    assert_eq!(
        apply_authoring_query(&columns, &rows, &desc).unwrap(),
        vec![0, 3, 1, 2]
    );
}

#[test]
fn null_and_invalid_filters_are_distinct() {
    let columns = vec![nullable_field("id", PrimitiveType::Int)];
    let rows = vec![
        QueryRow {
            source_order: 0,
            values: vec![AuthoringValue::Null],
        },
        QueryRow {
            source_order: 1,
            values: vec![string("bad")],
        },
    ];
    let null = AuthoringQuery {
        filters: vec![ColumnFilter {
            field: "id".into(),
            operator: QueryOperator::IsNull,
            value: None,
        }],
        ..Default::default()
    };
    let invalid = AuthoringQuery {
        filters: vec![ColumnFilter {
            field: "id".into(),
            operator: QueryOperator::IsInvalid,
            value: None,
        }],
        ..Default::default()
    };
    assert_eq!(
        apply_authoring_query(&columns, &rows, &null).unwrap(),
        vec![0]
    );
    assert_eq!(
        apply_authoring_query(&columns, &rows, &invalid).unwrap(),
        vec![1]
    );
}

#[test]
fn required_null_is_visible_to_both_null_and_invalid_filters() {
    let columns = vec![field("id", PrimitiveType::Int)];
    let rows = vec![QueryRow {
        source_order: 0,
        values: vec![AuthoringValue::Null],
    }];
    for operator in [QueryOperator::IsNull, QueryOperator::IsInvalid] {
        let query = AuthoringQuery {
            filters: vec![ColumnFilter {
                field: "id".into(),
                operator,
                value: None,
            }],
            ..Default::default()
        };
        assert_eq!(
            apply_authoring_query(&columns, &rows, &query).unwrap(),
            vec![0]
        );
    }
}

#[test]
fn boolean_equality_and_search_use_shared_scalar_semantics() {
    let columns = vec![field("enabled", PrimitiveType::Bool)];
    let rows = vec![
        QueryRow {
            source_order: 0,
            values: vec![AuthoringValue::Bool { value: true }],
        },
        QueryRow {
            source_order: 1,
            values: vec![AuthoringValue::Bool { value: false }],
        },
    ];
    let query = AuthoringQuery {
        search: "true".into(),
        filters: vec![ColumnFilter {
            field: "enabled".into(),
            operator: QueryOperator::Equals,
            value: Some(AuthoringValue::Bool { value: true }),
        }],
        ..Default::default()
    };
    assert_eq!(
        apply_authoring_query(&columns, &rows, &query).unwrap(),
        vec![0]
    );
}

#[test]
fn query_refusals_name_the_first_problem() {
    let columns = vec![string_field(), field("ratio", PrimitiveType::Double)];
    let rows = vec![QueryRow { source_order: 0, values: vec![string("a"), number("1.5")] }];
    let unknown = AuthoringQuery {
        filters: vec![ColumnFilter { field: "missing".into(), operator: QueryOperator::IsNull, value: None }],
        ..Default::default()
    };
    let error = apply_authoring_query(&columns, &rows, &unknown).unwrap_err();
    assert_eq!(error.diagnostic().code, "E-AUTHORING-QUERY-FIELD");
    assert_eq!(error.diagnostic().message, "unknown query field `missing`");
    assert_eq!(error.diagnostic().related_requirements, vec!["AUTHORING-QUERY-002"]);

    let unwanted = AuthoringQuery {
        filters: vec![ColumnFilter { field: "name".into(), operator: QueryOperator::IsNull, value: Some(string("a")) }],
        ..Default::default()
    };
    let error = apply_authoring_query(&columns, &rows, &unwanted).unwrap_err();
    assert_eq!(error.diagnostic().code, "E-AUTHORING-QUERY-INPUT");
    assert_eq!(error.diagnostic().message, "operator IsNull does not accept a value");

    let float_equality = AuthoringQuery {
        filters: vec![ColumnFilter { field: "ratio".into(), operator: QueryOperator::Equals, value: Some(number("1.5")) }],
        ..Default::default()
    };
    let error = apply_authoring_query(&columns, &rows, &float_equality).unwrap_err();
    assert_eq!(error.diagnostic().code, "E-AUTHORING-QUERY-OPERATOR-UNSUPPORTED");
    assert_eq!(error.diagnostic().message, "equality is not supported for `ratio`");

    let contains_number = AuthoringQuery {
        filters: vec![ColumnFilter { field: "ratio".into(), operator: QueryOperator::LessThan, value: Some(number("2")) }],
        ..Default::default()
    };
    let error = apply_authoring_query(&columns, &rows, &contains_number).unwrap_err();
    assert_eq!(error.diagnostic().message, "numeric comparison is not supported for `ratio`");

    let unsortable = AuthoringQuery {
        sort: Some(QuerySort { field: "ratio".into(), direction: SortDirection::Ascending }),
        ..Default::default()
    };
    let error = apply_authoring_query(&columns, &rows, &unsortable).unwrap_err();
    assert_eq!(error.diagnostic().code, "E-AUTHORING-QUERY-SORT-UNSUPPORTED");
    assert_eq!(error.diagnostic().message, "field `ratio` is outside v1 sort capability");

    let ragged = vec![QueryRow { source_order: 0, values: vec![string("a")] }];
    let error = apply_authoring_query(&columns, &ragged, &AuthoringQuery::default()).unwrap_err();
    assert_eq!(error.diagnostic().code, "E-AUTHORING-QUERY-ROW-SHAPE");
}

#[test]
fn string_sort_uses_utf16_code_units_and_contains_matches_substrings() {
    let columns = vec![string_field()];
    let rows = vec![
        QueryRow { source_order: 0, values: vec![string("\u{1F600}")] },
        QueryRow { source_order: 1, values: vec![string("\u{FF21}")] },
        QueryRow { source_order: 2, values: vec![string("b")] },
        QueryRow { source_order: 3, values: vec![string("ab")] },
    ];
    let sorted = AuthoringQuery {
        sort: Some(QuerySort { field: "name".into(), direction: SortDirection::Ascending }),
        ..Default::default()
    };
    // U+1F600 is the surrogate pair D83D DE00, which sorts before U+FF21.
    assert_eq!(apply_authoring_query(&columns, &rows, &sorted).unwrap(), vec![3, 2, 0, 1]);
    let contains = AuthoringQuery {
        filters: vec![ColumnFilter { field: "name".into(), operator: QueryOperator::Contains, value: Some(string("b")) }],
        ..Default::default()
    };
    assert_eq!(apply_authoring_query(&columns, &rows, &contains).unwrap(), vec![2, 3]);
    let not_equal = AuthoringQuery {
        filters: vec![ColumnFilter { field: "name".into(), operator: QueryOperator::NotEquals, value: Some(string("b")) }],
        ..Default::default()
    };
    assert_eq!(apply_authoring_query(&columns, &rows, &not_equal).unwrap(), vec![0, 1, 3]);
}

#[test]
fn equal_sort_keys_keep_source_order_in_both_directions() {
    let columns = vec![field("rank", PrimitiveType::Int)];
    let rows = vec![
        QueryRow { source_order: 0, values: vec![number("5")] },
        QueryRow { source_order: 1, values: vec![number("7")] },
        QueryRow { source_order: 2, values: vec![number("5")] },
    ];
    let asc = AuthoringQuery {
        sort: Some(QuerySort { field: "rank".into(), direction: SortDirection::Ascending }),
        ..Default::default()
    };
    assert_eq!(apply_authoring_query(&columns, &rows, &asc).unwrap(), vec![0, 2, 1]);
    let desc = AuthoringQuery {
        sort: Some(QuerySort { field: "rank".into(), direction: SortDirection::Descending }),
        ..Default::default()
    };
    assert_eq!(apply_authoring_query(&columns, &rows, &desc).unwrap(), vec![1, 0, 2]);
}
