use masterdata_core::authoring_value::{
    project_source_value, project_typed_source_value, AuthoringMember, AuthoringSequenceItem, AuthoringValue,
};
use masterdata_core::document::DataValue;
use masterdata_core::type_system::{FieldModifier, PrimitiveType, ResolvedAuthoringField, ResolvedAuthoringType};

fn text(value: &str) -> DataValue {
    DataValue::Text(value.to_owned())
}

fn string(value: &str) -> AuthoringValue {
    AuthoringValue::String { value: value.to_owned() }
}

fn field(name: &str, modifier: FieldModifier, shape: ResolvedAuthoringType) -> ResolvedAuthoringField {
    ResolvedAuthoringField { name: name.to_owned(), declared_type: "T".to_owned(), modifier, shape }
}

fn int_shape() -> ResolvedAuthoringType {
    ResolvedAuthoringType::Primitive { primitive: PrimitiveType::Int }
}

#[test]
fn sequence_projection_serializes_stable_source_occurrences_for_the_ui() {
    let projected = project_source_value(&DataValue::Sequence(vec![text("first")]))
        .expect("plain sequence values can be projected");
    assert_eq!(
        projected,
        AuthoringValue::Sequence {
            items: vec![AuthoringSequenceItem { source_index: Some(0), value: string("first") }],
            source_identity: true,
        }
    );
}

#[test]
fn source_values_keep_their_text_and_member_names() {
    assert_eq!(project_source_value(&DataValue::Null).unwrap(), AuthoringValue::Null);
    assert_eq!(project_source_value(&DataValue::Bool(true)).unwrap(), AuthoringValue::Bool { value: true });
    assert_eq!(
        project_source_value(&DataValue::Number("1.50".into())).unwrap(),
        AuthoringValue::Number { value: "1.50".into() }
    );
    let mapping = DataValue::Mapping(vec![(text("x"), DataValue::Number("2".into()))]);
    assert_eq!(
        project_source_value(&mapping).unwrap(),
        AuthoringValue::Mapping {
            entries: vec![AuthoringMember { name: "x".into(), value: AuthoringValue::Number { value: "2".into() } }]
        }
    );
}

#[test]
fn tagged_values_and_keys_that_are_not_strings_are_refused() {
    let tagged = project_source_value(&DataValue::Tagged("!T".into(), Box::new(DataValue::Null))).unwrap_err();
    assert_eq!(tagged.diagnostic.code, "E-SOURCE-EDIT-VALUE-UNSUPPORTED");
    assert_eq!(tagged.diagnostic.message, "tagged YAML values cannot be projected as typed authoring values");
    assert_eq!(tagged.diagnostic.related_requirements, vec!["SOURCE-EDIT-015".to_string()]);
    let keyed = project_source_value(&DataValue::Mapping(vec![(DataValue::Number("1".into()), DataValue::Null)]))
        .unwrap_err();
    assert_eq!(keyed.diagnostic.message, "Custom Type mappings must use string member names");
    let nested = project_source_value(&DataValue::Sequence(vec![
        DataValue::Null,
        DataValue::Tagged("!T".into(), Box::new(DataValue::Null)),
    ]))
    .unwrap_err();
    assert_eq!(nested.diagnostic.message, "tagged YAML values cannot be projected as typed authoring values");
}

#[test]
fn typed_values_follow_the_field_shape() {
    let count = field("count", FieldModifier::Required, int_shape());
    assert_eq!(
        project_typed_source_value(&count, &DataValue::Number("3".into())).unwrap(),
        AuthoringValue::Number { value: "3".into() }
    );
    assert_eq!(project_typed_source_value(&count, &DataValue::Null).unwrap(), AuthoringValue::Null);
    assert_eq!(
        project_typed_source_value(&count, &DataValue::Sequence(Vec::new())).unwrap_err().diagnostic.message,
        "scalar source value has a collection shape"
    );
    let counts = field("counts", FieldModifier::Array, int_shape());
    assert_eq!(
        project_typed_source_value(&counts, &DataValue::Number("3".into())).unwrap_err().diagnostic.message,
        "Array source value is not a sequence"
    );
    assert_eq!(
        project_typed_source_value(&counts, &DataValue::Sequence(vec![DataValue::Number("4".into())])).unwrap(),
        AuthoringValue::Sequence {
            items: vec![AuthoringSequenceItem { source_index: Some(0), value: AuthoringValue::Number { value: "4".into() } }],
            source_identity: true,
        }
    );
    let flags = field(
        "flags",
        FieldModifier::Required,
        ResolvedAuthoringType::Flags { name: "F".into(), underlying: PrimitiveType::Int, members: vec!["A".into()] },
    );
    assert_eq!(
        project_typed_source_value(&flags, &text("A")).unwrap_err().diagnostic.message,
        "Flags source value is not a sequence"
    );
    assert_eq!(
        project_typed_source_value(&flags, &DataValue::Sequence(vec![DataValue::Sequence(Vec::new())]))
            .unwrap_err()
            .diagnostic
            .message,
        "Flags source member is not a scalar"
    );
    let point = field(
        "point",
        FieldModifier::Required,
        ResolvedAuthoringType::Custom { name: "Point".into(), fields: vec![field("x", FieldModifier::Required, int_shape())] },
    );
    assert_eq!(
        project_typed_source_value(&point, &text("p")).unwrap_err().diagnostic.message,
        "Custom Type source value is not a mapping"
    );
    assert_eq!(
        project_typed_source_value(&point, &DataValue::Mapping(vec![(text("x"), DataValue::Sequence(Vec::new()))]))
            .unwrap_err()
            .diagnostic
            .message,
        "scalar source value has a collection shape"
    );
    assert_eq!(
        project_typed_source_value(
            &point,
            &DataValue::Mapping(vec![(text("x"), DataValue::Number("1".into())), (text("y"), text("free"))])
        )
        .unwrap(),
        AuthoringValue::Mapping {
            entries: vec![
                AuthoringMember { name: "x".into(), value: AuthoringValue::Number { value: "1".into() } },
                AuthoringMember { name: "y".into(), value: string("free") },
            ]
        }
    );
}
