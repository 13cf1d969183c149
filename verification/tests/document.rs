use masterdata_core::document::{DataDocument, DataValue};

#[test]
fn data_values_clone_to_equal_values() {
    let value = DataValue::Mapping(vec![(
        DataValue::Text("drops".into()),
        DataValue::Sequence(vec![
            DataValue::Number("1.5".into()),
            DataValue::Bool(true),
            DataValue::Tagged("!Rare".into(), Box::new(DataValue::Null)),
        ]),
    )]);
    assert_eq!(value.clone(), value);
    let data = DataDocument {
        kind: "data".into(),
        table: "Items".into(),
        records: vec![vec![("id".into(), DataValue::Number("1".into())), ("name".into(), value)]],
    };
    assert_eq!(data.clone(), data);
}
