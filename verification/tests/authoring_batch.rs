use masterdata_core::authoring_batch::{
    authoring_value_from_clipboard, authoring_value_to_clipboard, decode_clipboard_tsv,
    encode_clipboard_tsv, is_scalar_batch_field,
};
use masterdata_core::authoring_value::AuthoringValue;
use masterdata_core::type_system::{
    FieldModifier, PrimitiveType, ResolvedAuthoringField, ResolvedAuthoringType,
};

fn field(primitive: PrimitiveType) -> ResolvedAuthoringField {
    ResolvedAuthoringField {
        name: "value".into(),
        declared_type: primitive.name().into(),
        modifier: FieldModifier::Required,
        shape: ResolvedAuthoringType::Primitive { primitive },
    }
}

#[test]
fn codec_preserves_quotes_tabs_newlines_crlf_and_terminal_fields() {
    let input = "\"a\tb\"\t\"line1\nline2\r\nline3\"\t\"quote \"\"x\"\"\"\t\nnext\t";
    let decoded = decode_clipboard_tsv(input).expect("decode");
    assert_eq!(decoded[0][0], "a\tb");
    assert_eq!(decoded[0][1], "line1\nline2\r\nline3");
    assert_eq!(decoded[0][2], "quote \"x\"");
    assert_eq!(decoded[0][3], "");
    assert_eq!(decoded[1], vec!["next", ""]);
    assert_eq!(decode_clipboard_tsv("a\n").unwrap(), vec![vec!["a"]]);
    assert_eq!(
        decode_clipboard_tsv("a\n\n").unwrap(),
        vec![vec!["a"], vec![""]]
    );
}

#[test]
fn codec_rejects_ragged_is_not_implicit_and_quotes_are_strict() {
    assert!(decode_clipboard_tsv("a\rb").is_err());
    assert!(decode_clipboard_tsv("a\"b").is_err());
    assert!(decode_clipboard_tsv("\"a\"x").is_err());
    assert!(decode_clipboard_tsv("\"a").is_err());
    let rows = decode_clipboard_tsv("a\tb\nc").unwrap();
    assert_ne!(rows[0].len(), rows[1].len());
}

#[test]
fn encode_quotes_every_field_and_round_trips_empty_text() {
    let rows: Vec<Vec<String>> = vec![vec!["".into(), "001".into(), "=SUM(A1)".into()]];
    let encoded = encode_clipboard_tsv(&rows).unwrap();
    assert_eq!(encoded, "\"\"\t\"001\"\t\"=SUM(A1)\"");
    assert_eq!(decode_clipboard_tsv(&encoded).unwrap(), rows);
}

#[test]
fn typed_conversion_keeps_invalid_domain_input_literal() {
    assert_eq!(
        authoring_value_from_clipboard(&field(PrimitiveType::ULong), "18446744073709551615")
            .unwrap(),
        AuthoringValue::Number {
            value: "18446744073709551615".into()
        }
    );
    assert_eq!(
        authoring_value_from_clipboard(&field(PrimitiveType::Int), "1.0").unwrap(),
        AuthoringValue::String {
            value: "1.0".into()
        }
    );
    assert_eq!(
        authoring_value_from_clipboard(&field(PrimitiveType::String), "null").unwrap(),
        AuthoringValue::String {
            value: "null".into()
        }
    );
}

#[test]
fn copy_rejects_invalid_values_and_preserves_float_category() {
    assert_eq!(
        authoring_value_to_clipboard(
            &field(PrimitiveType::Double),
            &AuthoringValue::Number { value: "1".into() },
        )
        .unwrap(),
        "1.0"
    );
    assert!(
        authoring_value_to_clipboard(&field(PrimitiveType::Int), &AuthoringValue::Null).is_err()
    );
    assert!(
        authoring_value_to_clipboard(
            &ResolvedAuthoringField {
                name: "kind".into(),
                declared_type: "Kind".into(),
                modifier: FieldModifier::Required,
                shape: ResolvedAuthoringType::Enum {
                    name: "Kind".into(),
                    underlying: PrimitiveType::Int,
                    members: vec!["Known".into()],
                },
            },
            &AuthoringValue::String {
                value: "Unknown".into()
            },
        )
        .is_err()
    );
}

#[test]
fn decode_of_encode_gives_back_the_rectangle() {
    let rows: Vec<Vec<String>> = vec![
        vec!["a\"b".into(), "".into(), "tab\there".into()],
        vec!["line\r\nbreak".into(), "x".into(), "\"".into()],
    ];
    let encoded = encode_clipboard_tsv(&rows).unwrap();
    assert_eq!(decode_clipboard_tsv(&encoded).unwrap(), rows);
}

#[test]
fn empty_clipboard_is_one_empty_field_and_empty_rectangle_is_refused() {
    assert_eq!(decode_clipboard_tsv("").unwrap(), vec![vec![""]]);
    let empty: Vec<Vec<String>> = Vec::new();
    let error = encode_clipboard_tsv(&empty).unwrap_err();
    assert_eq!(error.diagnostic().code, "E-AUTHORING-CLIPBOARD-CODEC");
    assert_eq!(error.diagnostic().related_requirements, vec!["AUTHORING-BATCH-003"]);
    let ragged: Vec<Vec<String>> = vec![vec![]];
    assert!(encode_clipboard_tsv(&ragged).is_err());
}

#[test]
fn clipboard_conversion_reads_booleans_numbers_and_refuses_complex_fields() {
    assert_eq!(
        authoring_value_from_clipboard(&field(PrimitiveType::Bool), "true").unwrap(),
        AuthoringValue::Bool { value: true }
    );
    assert_eq!(
        authoring_value_from_clipboard(&field(PrimitiveType::Bool), "TRUE").unwrap(),
        AuthoringValue::String { value: "TRUE".into() }
    );
    assert_eq!(
        authoring_value_from_clipboard(&field(PrimitiveType::Double), "1.5e3").unwrap(),
        AuthoringValue::Number { value: "1.5e3".into() }
    );
    assert_eq!(
        authoring_value_from_clipboard(&field(PrimitiveType::Double), "1e400").unwrap(),
        AuthoringValue::String { value: "1e400".into() }
    );
    assert_eq!(
        authoring_value_from_clipboard(&field(PrimitiveType::Int), "-0012").unwrap(),
        AuthoringValue::String { value: "-0012".into() }
    );
    assert_eq!(
        authoring_value_from_clipboard(&field(PrimitiveType::UInt), "-1").unwrap(),
        AuthoringValue::String { value: "-1".into() }
    );
    assert_eq!(
        authoring_value_from_clipboard(&field(PrimitiveType::Int), "").unwrap(),
        AuthoringValue::String { value: "".into() }
    );
    let mut array = field(PrimitiveType::Int);
    array.modifier = FieldModifier::Array;
    assert!(!is_scalar_batch_field(&array));
    let error = authoring_value_from_clipboard(&array, "1").unwrap_err();
    assert_eq!(error.diagnostic().code, "E-AUTHORING-BATCH-UNSUPPORTED-FIELD");
    assert_eq!(error.diagnostic().message, "field `value` is outside scalar batch authoring");
    let copy = authoring_value_to_clipboard(&array, &AuthoringValue::Null).unwrap_err();
    assert_eq!(copy.diagnostic().code, "E-AUTHORING-BATCH-COPY-UNSUPPORTED");
}

#[test]
fn copy_writes_booleans_and_valid_integers() {
    assert_eq!(
        authoring_value_to_clipboard(&field(PrimitiveType::Bool), &AuthoringValue::Bool { value: false })
            .unwrap(),
        "false"
    );
    assert_eq!(
        authoring_value_to_clipboard(&field(PrimitiveType::Long), &AuthoringValue::Number { value: "-42".into() })
            .unwrap(),
        "-42"
    );
    let error = authoring_value_to_clipboard(
        &field(PrimitiveType::Int),
        &AuthoringValue::Number { value: "4294967296".into() },
    )
    .unwrap_err();
    assert_eq!(error.diagnostic().code, "E-AUTHORING-BATCH-COPY-INVALID");
    assert_eq!(error.diagnostic().related_requirements, vec!["AUTHORING-BATCH-004"]);
}
