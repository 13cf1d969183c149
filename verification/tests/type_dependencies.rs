use masterdata_core::document::{
    CustomTypeDefinition, LoadedDocument, ProjectDocuments, SourceDocument, TypeDocument, TypeFieldDefinition,
};
use masterdata_core::migration::type_mutation::dependent_types;

fn declared(name: &str, fields: &[&str]) -> LoadedDocument {
    let custom = if fields.is_empty() {
        None
    } else {
        Some(CustomTypeDefinition {
            fields: fields
                .iter()
                .enumerate()
                .map(|(key, declared_type)| TypeFieldDefinition {
                    key: key as u32,
                    name: format!("f{key}"),
                    declared_type: (*declared_type).to_owned(),
                    nullable: false,
                    array: false,
                })
                .collect(),
        })
    };
    LoadedDocument {
        path: format!("types/{name}.yaml"),
        source: String::new(),
        document: SourceDocument::Type(TypeDocument {
            kind: "type".to_owned(),
            name: name.to_owned(),
            value_object: None,
            custom,
            enum_definition: None,
            flags: None,
        }),
    }
}

fn names(values: &[&str]) -> Vec<String> {
    values.iter().map(|value| (*value).to_owned()).collect()
}

#[test]
fn dependents_follow_custom_type_fields_transitively() {
    let documents = ProjectDocuments {
        files: vec![
            declared("Echo", &["Charlie", "Delta"]),
            declared("Charlie", &["Bravo"]),
            declared("Bravo", &["Alpha"]),
            declared("Alpha", &[]),
            declared("Delta", &["int"]),
        ],
    };
    assert_eq!(dependent_types(&documents, "Alpha"), names(&["Alpha", "Bravo", "Charlie", "Echo"]));
    assert_eq!(dependent_types(&documents, "Delta"), names(&["Delta", "Echo"]));
    assert_eq!(dependent_types(&documents, "Echo"), names(&["Echo"]));
    assert_eq!(dependent_types(&documents, "Missing"), names(&["Missing"]));
}
