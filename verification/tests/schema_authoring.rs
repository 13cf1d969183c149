use masterdata_core::document::{
    ConversionDefinition, CustomTypeDefinition, EnumDefinition, EnumMember, FlagsDefinition, IntegerLiteral,
    LoadedDocument, ProjectDocuments, SchemaDocument, SourceDocument, TypeDocument, TypeFieldDefinition,
    ValueObjectDefinition,
};
use masterdata_core::schema_authoring::{table_source, type_declaration_snapshot, type_source, TypeMemberView};

fn bare_type(name: &str) -> TypeDocument {
    TypeDocument {
        kind: "type".to_owned(),
        name: name.to_owned(),
        value_object: None,
        custom: None,
        enum_definition: None,
        flags: None,
    }
}

fn documents() -> ProjectDocuments {
    ProjectDocuments {
        files: vec![
            LoadedDocument {
                path: "schemas/items.yaml".to_owned(),
                source: String::new(),
                document: SourceDocument::Schema(SchemaDocument {
                    kind: "schema".to_owned(),
                    table: "items".to_owned(),
                    csharp_name: None,
                    fields: Vec::new(),
                    primary_key: None,
                    secondary_keys: Vec::new(),
                }),
            },
            LoadedDocument {
                path: "types/rarity.yaml".to_owned(),
                source: String::new(),
                document: SourceDocument::Type(bare_type("Rarity")),
            },
        ],
    }
}

fn members(values: &[(&str, i128)]) -> Vec<EnumMember> {
    values
        .iter()
        .map(|(name, value)| EnumMember { name: (*name).to_owned(), value: IntegerLiteral(*value) })
        .collect()
}

#[test]
fn editors_open_the_document_loaded_from_the_path() {
    let documents = documents();
    assert_eq!(table_source(&documents, "schemas/items.yaml").unwrap().table, "items");
    let wrong = table_source(&documents, "types/rarity.yaml").unwrap_err();
    assert_eq!(wrong.diagnostic.code, "E-TABLE-EDITOR-KIND");
    assert_eq!(wrong.diagnostic.message, "source is not a Table schema");
    let missing = table_source(&documents, "schemas/none.yaml").unwrap_err();
    assert_eq!(missing.diagnostic.code, "E-TABLE-EDITOR-SOURCE");
    assert_eq!(missing.diagnostic.message, "schema source not found");

    assert_eq!(type_source(&documents, "types/rarity.yaml").unwrap().name, "Rarity");
    let wrong = type_source(&documents, "schemas/items.yaml").unwrap_err();
    assert_eq!(wrong.diagnostic.code, "E-TYPE-EDITOR-INPUT");
    assert_eq!(wrong.diagnostic.message, "source is not a type");
    assert_eq!(type_source(&documents, "types/none.yaml").unwrap_err().diagnostic.message, "type source not found");
}

#[test]
fn a_type_snapshot_shows_its_category_and_members() {
    let mut value_object = bare_type("Gold");
    value_object.value_object = Some(ValueObjectDefinition {
        underlying: "long".to_owned(),
        conversions: ConversionDefinition { from_underlying_implicit: true, to_underlying_implicit: false },
    });
    let snapshot = type_declaration_snapshot("types/gold.yaml", value_object, vec!["int".to_owned()], Vec::new()).unwrap();
    assert_eq!(snapshot.path, "types/gold.yaml");
    assert_eq!(snapshot.name, "Gold");
    assert_eq!(snapshot.category, "Value Object");
    assert_eq!(snapshot.underlying.as_deref(), Some("long"));
    assert!(snapshot.conversions.unwrap().from_underlying_implicit);
    assert_eq!(snapshot.field_types, vec!["int".to_owned()]);

    let mut enumeration = bare_type("Rarity");
    enumeration.enum_definition = Some(EnumDefinition {
        underlying: "int".to_owned(),
        members: members(&[("Common", -3), ("Rare", 7)]),
    });
    let snapshot = type_declaration_snapshot("types/rarity.yaml", enumeration, Vec::new(), Vec::new()).unwrap();
    assert_eq!(snapshot.category, "Enum");
    assert_eq!(
        snapshot.members,
        vec![
            TypeMemberView { name: "Common".to_owned(), value: "-3".to_owned() },
            TypeMemberView { name: "Rare".to_owned(), value: "7".to_owned() },
        ]
    );

    let mut flags = bare_type("Perm");
    flags.flags = Some(FlagsDefinition { underlying: "uint".to_owned(), members: members(&[("Read", 1)]) });
    let snapshot = type_declaration_snapshot("types/perm.yaml", flags, Vec::new(), Vec::new()).unwrap();
    assert_eq!(snapshot.category, "Flags Enum");
    assert_eq!(snapshot.underlying.as_deref(), Some("uint"));

    let mut custom = bare_type("Point");
    custom.custom = Some(CustomTypeDefinition {
        fields: vec![TypeFieldDefinition { key: 0, name: "x".to_owned(), declared_type: "int".to_owned(), nullable: false, array: false }],
    });
    let snapshot = type_declaration_snapshot("types/point.yaml", custom, Vec::new(), Vec::new()).unwrap();
    assert_eq!(snapshot.category, "Custom Type");
    assert_eq!(snapshot.fields.len(), 1);
    assert!(snapshot.underlying.is_none());

    let error = type_declaration_snapshot("types/none.yaml", bare_type("None"), Vec::new(), Vec::new()).unwrap_err();
    assert_eq!(error.diagnostic.code, "E-TYPE-EDITOR-INPUT");
    assert_eq!(error.diagnostic.message, "unresolved category");
}
