use masterdata_core::document::{
    ConversionDefinition, FieldDefinition, LoadedDocument, PrimaryKeyDefinition, ProjectDocuments, SchemaDocument,
    SourceDocument, TypeDocument,
};
use masterdata_core::source_creation::{
    creation_declaration, starter_request, starter_stem, starter_table_name, starter_type_name, CreationMember,
    SourceCreation, StarterKind,
};

fn stem(text: &str) -> Vec<char> {
    text.chars().collect()
}

fn schema_file(table: &str) -> LoadedDocument {
    LoadedDocument {
        path: format!("schemas/{table}.yaml"),
        source: String::new(),
        document: SourceDocument::Schema(SchemaDocument {
            kind: "schema".to_owned(),
            table: table.to_owned(),
            csharp_name: None,
            fields: Vec::new(),
            primary_key: None,
            secondary_keys: Vec::new(),
        }),
    }
}

fn type_file(name: &str) -> LoadedDocument {
    LoadedDocument {
        path: format!("types/{name}.yaml"),
        source: String::new(),
        document: SourceDocument::Type(TypeDocument {
            kind: "type".to_owned(),
            name: name.to_owned(),
            value_object: None,
            custom: None,
            enum_definition: None,
            flags: None,
        }),
    }
}

fn project() -> ProjectDocuments {
    ProjectDocuments { files: vec![schema_file("items"), type_file("Rarity")] }
}

fn member(name: &str, value: &str) -> CreationMember {
    CreationMember { name: name.to_owned(), value: value.to_owned() }
}

#[test]
fn the_identity_stem_is_the_file_name_without_its_extension() {
    assert_eq!(starter_stem("tables/shop-items.yaml"), Some(stem("shop-items")));
    assert_eq!(starter_stem("a/b.c.d"), Some(stem("b.c")));
    assert_eq!(starter_stem("types/.hidden"), Some(stem(".hidden")));
    assert_eq!(starter_stem("noext"), Some(stem("noext")));
    assert_eq!(starter_stem("dir/.."), None);
    assert_eq!(starter_stem("/"), None);
    assert_eq!(starter_stem(""), None);
}

#[test]
fn starter_names_come_from_the_ascii_segments_of_the_stem() {
    assert_eq!(starter_table_name(&stem("Shop Items!"), "x.yaml").unwrap(), "shop-items");
    assert_eq!(starter_table_name(&stem("2024_events"), "x.yaml").unwrap(), "table2024-events");
    assert_eq!(starter_type_name(&stem("shop-items"), "x.yaml").unwrap(), "ShopItems");
    assert_eq!(starter_type_name(&stem("2d points"), "x.yaml").unwrap(), "Type2dPoints");
    let error = starter_table_name(&stem("---"), "tables/---.yaml").unwrap_err();
    assert_eq!(error.diagnostic.code, "E-SOURCE-CREATE-IDENTITY");
    assert_eq!(error.diagnostic.message, "starter filename must contain an ASCII identity segment");
    assert_eq!(error.diagnostic.source.as_deref(), Some("tables/---.yaml"));
    assert_eq!(error.diagnostic.related_requirements, vec!["SOURCE-CREATE-010".to_owned()]);
    assert!(starter_type_name(&stem("__"), "x.yaml").is_err());
}

#[test]
fn a_data_starter_needs_a_selected_table() {
    let missing = starter_request(StarterKind::Data, &stem("items"), None, "data/items.yaml").unwrap_err();
    assert_eq!(missing.diagnostic.code, "E-SOURCE-CREATE-TABLE");
    assert_eq!(missing.diagnostic.message, "Data creation requires an explicit existing Table selection");
    assert!(starter_request(StarterKind::Data, &stem("items"), Some(""), "data/items.yaml").is_err());
    match starter_request(StarterKind::Data, &stem("items"), Some("items"), "data/items.yaml").unwrap() {
        SourceCreation::Data { table } => assert_eq!(table, "items"),
        other => panic!("unexpected request {other:?}"),
    }
}

#[test]
fn a_folder_has_no_declaration() {
    let error = creation_declaration(&project(), "new-folder", SourceCreation::Folder).unwrap_err();
    assert_eq!(error.diagnostic.code, "E-SOURCE-CREATE-CATEGORY");
    assert_eq!(error.diagnostic.message, "folder has no source document");
}

#[test]
fn a_table_starter_declares_an_id_keyed_table() {
    let document = creation_declaration(
        &project(),
        "schemas/shop-items.yaml",
        SourceCreation::Starter { kind: StarterKind::Table, table: None },
    )
    .unwrap();
    match document {
        SourceDocument::Schema(schema) => {
            assert_eq!(schema.kind, "schema");
            assert_eq!(schema.table, "shop-items");
            assert_eq!(schema.fields.len(), 1);
            assert_eq!(schema.fields[0].name, "id");
            assert_eq!(schema.fields[0].declared_type, "int");
            assert_eq!(schema.fields[0].key, 0);
            assert_eq!(schema.primary_key, Some(PrimaryKeyDefinition { fields: vec!["id".to_owned()] }));
            assert!(schema.secondary_keys.is_empty());
        }
        other => panic!("unexpected document {other:?}"),
    }
}

#[test]
fn enum_and_flags_starters_declare_one_zero_member() {
    match creation_declaration(&project(), "types/quest-state.yaml", SourceCreation::Starter { kind: StarterKind::Enum, table: None })
        .unwrap()
    {
        SourceDocument::Type(declaration) => {
            assert_eq!(declaration.name, "QuestState");
            let definition = declaration.enum_definition.unwrap();
            assert_eq!(definition.underlying, "int");
            assert_eq!(definition.members.len(), 1);
            assert_eq!(definition.members[0].name, "Default");
            assert_eq!(definition.members[0].value.0, 0);
            assert!(declaration.flags.is_none());
        }
        other => panic!("unexpected document {other:?}"),
    }
    match creation_declaration(&project(), "types/perms.yaml", SourceCreation::Starter { kind: StarterKind::Flags, table: None })
        .unwrap()
    {
        SourceDocument::Type(declaration) => {
            assert_eq!(declaration.name, "Perms");
            assert_eq!(declaration.flags.unwrap().members[0].name, "None");
        }
        other => panic!("unexpected document {other:?}"),
    }
}

#[test]
fn data_needs_exactly_one_schema_of_its_table() {
    match creation_declaration(&project(), "data/items.yaml", SourceCreation::Data { table: "items".to_owned() }).unwrap() {
        SourceDocument::Data(data) => {
            assert_eq!(data.kind, "data");
            assert_eq!(data.table, "items");
            assert!(data.records.is_empty());
        }
        other => panic!("unexpected document {other:?}"),
    }
    let error = creation_declaration(&project(), "data/quests.yaml", SourceCreation::Data { table: "quests".to_owned() })
        .unwrap_err();
    assert_eq!(error.diagnostic.code, "E-SOURCE-CREATE-TABLE");
    assert_eq!(error.diagnostic.message, "Data creation requires exactly one existing Table schema");
}

#[test]
fn member_values_must_be_integers() {
    let request = SourceCreation::Enum {
        name: "Color".to_owned(),
        underlying: "int".to_owned(),
        members: vec![member("Red", "1"), member("Green", "two"), member("Blue", "x")],
    };
    let error = creation_declaration(&project(), "types/color.yaml", request).unwrap_err();
    assert_eq!(error.diagnostic.code, "E-SOURCE-CREATE-MEMBER");
    assert_eq!(error.diagnostic.message, "member value must be an explicit integer");
    assert_eq!(error.diagnostic.schema_path.as_deref(), Some("members[1].value"));

    let request = SourceCreation::Flags {
        name: "Perm".to_owned(),
        underlying: "long".to_owned(),
        members: vec![member("Read", "+1"), member("Write", "-2")],
    };
    match creation_declaration(&project(), "types/perm.yaml", request).unwrap() {
        SourceDocument::Type(declaration) => {
            let flags = declaration.flags.unwrap();
            assert_eq!(flags.underlying, "long");
            assert_eq!(flags.members[0].value.0, 1);
            assert_eq!(flags.members[1].value.0, -2);
        }
        other => panic!("unexpected document {other:?}"),
    }
}

#[test]
fn an_existing_table_or_type_identity_is_refused() {
    let table = SourceCreation::Table {
        table: "items".to_owned(),
        inline_records: false,
        csharp_name: None,
        fields: vec![FieldDefinition { key: 0, name: "id".to_owned(), declared_type: "int".to_owned(), nullable: false, array: false }],
        primary_key: PrimaryKeyDefinition { fields: vec!["id".to_owned()] },
        secondary_keys: Vec::new(),
    };
    let error = creation_declaration(&project(), "schemas/items2.yaml", table).unwrap_err();
    assert_eq!(error.diagnostic.code, "E-SOURCE-CREATE-IDENTITY");
    assert_eq!(error.diagnostic.message, "declaration identity already exists in this Project");

    let value_object = SourceCreation::ValueObject {
        name: "Rarity".to_owned(),
        underlying: "int".to_owned(),
        conversions: ConversionDefinition::default(),
    };
    assert!(creation_declaration(&project(), "types/rarity2.yaml", value_object).is_err());

    let custom = SourceCreation::CustomType {
        name: "Point".to_owned(),
        fields: Vec::new(),
    };
    match creation_declaration(&project(), "types/point.yaml", custom).unwrap() {
        SourceDocument::Type(declaration) => {
            assert_eq!(declaration.name, "Point");
            assert!(declaration.custom.unwrap().fields.is_empty());
        }
        other => panic!("unexpected document {other:?}"),
    }
}
