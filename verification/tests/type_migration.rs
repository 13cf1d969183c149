use masterdata_core::document::{
    ConversionDefinition, CustomTypeDefinition, EnumDefinition, EnumMember, FlagsDefinition, IntegerLiteral,
    LoadedDocument, ProjectDocuments, SourceDocument, TypeDocument, TypeFieldDefinition, ValueObjectDefinition,
};
use masterdata_core::migration::type_mutation::{
    expected_type_migration, migrate_type_declaration, migration_type_declaration, TypeMigrationCommand, TypeMigrationOperation,
};

fn bare(name: &str) -> TypeDocument {
    TypeDocument { kind: "type".to_owned(), name: name.to_owned(), value_object: None, custom: None, enum_definition: None, flags: None }
}

fn member(name: &str, value: i128) -> EnumMember {
    EnumMember { name: name.to_owned(), value: IntegerLiteral(value) }
}

fn field(key: u32, name: &str) -> TypeFieldDefinition {
    TypeFieldDefinition { key, name: name.to_owned(), declared_type: "int".to_owned(), nullable: false, array: false }
}

fn message(result: Result<TypeDocument, masterdata_core::error::MasterdataError>) -> String {
    let error = result.unwrap_err();
    assert_eq!(error.diagnostic.code, "E-TYPE-MIGRATION");
    assert_eq!(error.diagnostic.related_requirements, vec!["TYPE-MIGRATION-014".to_owned()]);
    error.diagnostic.message
}

#[test]
fn the_migration_target_is_the_one_type_declaring_the_name() {
    let documents = ProjectDocuments {
        files: vec![LoadedDocument { path: "types/a.yaml".to_owned(), source: String::new(), document: SourceDocument::Type(bare("Alpha")) }],
    };
    assert_eq!(migration_type_declaration(&documents, "Alpha").unwrap().name, "Alpha");
    assert_eq!(migration_type_declaration(&documents, "Beta").unwrap_err().diagnostic.message, "type `Beta` cannot be resolved uniquely");
}

#[test]
fn a_target_declared_twice_is_refused() {
    let declared = |path: &str| LoadedDocument { path: path.to_owned(), source: String::new(), document: SourceDocument::Type(bare("Alpha")) };
    let documents = ProjectDocuments { files: vec![declared("types/a.yaml"), declared("types/b.yaml")] };
    let error = migration_type_declaration(&documents, "Alpha").unwrap_err();
    assert_eq!(error.diagnostic.code, "E-TYPE-MIGRATION");
    assert_eq!(error.diagnostic.message, "type `Alpha` cannot be resolved uniquely");
    let command = TypeMigrationCommand { target: "Alpha".to_owned(), operation: TypeMigrationOperation::AddEnumMember(member("X", 0)) };
    assert_eq!(expected_type_migration(documents, command).unwrap_err().diagnostic.message, "type `Alpha` cannot be resolved uniquely");
}

#[test]
fn value_object_conversions_are_replaced() {
    let mut gold = bare("Gold");
    gold.value_object = Some(ValueObjectDefinition { underlying: "long".to_owned(), conversions: ConversionDefinition::default() });
    let conversions = ConversionDefinition { from_underlying_implicit: true, to_underlying_implicit: true };
    let after = migrate_type_declaration(gold, TypeMigrationOperation::SetValueObjectConversions(conversions)).unwrap();
    assert_eq!(after.value_object.unwrap(), ValueObjectDefinition { underlying: "long".to_owned(), conversions });
    assert_eq!(
        message(migrate_type_declaration(bare("Point"), TypeMigrationOperation::SetValueObjectConversions(conversions))),
        "target is not a Value Object"
    );
}

#[test]
fn enum_members_are_added_renamed_and_dropped() {
    let mut rarity = bare("Rarity");
    rarity.enum_definition = Some(EnumDefinition { underlying: "int".to_owned(), members: vec![member("Common", 0), member("Rare", 1)] });
    let added = migrate_type_declaration(rarity.clone(), TypeMigrationOperation::AddEnumMember(member("Epic", 2))).unwrap();
    assert_eq!(added.enum_definition.unwrap().members, vec![member("Common", 0), member("Rare", 1), member("Epic", 2)]);
    let renamed = migrate_type_declaration(
        rarity.clone(),
        TypeMigrationOperation::RenameEnumMember { member: "Rare".to_owned(), new_name: "Scarce".to_owned() },
    )
    .unwrap();
    assert_eq!(renamed.enum_definition.unwrap().members, vec![member("Common", 0), member("Scarce", 1)]);
    let dropped = migrate_type_declaration(rarity.clone(), TypeMigrationOperation::DropEnumMember { member: "Common".to_owned() }).unwrap();
    assert_eq!(dropped.enum_definition.unwrap().members, vec![member("Rare", 1)]);
    assert_eq!(
        message(migrate_type_declaration(rarity, TypeMigrationOperation::DropEnumMember { member: "Legend".to_owned() })),
        "member not found"
    );
    assert_eq!(
        message(migrate_type_declaration(bare("Gold"), TypeMigrationOperation::AddEnumMember(member("X", 0)))),
        "target is not Enum or Flags"
    );
}

#[test]
fn flags_keep_their_none_member() {
    let mut perm = bare("Perm");
    perm.flags = Some(FlagsDefinition { underlying: "int".to_owned(), members: vec![member("None", 0), member("Read", 1)] });
    assert_eq!(
        message(migrate_type_declaration(perm.clone(), TypeMigrationOperation::DropEnumMember { member: "None".to_owned() })),
        "Flags None = 0 cannot be renamed or dropped"
    );
    let dropped = migrate_type_declaration(perm, TypeMigrationOperation::DropEnumMember { member: "Read".to_owned() }).unwrap();
    assert_eq!(dropped.flags.unwrap().members, vec![member("None", 0)]);
}

#[test]
fn custom_fields_are_added_renamed_and_dropped() {
    let mut point = bare("Point");
    point.custom = Some(CustomTypeDefinition { fields: vec![field(0, "x"), field(1, "y")] });
    let added = migrate_type_declaration(point.clone(), TypeMigrationOperation::AddCustomField { field: field(2, "z"), initializer: None }).unwrap();
    assert_eq!(added.custom.unwrap().fields.len(), 3);
    let renamed = migrate_type_declaration(
        point.clone(),
        TypeMigrationOperation::RenameCustomField { field: "y".to_owned(), new_name: "height".to_owned() },
    )
    .unwrap();
    assert_eq!(renamed.custom.unwrap().fields[1], field(1, "height"));
    let dropped = migrate_type_declaration(point.clone(), TypeMigrationOperation::DropCustomField { field: "x".to_owned() }).unwrap();
    assert_eq!(dropped.custom.unwrap().fields, vec![field(1, "y")]);
    assert_eq!(
        message(migrate_type_declaration(point, TypeMigrationOperation::DropCustomField { field: "w".to_owned() })),
        "field not found"
    );
    assert_eq!(
        message(migrate_type_declaration(bare("Gold"), TypeMigrationOperation::DropCustomField { field: "x".to_owned() })),
        "target is not Custom Type"
    );
}

#[test]
fn the_expected_documents_change_only_the_target_type() {
    let mut rarity = bare("Rarity");
    rarity.enum_definition = Some(EnumDefinition { underlying: "int".to_owned(), members: vec![member("Common", 0)] });
    let documents = ProjectDocuments {
        files: vec![
            LoadedDocument { path: "types/gold.yaml".to_owned(), source: "g".to_owned(), document: SourceDocument::Type(bare("Gold")) },
            LoadedDocument { path: "types/rarity.yaml".to_owned(), source: "r".to_owned(), document: SourceDocument::Type(rarity) },
        ],
    };
    let command = TypeMigrationCommand {
        target: "Rarity".to_owned(),
        operation: TypeMigrationOperation::AddEnumMember(member("Rare", 1)),
    };
    let expected = expected_type_migration(documents.clone(), command).unwrap();
    assert_eq!(expected.files[0], documents.files[0]);
    assert_eq!(expected.files[1].source, "r");
    match &expected.files[1].document {
        SourceDocument::Type(declaration) => {
            assert_eq!(declaration.enum_definition.as_ref().unwrap().members, vec![member("Common", 0), member("Rare", 1)]);
        }
        other => panic!("unexpected document {other:?}"),
    }
    let missing = TypeMigrationCommand { target: "Nope".to_owned(), operation: TypeMigrationOperation::AddEnumMember(member("X", 0)) };
    assert_eq!(expected_type_migration(documents, missing).unwrap_err().diagnostic.message, "type `Nope` cannot be resolved uniquely");
}
