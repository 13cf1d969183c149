use masterdata_core::compatibility::{
    locator, ArtifactBinaryImpact, CompatibilityChange, CompatibilityChangeKind, CompatibilitySubjectKind,
    ExternalContractImpact, GeneratedApiImpact, SourceMigrationImpact,
};
use masterdata_core::text_order::{text_less, union_ascending};
use masterdata_core::type_compatibility::{
    compare_data, compare_enum_members, compare_type, compare_type_fields, compare_types, ResolvedConversions,
    ResolvedEnumMember, ResolvedField, ResolvedType,
};
use masterdata_core::type_system::{FieldModifier, PrimitiveType};

fn field(key: u32, name: &str, base: &str, modifier: FieldModifier) -> ResolvedField {
    ResolvedField { key, name: name.into(), base_type: base.into(), modifier }
}

fn member(name: &str, value: i128) -> ResolvedEnumMember {
    ResolvedEnumMember { name: name.into(), value }
}

fn kinds(changes: &[CompatibilityChange]) -> Vec<CompatibilityChangeKind> {
    changes.iter().map(|c| c.kind).collect()
}

fn value_object(from: bool, to: bool) -> ResolvedType {
    ResolvedType::ValueObject {
        name: "Money".into(),
        underlying: PrimitiveType::Long,
        conversions: ResolvedConversions { from_underlying_implicit: from, to_underlying_implicit: to },
    }
}

#[test]
fn text_order_is_by_character() {
    assert!(text_less("a", "b"));
    assert!(text_less("ab", "b"));
    assert!(text_less("", "a"));
    assert!(!text_less("a", "a"));
    assert!(!text_less("b", "ab"));
    assert!(text_less("Z", "a"));
    assert!(text_less("z", "é"));
    let names = union_ascending(
        &vec!["beta".to_string(), "alpha".to_string(), "beta".to_string()],
        &vec!["gamma".to_string(), "alpha".to_string()],
    );
    assert_eq!(names, vec!["alpha".to_string(), "beta".to_string(), "gamma".to_string()]);
}

#[test]
fn locators_join_kind_owner_and_member() {
    assert_eq!(locator("type", "Item", None), "type:Item");
    assert_eq!(locator("type-field", "Item", Some("price")), "type-field:Item:price");
}

#[test]
fn type_fields_are_compared_by_name_in_ascending_order() {
    let baseline = vec![
        field(0, "b", "string", FieldModifier::Required),
        field(1, "a", "int", FieldModifier::Required),
        field(2, "d", "int", FieldModifier::Required),
    ];
    let current = vec![
        field(0, "b", "string", FieldModifier::Nullable),
        field(1, "a", "long", FieldModifier::Required),
        field(3, "c", "int", FieldModifier::Array),
        field(5, "e", "int", FieldModifier::Required),
    ];
    let mut changes = Vec::new();
    compare_type_fields("Item", &baseline, &current, &mut changes);
    assert_eq!(
        kinds(&changes),
        vec![
            CompatibilityChangeKind::TypeFieldShapeChanged,
            CompatibilityChangeKind::TypeFieldShapeChanged,
            CompatibilityChangeKind::TypeFieldAdded,
            CompatibilityChangeKind::TypeFieldRemoved,
            CompatibilityChangeKind::TypeFieldAdded,
        ]
    );
    assert_eq!(changes[0].subject.member.as_deref(), Some("a"));
    assert_eq!(changes[0].reason, "Custom Type field base type changed.");
    assert_eq!(changes[1].subject.member.as_deref(), Some("b"));
    assert_eq!(changes[1].reason, "Custom Type field modifier changed.");
    let added = &changes[2];
    assert_eq!(added.subject.kind, CompatibilitySubjectKind::TypeField);
    assert_eq!(added.subject.owner, "Item");
    assert_eq!(added.baseline_locator, None);
    assert_eq!(added.current_locator.as_deref(), Some("type-field:Item:c"));
    assert_eq!(added.generated_api, GeneratedApiImpact::Breaking);
    assert_eq!(added.source_migration, SourceMigrationImpact::SupportedOperation);
    assert_eq!(added.source_operation.as_deref(), Some("AddCustomField"));
    assert_eq!(added.artifact_binary, ArtifactBinaryImpact::CrossSchemaInteroperabilityNotGuaranteed);
    assert_eq!(added.external_contract, ExternalContractImpact::NotAssessed);
    assert_eq!(
        added.related_requirements,
        vec!["COMPAT-RELEASED-004".to_string(), "COMPAT-RELEASED-007".to_string(), "COMPAT-RELEASED-008".to_string()]
    );
    let removed = &changes[3];
    assert_eq!(removed.baseline_locator.as_deref(), Some("type-field:Item:d"));
    assert_eq!(removed.current_locator, None);
    assert_eq!(removed.source_migration, SourceMigrationImpact::DestructiveAuthorizationRequired);
    assert_eq!(removed.source_operation.as_deref(), Some("DropCustomField"));
}

#[test]
fn message_pack_key_change_is_binary_only() {
    let baseline = vec![field(0, "a", "int", FieldModifier::Required)];
    let current = vec![field(7, "a", "int", FieldModifier::Required)];
    let mut changes = Vec::new();
    compare_type_fields("Item", &baseline, &current, &mut changes);
    assert_eq!(kinds(&changes), vec![CompatibilityChangeKind::TypeFieldMessagePackKeyChanged]);
    assert_eq!(changes[0].generated_api, GeneratedApiImpact::Unchanged);
    assert_eq!(changes[0].source_migration, SourceMigrationImpact::NotRequired);
    assert_eq!(changes[0].source_operation, None);
    assert_eq!(changes[0].baseline_locator.as_deref(), Some("type-field:Item:a"));
    assert_eq!(changes[0].current_locator.as_deref(), Some("type-field:Item:a"));
}

#[test]
fn reordered_type_fields_are_reported_once_for_the_type() {
    let baseline = vec![field(0, "a", "int", FieldModifier::Required), field(1, "b", "int", FieldModifier::Required)];
    let current = vec![field(0, "b", "int", FieldModifier::Required), field(1, "a", "int", FieldModifier::Required)];
    let mut changes = Vec::new();
    compare_type_fields("Item", &baseline, &current, &mut changes);
    assert_eq!(
        kinds(&changes),
        vec![
            CompatibilityChangeKind::TypeFieldMessagePackKeyChanged,
            CompatibilityChangeKind::TypeFieldMessagePackKeyChanged,
            CompatibilityChangeKind::TypeFieldDeclarationReordered,
        ]
    );
    let reordered = &changes[2];
    assert_eq!(reordered.subject.kind, CompatibilitySubjectKind::Type);
    assert_eq!(reordered.subject.member, None);
    assert_eq!(reordered.baseline_locator.as_deref(), Some("type:Item"));
    assert_eq!(reordered.artifact_binary, ArtifactBinaryImpact::RebuildRequired);
}

#[test]
fn enum_members_are_compared_by_name() {
    let baseline = vec![member("Common", 0), member("Rare", 1), member("Legendary", 9)];
    let current = vec![member("Rare", 2), member("Common", 0), member("Epic", 3)];
    let mut changes = vec![];
    compare_enum_members("Rarity", &baseline, &current, &mut changes);
    assert_eq!(
        kinds(&changes),
        vec![
            CompatibilityChangeKind::EnumMemberAdded,
            CompatibilityChangeKind::EnumMemberRemoved,
            CompatibilityChangeKind::EnumMemberValueChanged,
        ]
    );
    assert_eq!(changes[0].current_locator.as_deref(), Some("enum-member:Rarity:Epic"));
    assert_eq!(changes[0].generated_api, GeneratedApiImpact::Additive);
    assert_eq!(changes[1].subject.member.as_deref(), Some("Legendary"));
    assert_eq!(changes[1].source_operation.as_deref(), Some("DropEnumMember"));
    assert_eq!(changes[2].subject.member.as_deref(), Some("Rare"));
    assert_eq!(changes[2].reason, "Enum or Flags member numeric value changed.");
}

#[test]
fn value_object_conversion_widening_is_additive() {
    let mut changes = Vec::new();
    compare_type("Money", &value_object(false, false), &value_object(true, false), &mut changes);
    assert_eq!(kinds(&changes), vec![CompatibilityChangeKind::TypeConversionChanged]);
    assert_eq!(changes[0].generated_api, GeneratedApiImpact::Additive);
    assert_eq!(changes[0].source_operation.as_deref(), Some("SetValueObjectConversions"));

    let mut narrowed = Vec::new();
    compare_type("Money", &value_object(true, true), &value_object(false, true), &mut narrowed);
    assert_eq!(narrowed[0].generated_api, GeneratedApiImpact::Breaking);
}

#[test]
fn changed_type_category_is_a_shape_change() {
    let enum_type = ResolvedType::Enum { name: "Kind".into(), underlying: PrimitiveType::Int, members: vec![member("A", 0)] };
    let custom = ResolvedType::Custom { name: "Kind".into(), fields: vec![] };
    let mut changes = Vec::new();
    compare_type("Kind", &enum_type, &custom, &mut changes);
    assert_eq!(kinds(&changes), vec![CompatibilityChangeKind::TypeShapeChanged]);
    assert_eq!(changes[0].baseline_locator.as_deref(), Some("type:Kind"));

    let flags = ResolvedType::Flags { name: "Kind".into(), underlying: PrimitiveType::Long, members: vec![member("A", 0)] };
    let mut other = Vec::new();
    compare_type("Kind", &enum_type, &flags, &mut other);
    assert_eq!(kinds(&other), vec![CompatibilityChangeKind::TypeShapeChanged]);
}

#[test]
fn enum_underlying_change_precedes_member_changes() {
    let left = ResolvedType::Flags { name: "F".into(), underlying: PrimitiveType::Int, members: vec![member("A", 1)] };
    let right = ResolvedType::Flags { name: "F".into(), underlying: PrimitiveType::Long, members: vec![member("A", 1), member("B", 2)] };
    let mut changes = Vec::new();
    compare_type("F", &left, &right, &mut changes);
    assert_eq!(
        kinds(&changes),
        vec![CompatibilityChangeKind::TypeUnderlyingChanged, CompatibilityChangeKind::EnumMemberAdded]
    );
    assert_eq!(changes[0].reason, "Enum or Flags underlying primitive changed.");
}

#[test]
fn declared_types_are_added_and_removed_in_name_order() {
    let baseline = vec![
        ("Zeta".to_string(), value_object(false, false)),
        ("Alpha".to_string(), value_object(false, false)),
    ];
    let current = vec![
        ("Beta".to_string(), value_object(false, false)),
        ("Zeta".to_string(), value_object(false, false)),
    ];
    let mut changes = Vec::new();
    compare_types(&baseline, &current, &mut changes);
    assert_eq!(kinds(&changes), vec![CompatibilityChangeKind::TypeRemoved, CompatibilityChangeKind::TypeAdded]);
    assert_eq!(changes[0].subject.owner, "Alpha");
    assert_eq!(changes[0].baseline_locator.as_deref(), Some("type:Alpha"));
    assert_eq!(changes[1].subject.owner, "Beta");
    assert_eq!(changes[1].current_locator.as_deref(), Some("type:Beta"));
    assert_eq!(changes[1].generated_api, GeneratedApiImpact::Additive);
}

#[test]
fn identical_snapshot_reports_no_change() {
    let types = vec![
        ("Money".to_string(), value_object(true, false)),
        (
            "Item".to_string(),
            ResolvedType::Custom { name: "Item".into(), fields: vec![field(0, "a", "int", FieldModifier::Required)] },
        ),
    ];
    let mut changes = Vec::new();
    compare_types(&types, &types, &mut changes);
    assert!(changes.is_empty());
    let tables = vec!["Item".to_string()];
    let data = vec![("Item".to_string(), vec!["{id: 1}".to_string()])];
    compare_data(&tables, &data, &tables, &data, &mut changes);
    assert!(changes.is_empty());
}

#[test]
fn data_changes_only_for_tables_declared_on_both_sides() {
    let baseline_tables = vec!["Item".to_string(), "Old".to_string()];
    let current_tables = vec!["Item".to_string(), "New".to_string()];
    let baseline = vec![
        ("Item".to_string(), vec!["{id: 1}".to_string()]),
        ("Old".to_string(), vec!["{id: 2}".to_string()]),
    ];
    let current = vec![
        ("Item".to_string(), vec!["{id: 1}".to_string(), "{id: 3}".to_string()]),
        ("New".to_string(), vec!["{id: 2}".to_string()]),
    ];
    let mut changes = Vec::new();
    compare_data(&baseline_tables, &baseline, &current_tables, &current, &mut changes);
    assert_eq!(kinds(&changes), vec![CompatibilityChangeKind::DataChanged]);
    assert_eq!(changes[0].subject.kind, CompatibilitySubjectKind::Data);
    assert_eq!(changes[0].subject.owner, "Item");
    assert_eq!(changes[0].current_locator.as_deref(), Some("data:Item"));
    assert_eq!(changes[0].artifact_binary, ArtifactBinaryImpact::RebuildRequired);
    assert_eq!(
        changes[0].related_requirements,
        vec!["COMPAT-RELEASED-003".to_string(), "COMPAT-RELEASED-009".to_string()]
    );
}
