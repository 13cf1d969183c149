use masterdata_core::compatibility::{
    ArtifactBinaryImpact, CompatibilityChange, CompatibilityChangeKind, CompatibilitySubjectKind, ExternalContractImpact,
    GeneratedApiImpact, SourceMigrationImpact,
};
use masterdata_core::shape_order::{shape_less, union_shapes};
use masterdata_core::table_compatibility::{
    compare_references, compare_secondary_keys, compare_table, compare_table_fields, compare_tables,
    ResolvedReference, ResolvedSecondaryKey, ResolvedTable,
};
use masterdata_core::type_compatibility::ResolvedField;
use masterdata_core::type_system::FieldModifier;

fn names(list: &[&str]) -> Vec<String> {
    list.iter().map(|s| s.to_string()).collect()
}

fn field(key: u32, name: &str, base: &str, modifier: FieldModifier) -> ResolvedField {
    ResolvedField { key, name: name.into(), base_type: base.into(), modifier }
}

fn key(fields: &[&str], non_unique: bool, query: &str) -> ResolvedSecondaryKey {
    ResolvedSecondaryKey { fields: names(fields), non_unique, query_name: query.into() }
}

fn reference(name: &str, target: &str) -> ResolvedReference {
    ResolvedReference {
        name: name.into(),
        helper_name: format!("Get{name}"),
        source_fields: names(&["ownerId"]),
        target_table: target.into(),
        target_fields: names(&["id"]),
        target_key_kind: "primary".into(),
        optionality: "required".into(),
        cardinality: "single".into(),
    }
}

fn table(identity: &str) -> ResolvedTable {
    ResolvedTable {
        identity: identity.into(),
        csharp_name: "Item".into(),
        fields: vec![field(0, "id", "int", FieldModifier::Required), field(1, "name", "string", FieldModifier::Required)],
        primary_key: names(&["id"]),
        primary_key_query_name: "FindById".into(),
        secondary_keys: vec![key(&["name"], false, "FindByName")],
        references: vec![reference("owner", "player")],
    }
}

fn kinds(changes: &[CompatibilityChange]) -> Vec<CompatibilityChangeKind> {
    changes.iter().map(|c| c.kind).collect()
}

#[test]
fn shapes_order_like_lists_of_strings() {
    assert!(shape_less(&names(&["a"]), &names(&["a", "b"])));
    assert!(shape_less(&names(&["a", "c"]), &names(&["ab"])));
    assert!(!shape_less(&names(&["b"]), &names(&["a", "z"])));
    assert!(!shape_less(&names(&["a"]), &names(&["a"])));
    let shapes = union_shapes(&vec![names(&["b"]), names(&["a", "b"])], &vec![names(&["a", "b"]), names(&["a"])]);
    assert_eq!(shapes, vec![names(&["a"]), names(&["a", "b"]), names(&["b"])]);
}

#[test]
fn table_fields_are_compared_by_name() {
    let baseline = vec![field(0, "id", "int", FieldModifier::Required), field(1, "old", "string", FieldModifier::Required)];
    let current = vec![
        field(0, "id", "long", FieldModifier::Nullable),
        field(2, "new", "string", FieldModifier::Required),
    ];
    let mut changes = Vec::new();
    compare_table_fields("item", &baseline, &current, &mut changes);
    assert_eq!(
        kinds(&changes),
        vec![
            CompatibilityChangeKind::FieldTypeChanged,
            CompatibilityChangeKind::FieldModifierChanged,
            CompatibilityChangeKind::FieldAdded,
            CompatibilityChangeKind::FieldRemoved,
        ]
    );
    assert_eq!(changes[0].current_locator.as_deref(), Some("field:item:id"));
    assert_eq!(changes[2].subject.member.as_deref(), Some("new"));
    assert_eq!(changes[2].source_operation.as_deref(), Some("AddField"));
    assert_eq!(changes[2].generated_api, GeneratedApiImpact::Additive);
    assert_eq!(changes[3].source_operation.as_deref(), Some("DropField"));
    assert_eq!(changes[3].external_contract, ExternalContractImpact::ExternalPolicyRequired);
}

#[test]
fn reordered_table_fields_keep_the_api() {
    let baseline = vec![field(0, "a", "int", FieldModifier::Required), field(1, "b", "int", FieldModifier::Required)];
    let current = vec![field(0, "b", "int", FieldModifier::Required), field(1, "a", "int", FieldModifier::Required)];
    let mut changes = Vec::new();
    compare_table_fields("item", &baseline, &current, &mut changes);
    let last = changes.last().unwrap();
    assert_eq!(last.kind, CompatibilityChangeKind::FieldDeclarationReordered);
    assert_eq!(last.subject.kind, CompatibilitySubjectKind::Table);
    assert_eq!(last.generated_api, GeneratedApiImpact::Unchanged);
    assert_eq!(last.baseline_locator.as_deref(), Some("table:item"));
    assert_eq!(changes.len(), 3);
}

#[test]
fn secondary_keys_are_compared_by_shape() {
    let baseline = vec![key(&["name"], false, "FindByName"), key(&["kind", "rank"], true, "FindByKindAndRank")];
    let current = vec![key(&["name"], true, "FindByName"), key(&["level"], false, "FindByLevel")];
    let mut changes = Vec::new();
    compare_secondary_keys("item", &baseline, &current, &mut changes);
    assert_eq!(
        kinds(&changes),
        vec![
            CompatibilityChangeKind::SecondaryKeyRemoved,
            CompatibilityChangeKind::SecondaryKeyAdded,
            CompatibilityChangeKind::SecondaryKeyUniquenessChanged,
        ]
    );
    assert_eq!(changes[0].subject.member.as_deref(), Some("[kind,rank]"));
    assert_eq!(changes[0].reason, "Secondary Key ordered field sequence was removed (FindByKindAndRank).");
    assert_eq!(changes[0].baseline_locator.as_deref(), Some("secondary-key:item:[kind,rank]"));
    assert_eq!(changes[1].reason, "Secondary Key ordered field sequence was added (FindByLevel).");
    assert_eq!(changes[2].subject.member.as_deref(), Some("[name]"));
}

#[test]
fn reordered_secondary_keys_are_reported_for_the_table() {
    let baseline = vec![key(&["a"], false, "FindByA"), key(&["b"], false, "FindByB")];
    let current = vec![key(&["b"], false, "FindByB"), key(&["a"], false, "FindByA")];
    let mut changes = Vec::new();
    compare_secondary_keys("item", &baseline, &current, &mut changes);
    assert_eq!(kinds(&changes), vec![CompatibilityChangeKind::SecondaryKeyDeclarationReordered]);
    assert_eq!(changes[0].current_locator.as_deref(), Some("secondary-keys:item"));
    assert_eq!(changes[0].artifact_binary, ArtifactBinaryImpact::RebuildRequired);
}

#[test]
fn references_are_compared_by_name() {
    let baseline = vec![reference("owner", "player"), reference("guild", "guild")];
    let mut changed = reference("owner", "account");
    changed.helper_name = "GetOwnerAccount".into();
    changed.cardinality = "multi".into();
    let current = vec![changed, reference("shop", "shop")];
    let mut changes = Vec::new();
    compare_references("item", &baseline, &current, &mut changes);
    assert_eq!(
        kinds(&changes),
        vec![
            CompatibilityChangeKind::ReferenceRemoved,
            CompatibilityChangeKind::ReferencePresentationChanged,
            CompatibilityChangeKind::ReferenceTargetChanged,
            CompatibilityChangeKind::ReferenceCardinalityChanged,
            CompatibilityChangeKind::ReferenceAdded,
        ]
    );
    assert_eq!(changes[0].source_operation.as_deref(), Some("RemoveReference"));
    assert_eq!(changes[2].source_operation.as_deref(), Some("EditReference"));
    assert_eq!(changes[2].source_migration, SourceMigrationImpact::ManualActionRequired);
    assert_eq!(changes[4].current_locator.as_deref(), Some("reference:item:shop"));
}

#[test]
fn primary_key_change_names_both_queries() {
    let baseline = table("item");
    let mut current = table("item");
    current.primary_key = names(&["id", "name"]);
    current.primary_key_query_name = "FindByIdAndName".into();
    current.csharp_name = "ItemRow".into();
    let mut changes = Vec::new();
    compare_table(&baseline, &current, &mut changes);
    assert_eq!(
        kinds(&changes),
        vec![CompatibilityChangeKind::TablePresentationChanged, CompatibilityChangeKind::PrimaryKeyChanged]
    );
    assert_eq!(changes[1].reason, "Primary Key ordered field sequence changed (FindById -> FindByIdAndName).");
    assert_eq!(changes[1].current_locator.as_deref(), Some("primary-key:item"));
}

#[test]
fn tables_are_added_and_removed_by_name() {
    let baseline = vec![("item".to_string(), table("item")), ("zone".to_string(), table("zone"))];
    let current = vec![("item".to_string(), table("item")), ("area".to_string(), table("area"))];
    let mut changes = Vec::new();
    compare_tables(&baseline, &current, &mut changes);
    assert_eq!(kinds(&changes), vec![CompatibilityChangeKind::TableAdded, CompatibilityChangeKind::TableRemoved]);
    assert_eq!(changes[0].subject.owner, "area");
    assert_eq!(changes[1].baseline_locator.as_deref(), Some("table:zone"));

    let mut same = Vec::new();
    compare_tables(&baseline, &baseline, &mut same);
    assert!(same.is_empty());
}
