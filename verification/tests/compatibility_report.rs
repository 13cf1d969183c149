use masterdata_core::authoring_query::Comparison;
use masterdata_core::compatibility::{CompatibilityChangeKind, CompatibilityClassificationCount};
use masterdata_core::compatibility_report::{change_compare, compare_resolved_snapshots, ResolvedCompatibilitySnapshot};
use masterdata_core::config::ProjectMetadata;
use masterdata_core::table_compatibility::ResolvedTable;
use masterdata_core::type_compatibility::{ResolvedConversions, ResolvedField, ResolvedType};
use masterdata_core::type_system::{FieldModifier, PrimitiveType};

fn project(id: &str, version: &str) -> ProjectMetadata {
    ProjectMetadata { id: id.into(), name: "Game".into(), version: version.into() }
}

fn value_object() -> ResolvedType {
    ResolvedType::ValueObject {
        name: "Money".into(),
        underlying: PrimitiveType::Long,
        conversions: ResolvedConversions { from_underlying_implicit: false, to_underlying_implicit: false },
    }
}

fn table(identity: &str) -> ResolvedTable {
    ResolvedTable {
        identity: identity.into(),
        csharp_name: "Item".into(),
        fields: vec![ResolvedField { key: 0, name: "id".into(), base_type: "int".into(), modifier: FieldModifier::Required }],
        primary_key: vec!["id".into()],
        primary_key_query_name: "FindById".into(),
        secondary_keys: vec![],
        references: vec![],
    }
}

fn snapshot(id: &str, types: Vec<(String, ResolvedType)>, tables: Vec<(String, ResolvedTable)>) -> ResolvedCompatibilitySnapshot {
    ResolvedCompatibilitySnapshot { project: project(id, "1.0.0"), types, tables, data: vec![] }
}

#[test]
fn different_projects_are_refused() {
    let error = compare_resolved_snapshots(&snapshot("a", vec![], vec![]), &snapshot("b", vec![], vec![])).unwrap_err();
    assert_eq!(error.diagnostic().code, "E-COMPAT-PROJECT-MISMATCH");
    assert_eq!(error.diagnostic().message, "baseline project.id `a` does not match current project.id `b`");
    assert_eq!(error.diagnostic().related_requirements, vec!["COMPAT-RELEASED-002"]);
}

#[test]
fn changes_are_ordered_by_subject_owner_member_and_kind() {
    let baseline = snapshot("game", vec![("Zeta".into(), value_object())], vec![("item".into(), table("item"))]);
    let current = snapshot("game", vec![("Alpha".into(), value_object())], vec![]);
    let report = compare_resolved_snapshots(&baseline, &current).unwrap();
    let kinds: Vec<_> = report.changes.iter().map(|c| c.kind).collect();
    assert_eq!(
        kinds,
        vec![CompatibilityChangeKind::TypeAdded, CompatibilityChangeKind::TypeRemoved, CompatibilityChangeKind::TableRemoved]
    );
    assert_eq!(report.changes[0].subject.owner, "Alpha");
    assert_eq!(report.baseline.project_id, "game");
    assert_eq!(report.current.version, "1.0.0");
    assert_eq!(report.summary.change_count, 3);
    assert_eq!(
        report.summary.generated_api,
        vec![
            CompatibilityClassificationCount { classification: "additive".into(), count: 1 },
            CompatibilityClassificationCount { classification: "breaking".into(), count: 2 },
        ]
    );
}

#[test]
fn equal_keys_keep_their_detection_order() {
    let custom = |base: &str, modifier: FieldModifier| ResolvedType::Custom {
        name: "Item".into(),
        fields: vec![ResolvedField { key: 0, name: "a".into(), base_type: base.into(), modifier }],
    };
    let baseline = snapshot("game", vec![("Item".into(), custom("int", FieldModifier::Required))], vec![]);
    let current = snapshot("game", vec![("Item".into(), custom("long", FieldModifier::Nullable))], vec![]);
    let report = compare_resolved_snapshots(&baseline, &current).unwrap();
    assert_eq!(report.changes.len(), 2);
    assert_eq!(report.changes[0].reason, "Custom Type field base type changed.");
    assert_eq!(report.changes[1].reason, "Custom Type field modifier changed.");
    assert_eq!(change_compare(&report.changes[0], &report.changes[1]), Comparison::Equal);
}

#[test]
fn comparing_a_snapshot_with_itself_reports_nothing() {
    let both = snapshot("game", vec![("Money".into(), value_object())], vec![("item".into(), table("item"))]);
    let report = compare_resolved_snapshots(&both, &both).unwrap();
    assert!(report.changes.is_empty());
    assert_eq!(report.summary.change_count, 0);
    assert!(report.summary.generated_api.is_empty());
}
