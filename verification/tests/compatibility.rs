use masterdata_core::compatibility::{
    summarize, ArtifactBinaryImpact, CompatibilityChange, CompatibilityChangeKind, CompatibilityClassificationCount,
    CompatibilitySubject, CompatibilitySubjectKind, ExternalContractImpact, GeneratedApiImpact, SourceMigrationImpact,
};

fn change(
    generated_api: GeneratedApiImpact,
    source_migration: SourceMigrationImpact,
    artifact_binary: ArtifactBinaryImpact,
    external_contract: ExternalContractImpact,
) -> CompatibilityChange {
    CompatibilityChange {
        subject: CompatibilitySubject { kind: CompatibilitySubjectKind::Field, owner: "Item".into(), member: Some("price".into()) },
        kind: CompatibilityChangeKind::FieldAdded,
        baseline_locator: None,
        current_locator: Some("field:Item:price".into()),
        generated_api,
        source_migration,
        source_operation: None,
        artifact_binary,
        external_contract,
        reason: "a field was added".into(),
        related_requirements: vec!["COMPAT-RELEASED-001".into()],
    }
}

fn count(label: &str, n: usize) -> CompatibilityClassificationCount {
    CompatibilityClassificationCount { classification: label.into(), count: n }
}

#[test]
fn summary_counts_each_dimension_in_label_order() {
    let changes = vec![
        change(GeneratedApiImpact::Unchanged, SourceMigrationImpact::SupportedOperation, ArtifactBinaryImpact::RebuildRequired, ExternalContractImpact::NotAssessed),
        change(GeneratedApiImpact::Breaking, SourceMigrationImpact::ManualActionRequired, ArtifactBinaryImpact::RebuildRequired, ExternalContractImpact::NotAssessed),
        change(GeneratedApiImpact::Additive, SourceMigrationImpact::SupportedOperation, ArtifactBinaryImpact::Unchanged, ExternalContractImpact::ExternalPolicyRequired),
        change(GeneratedApiImpact::Unchanged, SourceMigrationImpact::NotRequired, ArtifactBinaryImpact::CrossSchemaInteroperabilityNotGuaranteed, ExternalContractImpact::NotAssessed),
    ];
    let summary = summarize(&changes);
    assert_eq!(summary.change_count, 4);
    assert_eq!(summary.generated_api, vec![count("additive", 1), count("breaking", 1), count("unchanged", 2)]);
    assert_eq!(
        summary.source_migration,
        vec![count("manual_action_required", 1), count("not_required", 1), count("supported_operation", 2)]
    );
    assert_eq!(
        summary.artifact_binary,
        vec![count("cross_schema_interoperability_not_guaranteed", 1), count("rebuild_required", 2), count("unchanged", 1)]
    );
    assert_eq!(summary.external_contract, vec![count("external_policy_required", 1), count("not_assessed", 3)]);
}

#[test]
fn empty_change_list_has_no_classifications() {
    let summary = summarize(&Vec::new());
    assert_eq!(summary.change_count, 0);
    assert!(summary.generated_api.is_empty());
    assert!(summary.source_migration.is_empty());
    assert!(summary.artifact_binary.is_empty());
    assert!(summary.external_contract.is_empty());
}
