use masterdata_core::document::{ConversionDefinition, EnumMember, IntegerLiteral, TypeFieldDefinition};
use masterdata_core::error::{ErrorKind, MasterdataError};
use masterdata_core::migration::type_mutation::TypeMigrationOperation;
use masterdata_core::migration_commit::{
    failed_commit_report, initial_report, is_injected, MigrationCommitFailure, MigrationCommitFailureInjection,
    MigrationCommitFailurePoint, MigrationCommitState, MigrationFileCommitState, TransactionEntryState,
};

#[test]
fn type_operations_report_name_selector_and_destructiveness() {
    let add = TypeMigrationOperation::AddEnumMember(EnumMember { name: "Rare".into(), value: IntegerLiteral(3) });
    assert_eq!(add.name(), "AddEnumMember");
    assert_eq!(add.selector(), "Rare");
    assert!(!add.destructive());

    let conversions = TypeMigrationOperation::SetValueObjectConversions(ConversionDefinition::default());
    assert_eq!(conversions.name(), "SetValueObjectConversions");
    assert_eq!(conversions.selector(), "conversions");

    let drop = TypeMigrationOperation::DropCustomField { field: "weight".into() };
    assert_eq!(drop.name(), "DropCustomField");
    assert_eq!(drop.selector(), "weight");
    assert!(drop.destructive());

    let field = TypeFieldDefinition { key: 2, name: "size".into(), declared_type: "int".into(), nullable: false, array: false };
    let add_field = TypeMigrationOperation::AddCustomField { field, initializer: None };
    assert_eq!(add_field.selector(), "size");
    assert!(!add_field.destructive());
    let rename = TypeMigrationOperation::RenameEnumMember { member: "Old".into(), new_name: "New".into() };
    assert_eq!(rename.selector(), "Old");
    assert!(TypeMigrationOperation::DropEnumMember { member: "Old".into() }.destructive());
}

#[test]
fn injections_are_matched_by_point() {
    let injections = [MigrationCommitFailureInjection::write_file(1), MigrationCommitFailureInjection::rollback_file(0)];
    assert!(is_injected(&injections, MigrationCommitFailurePoint::WriteFile(1)));
    assert!(is_injected(&injections, MigrationCommitFailurePoint::RollbackFile(0)));
    assert!(!is_injected(&injections, MigrationCommitFailurePoint::WriteFile(0)));
}

#[test]
fn failed_commits_report_rollback_or_recovery() {
    let paths = vec!["a.yaml".to_string(), "b.yaml".to_string(), "c.yaml".to_string()];
    let initial = initial_report(&paths);
    assert_eq!(initial.state, MigrationCommitState::NotStarted);
    assert!(initial.files.iter().all(|file| file.state == MigrationFileCommitState::Unchanged));

    let entries = vec![TransactionEntryState::Restored, TransactionEntryState::Restored, TransactionEntryState::Pending];
    let rolled = failed_commit_report(initial.clone(), &entries, true, "workspace".into());
    assert_eq!(rolled.state, MigrationCommitState::RolledBack);
    assert_eq!(rolled.recovery_workspace, None);
    let states: Vec<_> = rolled.files.iter().map(|file| file.state).collect();
    assert_eq!(states, vec![MigrationFileCommitState::Old, MigrationFileCommitState::Old, MigrationFileCommitState::Unchanged]);

    let entries = vec![TransactionEntryState::Restored, TransactionEntryState::OldStaged, TransactionEntryState::NewInstalled];
    let stuck = failed_commit_report(initial, &entries, false, "workspace".into());
    assert_eq!(stuck.state, MigrationCommitState::RecoveryRequired);
    assert_eq!(stuck.recovery_workspace, Some("workspace".to_string()));
    let states: Vec<_> = stuck.files.iter().map(|file| file.state).collect();
    assert_eq!(
        states,
        vec![MigrationFileCommitState::Old, MigrationFileCommitState::RecoveryRequired, MigrationFileCommitState::New]
    );
    assert_eq!(stuck.files[1].path, "b.yaml");
}

#[test]
fn a_failure_before_the_commit_keeps_its_error() {
    let error = MasterdataError::new("E-IO-ACCESS", ErrorKind::Io, "disk");
    let failure = MigrationCommitFailure::not_started(error);
    assert_eq!(failure.report.state, MigrationCommitState::NotStarted);
    assert!(failure.report.files.is_empty());
    assert_eq!(failure.into_error().diagnostic.code, "E-IO-ACCESS");
}
