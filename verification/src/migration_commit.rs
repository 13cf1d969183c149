//! The reported outcome of committing a migration to the source files, and
//! the decisions that turn the per-file transaction states into it.

use vstd::prelude::*;

use crate::error::MasterdataError;

verus! {

/// Observable state of the source set after a commit attempt.
#[derive(Debug, Clone, Copy, PartialEq, Eq, Structural)]
pub enum MigrationCommitState {
    /// No canonical source file was intentionally changed.
    NotStarted,
    /// Every affected source file contains the transformed bytes.
    Success,
    /// A failed commit was successfully restored to the complete old source set.
    RolledBack,
    /// The old and new source sets cannot both be established automatically.
    RecoveryRequired,
}

/// State of one affected source file in a commit report.
#[derive(Debug, Clone, Copy, PartialEq, Eq, Structural)]
pub enum MigrationFileCommitState {
    /// The file was not changed by the attempted commit.
    Unchanged,
    /// The file contains the transformed source bytes.
    New,
    /// The file contains the original source bytes after rollback.
    Old,
    /// The file needs manual recovery because the transaction could not establish its state.
    RecoveryRequired,
}

/// One affected file, by its path.
#[derive(Debug, Clone, PartialEq, Eq)]
pub struct MigrationFileCommitStatus {
    pub path: String,
    pub state: MigrationFileCommitState,
}

/// Structured result for a source commit attempt.
#[derive(Debug, Clone, PartialEq, Eq)]
pub struct MigrationCommitReport {
    pub state: MigrationCommitState,
    pub files: Vec<MigrationFileCommitStatus>,
    /// Retained staged and backup material when the state is
    /// `MigrationCommitState::RecoveryRequired`.
    pub recovery_workspace: Option<String>,
}

/// Failure result that retains the structured source-set state for adapters.
#[derive(Debug)]
pub struct MigrationCommitFailure {
    pub report: MigrationCommitReport,
    pub error: MasterdataError,
}

impl MigrationCommitFailure {
    pub fn into_error(self) -> (error: MasterdataError)
        ensures
            error == self.error,
    {
        self.error
    }

    /// A failure before any file was touched: no files, no workspace.
    pub fn not_started(error: MasterdataError) -> (failure: Self)
        ensures
            failure.report.state == MigrationCommitState::NotStarted,
            failure.report.files@.len() == 0,
            failure.report.recovery_workspace is None,
            failure.error == error,
    {
        MigrationCommitFailure {
            report: MigrationCommitReport {
                state: MigrationCommitState::NotStarted,
                files: Vec::new(),
                recovery_workspace: None,
            },
            error,
        }
    }
}

/// Deterministic fault-injection point used by source-commit regression tests.
#[derive(Debug, Clone, Copy, PartialEq, Eq, Structural)]
pub enum MigrationCommitFailurePoint {
    WriteFile(usize),
    RollbackFile(usize),
}

#[derive(Debug, Clone, Copy, PartialEq, Eq, Structural)]
pub struct MigrationCommitFailureInjection {
    pub point: MigrationCommitFailurePoint,
}

impl MigrationCommitFailureInjection {
    pub fn write_file(index: usize) -> (injection: Self)
        ensures
            injection.point == MigrationCommitFailurePoint::WriteFile(index),
    {
        MigrationCommitFailureInjection { point: MigrationCommitFailurePoint::WriteFile(index) }
    }

    pub fn rollback_file(index: usize) -> (injection: Self)
        ensures
            injection.point == MigrationCommitFailurePoint::RollbackFile(index),
    {
        MigrationCommitFailureInjection { point: MigrationCommitFailurePoint::RollbackFile(index) }
    }
}

/// Whether a failure is injected at `point`.
pub fn is_injected(injections: &[MigrationCommitFailureInjection], point: MigrationCommitFailurePoint) -> (found: bool)
    ensures
        found == exists|k: int| 0 <= k < injections@.len() && #[trigger] injections@[k].point == point,
{
    let mut i: usize = 0;
    while i < injections.len()
        invariant
            i <= injections@.len(),
            forall|k: int| 0 <= k < i ==> #[trigger] injections@[k].point != point,
        decreases injections@.len() - i,
    {
        if injections[i].point == point {
            return true;
        }
        i = i + 1;
    }
    false
}

/// Where one file of a commit transaction stands.
#[derive(Debug, Clone, Copy, PartialEq, Eq, Structural)]
pub enum TransactionEntryState {
    /// Not touched yet.
    Pending,
    /// The original was moved to its backup; the new bytes are not installed.
    OldStaged,
    /// The new bytes are installed.
    NewInstalled,
    /// The original bytes are back in place.
    Restored,
}

pub open spec fn paths_view(files: Seq<MigrationFileCommitStatus>) -> Seq<Seq<char>> {
    files.map_values(|f: MigrationFileCommitStatus| f.path@)
}

pub open spec fn states_view(files: Seq<MigrationFileCommitStatus>) -> Seq<MigrationFileCommitState> {
    files.map_values(|f: MigrationFileCommitStatus| f.state)
}

/// The report before any file is touched: every affected file unchanged.
pub fn initial_report(paths: &Vec<String>) -> (report: MigrationCommitReport)
    ensures
        report.state == MigrationCommitState::NotStarted,
        report.recovery_workspace is None,
        paths_view(report.files@) == paths.deep_view(),
        forall|k: int| 0 <= k < report.files@.len() ==> #[trigger] report.files@[k].state == MigrationFileCommitState::Unchanged,
{
    let mut files: Vec<MigrationFileCommitStatus> = Vec::new();
    let mut i: usize = 0;
    while i < paths.len()
        invariant
            i <= paths@.len(),
            paths_view(files@) == paths.deep_view().take(i as int),
            forall|k: int| 0 <= k < files@.len() ==> #[trigger] files@[k].state == MigrationFileCommitState::Unchanged,
        decreases paths@.len() - i,
    {
        let ghost before = paths_view(files@);
        files.push(MigrationFileCommitStatus { path: paths[i].clone(), state: MigrationFileCommitState::Unchanged });
        proof {
            assert(paths_view(files@) =~= before.push(paths@[i as int]@));
            assert(paths.deep_view().take(i + 1) =~= paths.deep_view().take(i as int).push(paths@[i as int]@));
        }
        i = i + 1;
    }
    proof {
        assert(paths.deep_view().take(i as int) =~= paths.deep_view());
    }
    MigrationCommitReport { state: MigrationCommitState::NotStarted, files, recovery_workspace: None }
}

/// The state reported for a file when the rollback itself failed.
pub open spec fn unrecovered_state(entry: TransactionEntryState) -> MigrationFileCommitState {
    match entry {
        TransactionEntryState::Pending => MigrationFileCommitState::Unchanged,
        TransactionEntryState::Restored => MigrationFileCommitState::Old,
        TransactionEntryState::NewInstalled => MigrationFileCommitState::New,
        TransactionEntryState::OldStaged => MigrationFileCommitState::RecoveryRequired,
    }
}

/// The report after a failed commit: when the rollback succeeded, the
/// restored files are reported old and the set rolled back; else every file
/// is reported by where its transaction entry stands, and the workspace is
/// kept for recovery. Files without an entry keep their state.
pub fn failed_commit_report(
    report: MigrationCommitReport,
    entries: &Vec<TransactionEntryState>,
    rollback_succeeded: bool,
    workspace: String,
) -> (result: MigrationCommitReport)
    ensures
        paths_view(result.files@) == paths_view(report.files@),
        forall|k: int| 0 <= k < result.files@.len() ==> #[trigger] result.files@[k].state == if k >= entries@.len() {
            report.files@[k].state
        } else if rollback_succeeded {
            if entries@[k] == TransactionEntryState::Restored { MigrationFileCommitState::Old } else { report.files@[k].state }
        } else {
            unrecovered_state(entries@[k])
        },
        result.state == if rollback_succeeded { MigrationCommitState::RolledBack } else { MigrationCommitState::RecoveryRequired },
        result.recovery_workspace == if rollback_succeeded { report.recovery_workspace } else { Some(workspace) },
{
    let ghost old_files = report.files@;
    let mut files = report.files;
    let mut i: usize = 0;
    while i < files.len() && i < entries.len()
        invariant
            i <= files@.len(),
            files@.len() == old_files.len(),
            paths_view(files@) == paths_view(old_files),
            forall|k: int| i <= k < files@.len() ==> #[trigger] files@[k] == old_files[k],
            forall|k: int| 0 <= k < i ==> #[trigger] files@[k].state == if k >= entries@.len() {
                old_files[k].state
            } else if rollback_succeeded {
                if entries@[k] == TransactionEntryState::Restored { MigrationFileCommitState::Old } else { old_files[k].state }
            } else {
                unrecovered_state(entries@[k])
            },
        decreases files@.len() - i,
    {
        let entry = entries[i];
        let state = if rollback_succeeded {
            if entry == TransactionEntryState::Restored {
                MigrationFileCommitState::Old
            } else {
                files[i].state
            }
        } else {
            match entry {
                TransactionEntryState::Pending => MigrationFileCommitState::Unchanged,
                TransactionEntryState::Restored => MigrationFileCommitState::Old,
                TransactionEntryState::NewInstalled => MigrationFileCommitState::New,
                TransactionEntryState::OldStaged => MigrationFileCommitState::RecoveryRequired,
            }
        };
        let path = files[i].path.clone();
        let ghost before = files@;
        files.set(i, MigrationFileCommitStatus { path, state });
        proof {
            assert(paths_view(files@) =~= paths_view(before));
        }
        i = i + 1;
    }
    if rollback_succeeded {
        MigrationCommitReport { state: MigrationCommitState::RolledBack, files, recovery_workspace: report.recovery_workspace }
    } else {
        MigrationCommitReport { state: MigrationCommitState::RecoveryRequired, files, recovery_workspace: Some(workspace) }
    }
}

} // verus!
