//! The text-patch plans of schema migrations.

use vstd::prelude::*;

use crate::document::ProjectDocuments;
use crate::error::Diagnostic;

pub mod type_mutation;

verus! {

#[derive(Debug, Clone, Copy, PartialEq, Eq, Structural)]
pub enum MigrationOperation {
    AddField,
}

/// Whether a migration candidate validated, with its diagnostics.
#[derive(Debug, Clone, PartialEq)]
pub struct MigrationValidation {
    pub valid: bool,
    pub diagnostics: Vec<Diagnostic>,
}

/// A replacement of the bytes `start..end` of a source file.
#[derive(Debug, Clone, PartialEq, Eq)]
pub struct MigrationPatch {
    pub start: usize,
    pub end: usize,
    pub replacement: String,
}

/// The patches planned for one source file.
#[derive(Debug, Clone, PartialEq, Eq)]
pub struct MigrationFilePlan {
    pub path: String,
    pub patches: Vec<MigrationPatch>,
}

/// A migration ready to commit: the sources it read, whether it drops
/// data, the patches of each affected file, and the documents after them.
#[derive(Debug, Clone, PartialEq)]
pub struct SourceCommitCandidate {
    pub source_inputs: Vec<String>,
    pub destructive: bool,
    pub affected_files: Vec<MigrationFilePlan>,
    pub transformed_documents: ProjectDocuments,
}

} // verus!
