//! Shared domain semantics for the masterdata authoring product: structured
//! diagnostics, the clipboard codec, authoring queries, the Computed View
//! expression grammar, and lossless configuration edits.

pub mod error;
pub mod type_system;
pub mod text;
pub mod text_order;
pub mod shape_order;
pub mod numeric;
pub mod authoring_value;
pub mod authoring_batch;
pub mod authoring_query;
pub mod computed_view;
pub mod view_evaluation;
pub mod view_resolution;
pub mod view_build;
pub mod data_authoring;
pub mod source_creation;
pub mod schema_authoring;
pub mod expression;
pub mod config;
pub mod source_edit;
pub mod config_edit;
pub mod compatibility;
pub mod type_compatibility;
pub mod table_compatibility;
pub mod compatibility_report;
pub mod migration_commit;
pub mod document;
pub mod yaml_subset;
pub mod migration;
pub mod diagnostics;
pub mod pipeline;
pub mod project;
