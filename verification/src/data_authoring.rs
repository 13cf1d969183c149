//! The data editor's view of one data file: its columns, rows and add-row
//! capability, and the columns that a query reads.

use vstd::prelude::*;

use crate::authoring_query::AuthoringQuery;
use crate::authoring_value::AuthoringValue;
use crate::computed_view::quoted_message;
use crate::document::{table_schemas, schemas_of_table, DataDocument, LoadedDocument, ProjectDocuments, SchemaDocument, SourceDocument};
use crate::schema_authoring::{first_at, source_at};
use crate::error::{Diagnostic, DiagnosticView, ErrorKind, MasterdataError};
use crate::project::{ancestor_or_equal, components_of, dot, dot_dot, is_path_ancestor_or_equal, joined_parts,
    path_components, render_parts, char_lists};
use crate::text::{str_eq, strings_contain};
use crate::text_order::{strictly_ascending, texts, union_ascending};
use crate::type_system::ResolvedAuthoringField;

verus! {

/// The outcome of validating a project's documents.
#[derive(Debug)]
pub struct ValidationReport {
    pub valid: bool,
    pub diagnostics: Vec<Diagnostic>,
}

/// One column of the data editor: a field of the table's schema.
#[derive(Debug)]
pub struct DataEditorColumn {
    pub name: String,
    pub declared_type: String,
    pub editable: bool,
    pub key_field: bool,
    pub shape: Option<ResolvedAuthoringField>,
    pub read_only_reason: Option<String>,
}

/// One cell of a data editor row.
#[derive(Debug)]
pub struct DataEditorCell {
    pub field: String,
    pub text: String,
    pub value: AuthoringValue,
    pub editable: bool,
    pub read_only_reason: Option<String>,
}

/// One record of the data file. `$tags` is record metadata, kept beside
/// the cells so that the tags have an editor of their own.
#[derive(Debug)]
pub struct DataEditorRow {
    pub record_index: usize,
    pub cells: Vec<DataEditorCell>,
    pub tags: Vec<String>,
    pub tags_editable: bool,
    pub tags_read_only_reason: Option<String>,
}

/// Whether a row can be added, and why not.
#[derive(Debug, Clone, PartialEq, Eq)]
pub struct DataEditorAddCapability {
    pub supported: bool,
    pub reason: Option<String>,
}

/// What the data editor shows of one data file.
#[derive(Debug)]
pub struct DataFileSnapshot {
    pub path: String,
    pub table: String,
    pub base_source: String,
    pub base_content_identity: String,
    pub columns: Vec<DataEditorColumn>,
    pub rows: Vec<DataEditorRow>,
    pub tag_candidates: Vec<String>,
    pub tag_candidates_complete: bool,
    pub add_row: DataEditorAddCapability,
    pub validation: ValidationReport,
}

/// A data file with the record order that a query gives.
#[derive(Debug)]
pub struct DataFileQueryResult {
    pub snapshot: DataFileSnapshot,
    pub ordered_record_indices: Vec<usize>,
    pub total_count: usize,
    pub displayed_count: usize,
    pub query: AuthoringQuery,
}

/// A validation error of the data editor, about the file at `source`.
pub open spec fn snapshot_failure(code: Seq<char>, message: Seq<char>, source: Option<Seq<char>>, requirement: Seq<char>)
    -> DiagnosticView {
    DiagnosticView {
        code,
        kind: ErrorKind::Validation,
        message,
        source,
        line: None,
        column: None,
        schema_path: None,
        record_identity: None,
        suggestion: None,
        related_requirements: seq![requirement],
    }
}

pub fn snapshot_error(code: &str, message: &str, source: Option<&str>, requirement: &str) -> (error: MasterdataError)
    ensures
        error@ == snapshot_failure(code@, message@, match source {
            Some(s) => Some(s@),
            None => None,
        }, requirement@),
{
    let mut error = MasterdataError::new(code, ErrorKind::Validation, message).with_related_requirement(requirement);
    match source {
        Some(s) => {
            error = error.with_source(s);
        },
        None => {},
    }
    proof {
        assert(error@.related_requirements =~= seq![requirement@]);
    }
    error
}

/// The one schema document of `table`; the data file at `target` is the
/// one that asked.
pub fn unique_schema<'a>(documents: &'a ProjectDocuments, table: &str, target: &str)
    -> (result: Result<&'a SchemaDocument, MasterdataError>)
    ensures
        ({
            let found = table_schemas(documents.files@, table@);
            if found.len() == 1 {
                result matches Ok(schema) && *schema == found[0]
            } else if found.len() == 0 {
                result matches Err(e) && e@ == snapshot_failure("E-GUI-DATA-SCHEMA-NOT-FOUND"@,
                    "table `"@ + table@ + "` has no parseable schema document"@, Some(target@), "GUI-DATA-LAYOUT-001"@)
            } else {
                result matches Err(e) && e@ == snapshot_failure("E-GUI-DATA-SCHEMA-AMBIGUOUS"@,
                    "table `"@ + table@ + "` has multiple schema documents"@, Some(target@), "GUI-DATA-LAYOUT-001"@)
            }
        }),
{
    let (first, count) = schemas_of_table(documents, table);
    match first {
        Some(schema) => {
            if count == 1 {
                Ok(schema)
            } else {
                let message = quoted_message("table `", table, "` has multiple schema documents");
                Err(snapshot_error("E-GUI-DATA-SCHEMA-AMBIGUOUS", message.as_str(), Some(target), "GUI-DATA-LAYOUT-001"))
            }
        },
        None => {
            let message = quoted_message("table `", table, "` has no parseable schema document");
            Err(snapshot_error("E-GUI-DATA-SCHEMA-NOT-FOUND", message.as_str(), Some(target), "GUI-DATA-LAYOUT-001"))
        },
    }
}

/// Whether `name` is a field of the schema's primary key or of one of its
/// secondary keys.
pub open spec fn is_key_field(schema: SchemaDocument, name: Seq<char>) -> bool {
    ||| schema.primary_key matches Some(primary) && texts(primary.fields@).contains(name)
    ||| exists|k: int| 0 <= k < schema.secondary_keys@.len()
        && texts((#[trigger] schema.secondary_keys@[k]).fields@).contains(name)
}

/// The fields of the schema's keys, each once, in ascending order.
pub fn schema_key_fields(schema: &SchemaDocument) -> (names: Vec<String>)
    ensures
        strictly_ascending(texts(names@)),
        forall|x: Seq<char>| texts(names@).contains(x) <==> is_key_field(*schema, x),
{
    let mut names: Vec<String> = Vec::new();
    match &schema.primary_key {
        Some(primary) => {
            names = union_ascending(&names, &primary.fields);
        },
        None => {},
    }
    let mut i: usize = 0;
    while i < schema.secondary_keys.len()
        invariant
            i <= schema.secondary_keys@.len(),
            strictly_ascending(texts(names@)),
            forall|x: Seq<char>| texts(names@).contains(x) <==> {
                ||| schema.primary_key matches Some(primary) && texts(primary.fields@).contains(x)
                ||| exists|k: int| 0 <= k < i && texts((#[trigger] schema.secondary_keys@[k]).fields@).contains(x)
            },
        decreases schema.secondary_keys@.len() - i,
    {
        let ghost before = names@;
        names = union_ascending(&names, &schema.secondary_keys[i].fields);
        proof {
            assert forall|x: Seq<char>| texts(names@).contains(x) <==> {
                ||| schema.primary_key matches Some(primary) && texts(primary.fields@).contains(x)
                ||| exists|k: int| 0 <= k < i + 1 && texts((#[trigger] schema.secondary_keys@[k]).fields@).contains(x)
            } by {
                if exists|k: int| 0 <= k < i + 1 && texts((#[trigger] schema.secondary_keys@[k]).fields@).contains(x) {
                    let k = choose|k: int| 0 <= k < i + 1 && texts((#[trigger] schema.secondary_keys@[k]).fields@).contains(x);
                    if k < i {
                        assert(texts(before).contains(x));
                    }
                }
            }
        }
        i = i + 1;
    }
    names
}

/// Whether a row can be added to the table of `schema`, given the shape
/// that each of its fields resolves to.
pub open spec fn add_capability(schema: SchemaDocument, shapes: Seq<Option<ResolvedAuthoringField>>)
    -> (bool, Option<Seq<char>>) {
    if schema.fields@.len() == 0 {
        (false, Some("Add Row requires a Table with at least one field."@))
    } else if exists|k: int| 0 <= k < shapes.len() && (#[trigger] shapes[k]) is None {
        let k = choose|k: int| 0 <= k < shapes.len() && (#[trigger] shapes[k]) is None
            && forall|j: int| 0 <= j < k ==> (#[trigger] shapes[j]) is Some;
        (false, Some("Field `"@ + schema.fields@[k].name@ + "` does not have a supported resolved authoring shape."@))
    } else {
        (true, None)
    }
}

/// Whether a row can be added: the table needs a field, and every field a
/// resolved authoring shape (`shapes` holds one per field, in order); the
/// first field without one is named.
pub fn data_editor_add_capability(schema: &SchemaDocument, shapes: &Vec<Option<ResolvedAuthoringField>>)
    -> (capability: DataEditorAddCapability)
    requires
        shapes@.len() == schema.fields@.len(),
    ensures
        capability.supported == add_capability(*schema, shapes@).0,
        match capability.reason {
            Some(r) => add_capability(*schema, shapes@).1 == Some(r@),
            None => add_capability(*schema, shapes@).1 is None,
        },
{
    if schema.fields.len() == 0 {
        return DataEditorAddCapability {
            supported: false,
            reason: Some(String::from_str("Add Row requires a Table with at least one field.")),
        };
    }
    let mut i: usize = 0;
    while i < shapes.len()
        invariant
            i <= shapes@.len() == schema.fields@.len(),
            forall|j: int| 0 <= j < i ==> (#[trigger] shapes@[j]) is Some,
        decreases shapes@.len() - i,
    {
        if shapes[i].is_none() {
            proof {
                let k = choose|k: int| 0 <= k < shapes@.len() && (#[trigger] shapes@[k]) is None
                    && forall|j: int| 0 <= j < k ==> (#[trigger] shapes@[j]) is Some;
                assert(k == i) by {
                    if k < i {
                        assert(shapes@[k] is Some);
                    }
                    if k > i {
                        assert(shapes@[i as int] is Some);
                    }
                }
            }
            let reason = quoted_message("Field `", schema.fields[i].name.as_str(),
                "` does not have a supported resolved authoring shape.");
            return DataEditorAddCapability { supported: false, reason: Some(reason) };
        }
        i = i + 1;
    }
    DataEditorAddCapability { supported: true, reason: None }
}

/// Adds the parse diagnostics to a validation report; a report with any
/// parse diagnostic is not valid.
pub fn merge_parse_diagnostics(report: &mut ValidationReport, diagnostics: &mut Vec<Diagnostic>)
    ensures
        final(diagnostics)@.len() == 0,
        final(report).diagnostics@ == old(report).diagnostics@ + old(diagnostics)@,
        final(report).valid == (old(report).valid && old(diagnostics)@.len() == 0),
{
    if diagnostics.len() > 0 {
        report.valid = false;
        report.diagnostics.append(diagnostics);
    } else {
        proof {
            assert(old(report).diagnostics@ + old(diagnostics)@ =~= old(report).diagnostics@);
        }
    }
}

/// Whether a path component names a file or directory (not the root,
/// `.` or `..`).
pub open spec fn is_normal_component(component: Seq<char>) -> bool {
    component != seq!['/'] && component != dot() && component != dot_dot()
}

/// The named components of `components`, in order.
pub open spec fn normal_components(components: Seq<Seq<char>>) -> Seq<Seq<char>>
    decreases components.len(),
{
    if components.len() == 0 {
        Seq::empty()
    } else {
        let rest = normal_components(components.drop_last());
        if is_normal_component(components.last()) {
            rest.push(components.last())
        } else {
            rest
        }
    }
}

/// `path` below `root` (the whole of `path` where `root` is not one of its
/// ancestors), as its named components joined by `/`.
pub open spec fn relative_text(root: Seq<char>, path: Seq<char>) -> Seq<char> {
    let components = path_components(path);
    let start = if ancestor_or_equal(root, path) {
        path_components(root).len() as int
    } else {
        0
    };
    joined_parts(normal_components(components.subrange(start, components.len() as int)))
}

fn copy_chars(chars: &Vec<char>) -> (copy: Vec<char>)
    ensures
        copy@ == chars@,
{
    let mut copy: Vec<char> = Vec::new();
    let mut i: usize = 0;
    while i < chars.len()
        invariant
            i <= chars@.len(),
            copy@ == chars@.take(i as int),
        decreases chars@.len() - i,
    {
        copy.push(chars[i]);
        proof {
            assert(chars@.take(i + 1) =~= chars@.take(i as int).push(chars@[i as int]));
        }
        i = i + 1;
    }
    proof {
        assert(chars@.take(i as int) =~= chars@);
    }
    copy
}

/// `path` relative to the project root, with `/` between its names.
pub fn relative_string(root: &str, path: &str) -> (text: String)
    ensures
        text@ == relative_text(root@, path@),
{
    let rooted = components_of(root);
    let components = components_of(path);
    let start = if is_path_ancestor_or_equal(root, path) {
        rooted.len()
    } else {
        0
    };
    proof {
        if ancestor_or_equal(root@, path@) {
            assert(char_lists(rooted@).len() == rooted@.len());
        }
        assert(char_lists(components@).len() == components@.len());
    }
    let ghost all = char_lists(components@);
    let mut kept: Vec<Vec<char>> = Vec::new();
    let mut i: usize = start;
    while i < components.len()
        invariant
            start <= i <= components@.len(),
            all == char_lists(components@),
            all.len() == components@.len(),
            char_lists(kept@) == normal_components(all.subrange(start as int, i as int)),
        decreases components@.len() - i,
    {
        proof {
            assert(all.subrange(start as int, i + 1).drop_last() =~= all.subrange(start as int, i as int));
            assert(all[i as int] == components@[i as int]@);
        }
        let part = &components[i];
        let named = !((part.len() == 1 && part[0] == '/') || (part.len() == 1 && part[0] == '.')
            || (part.len() == 2 && part[0] == '.' && part[1] == '.'));
        proof {
            if part@.len() == 1 {
                if part@[0] == '/' {
                    assert(part@ =~= seq!['/']);
                }
                if part@[0] == '.' {
                    assert(part@ =~= dot());
                }
            }
            if part@.len() == 2 && part@[0] == '.' && part@[1] == '.' {
                assert(part@ =~= dot_dot());
            }
            assert(named == is_normal_component(part@));
        }
        if named {
            let ghost before = kept@;
            kept.push(copy_chars(part));
            proof {
                assert(char_lists(kept@) =~= char_lists(before).push(part@));
            }
        }
        i = i + 1;
    }
    render_parts(false, &kept)
}

/// Whether a filter or the sort of the query names the field.
pub open spec fn requested(query: AuthoringQuery, name: Seq<char>) -> bool {
    ||| exists|k: int| 0 <= k < query.filters@.len() && (#[trigger] query.filters@[k]).field@ == name
    ||| query.sort matches Some(sort) && sort.field@ == name
}

/// Whether the query leaves the column out: it names fields, not this one,
/// and does not search.
pub open spec fn left_out(query: AuthoringQuery, name: Seq<char>) -> bool {
    &&& (query.filters@.len() > 0 || query.sort is Some)
    &&& !requested(query, name)
    &&& query.search@.len() == 0
}

/// A requested column that has no resolved shape.
pub open spec fn unavailable(columns: Seq<DataEditorColumn>, query: AuthoringQuery, i: int) -> bool {
    columns[i].shape is None && requested(query, columns[i].name@)
}

/// The positions, among the first `n` columns, that the query reads.
pub open spec fn query_columns(columns: Seq<DataEditorColumn>, query: AuthoringQuery, n: int) -> Seq<usize>
    decreases n,
{
    if n <= 0 {
        Seq::empty()
    } else {
        let rest = query_columns(columns, query, n - 1);
        if !left_out(query, columns[n - 1].name@) && columns[n - 1].shape is Some {
            rest.push((n - 1) as usize)
        } else {
            rest
        }
    }
}

/// The error for a requested column without a resolved shape.
pub open spec fn unavailable_failure(name: Seq<char>) -> DiagnosticView {
    DiagnosticView {
        code: "E-AUTHORING-QUERY-UNAVAILABLE"@,
        kind: ErrorKind::Validation,
        message: "query field `"@ + name + "` has no resolved type shape"@,
        source: None,
        line: None,
        column: None,
        schema_path: None,
        record_identity: None,
        suggestion: None,
        related_requirements: seq!["AUTHORING-QUERY-002"@],
    }
}

fn is_requested(query: &AuthoringQuery, name: &str) -> (named: bool)
    ensures
        named == requested(*query, name@),
{
    let mut k: usize = 0;
    while k < query.filters.len()
        invariant
            k <= query.filters@.len(),
            forall|j: int| 0 <= j < k ==> (#[trigger] query.filters@[j]).field@ != name@,
        decreases query.filters@.len() - k,
    {
        if str_eq(query.filters[k].field.as_str(), name) {
            proof {
                assert(query.filters@[k as int].field@ == name@);
            }
            return true;
        }
        k = k + 1;
    }
    match &query.sort {
        Some(sort) => str_eq(sort.field.as_str(), name),
        None => false,
    }
}

/// The positions of the columns that the query reads: all of them when it
/// searches or names no field, else those it names; a named column without
/// a resolved shape is an error, the first such column in order.
pub fn query_shapes(snapshot: &DataFileSnapshot, query: &AuthoringQuery) -> (result: Result<Vec<usize>, MasterdataError>)
    ensures
        ({
            let columns = snapshot.columns@;
            match result {
                Ok(positions) => {
                    &&& forall|i: int| 0 <= i < columns.len() ==> !unavailable(columns, *query, i)
                    &&& positions@ == query_columns(columns, *query, columns.len() as int)
                },
                Err(e) => exists|i: int| 0 <= i < columns.len() && unavailable(columns, *query, i)
                    && (forall|j: int| 0 <= j < i ==> !unavailable(columns, *query, j))
                    && e@ == unavailable_failure(columns[i].name@),
            }
        }),
{
    let any_named = query.filters.len() > 0 || query.sort.is_some();
    let mut positions: Vec<usize> = Vec::new();
    let mut i: usize = 0;
    while i < snapshot.columns.len()
        invariant
            i <= snapshot.columns@.len(),
            any_named == (query.filters@.len() > 0 || query.sort is Some),
            forall|j: int| 0 <= j < i ==> !unavailable(snapshot.columns@, *query, j),
            positions@ == query_columns(snapshot.columns@, *query, i as int),
        decreases snapshot.columns@.len() - i,
    {
        let column = &snapshot.columns[i];
        let named = is_requested(query, column.name.as_str());
        if any_named && !named && query.search.as_str().is_empty() {
        } else {
            match &column.shape {
                None => {
                    if named {
                        let message = quoted_message("query field `", column.name.as_str(), "` has no resolved type shape");
                        let error = MasterdataError::new("E-AUTHORING-QUERY-UNAVAILABLE", ErrorKind::Validation, message.as_str())
                            .with_related_requirement("AUTHORING-QUERY-002");
                        proof {
                            assert(error@.related_requirements =~= seq!["AUTHORING-QUERY-002"@]);
                            assert(unavailable(snapshot.columns@, *query, i as int));
                        }
                        return Err(error);
                    }
                },
                Some(_) => {
                    positions.push(i);
                },
            }
        }
        i = i + 1;
    }
    Ok(positions)
}

/// The column that the data editor shows for field `i` of the schema,
/// given the shape that the field's type resolves to.
pub open spec fn editor_column(schema: SchemaDocument, shape: Option<ResolvedAuthoringField>, i: int, column: DataEditorColumn)
    -> bool {
    let field = schema.fields@[i];
    let key = is_key_field(schema, field.name@);
    &&& column.name == field.name
    &&& column.declared_type == field.declared_type
    &&& column.editable == (shape is Some)
    &&& column.key_field == key
    &&& column.shape == shape
    &&& match column.read_only_reason {
        Some(reason) => !key && shape is None && reason@ == "The shared Type System could not resolve `"@
            + field.declared_type@ + "` as a supported authoring shape."@,
        None => key || shape is Some,
    }
}

/// The data editor's columns: one per schema field, in order, editable
/// where the field's type resolves to an authoring shape (`shapes` holds
/// one per field); a key field is never given a read-only reason.
pub fn editor_columns(schema: &SchemaDocument, shapes: Vec<Option<ResolvedAuthoringField>>) -> (columns: Vec<DataEditorColumn>)
    requires
        shapes@.len() == schema.fields@.len(),
    ensures
        columns@.len() == schema.fields@.len(),
        forall|i: int| 0 <= i < columns@.len() ==> editor_column(*schema, shapes@[i], i, #[trigger] columns@[i]),
{
    let ghost all = shapes@;
    let keys = schema_key_fields(schema);
    let mut rest = shapes;
    let mut columns: Vec<DataEditorColumn> = Vec::new();
    let mut i: usize = 0;
    while i < schema.fields.len()
        invariant
            i <= schema.fields@.len() == all.len(),
            rest@ == all.skip(i as int),
            columns@.len() == i,
            forall|x: Seq<char>| texts(keys@).contains(x) <==> is_key_field(*schema, x),
            forall|k: int| 0 <= k < i ==> editor_column(*schema, all[k], k, #[trigger] columns@[k]),
        decreases schema.fields@.len() - i,
    {
        let field = &schema.fields[i];
        let shape = rest.remove(0);
        proof {
            assert(shape == all[i as int]);
            assert(rest@ =~= all.skip(i + 1));
        }
        let key_field = strings_contain(&keys, field.name.as_str());
        proof {
            assert(texts(keys@) =~= keys.deep_view());
        }
        let read_only_reason = if key_field {
            None
        } else if shape.is_none() {
            Some(quoted_message("The shared Type System could not resolve `", field.declared_type.as_str(),
                "` as a supported authoring shape."))
        } else {
            None
        };
        let editable = shape.is_some();
        columns.push(DataEditorColumn {
            name: field.name.clone(),
            declared_type: field.declared_type.clone(),
            editable,
            key_field,
            shape,
            read_only_reason,
        });
        i = i + 1;
    }
    columns
}

/// The data document that the data editor opens at `target`: the first
/// document loaded from that path, which must be a data document.
pub fn data_file_source<'a>(documents: &'a ProjectDocuments, target: &str)
    -> (result: Result<(&'a LoadedDocument, &'a DataDocument), MasterdataError>)
    ensures
        match first_at(documents.files@, target@) {
            None => result matches Err(e) && e@ == snapshot_failure("E-GUI-DATA-FILE-UNAVAILABLE"@,
                "selected data file is not a parseable Masterdata document"@, Some(target@), "GUI-DATA-LAYOUT-001"@),
            Some(i) => match documents.files@[i].document {
                SourceDocument::Data(data) => result matches Ok((loaded, d))
                    && *loaded == documents.files@[i] && *d == data,
                _ => result matches Err(e) && e@ == snapshot_failure("E-GUI-DATA-FILE-KIND"@,
                    "selected source is not a Data document"@, Some(target@), "GUI-EXPLORER-003"@),
            },
        },
{
    match source_at(documents, target) {
        None => Err(snapshot_error("E-GUI-DATA-FILE-UNAVAILABLE", "selected data file is not a parseable Masterdata document",
            Some(target), "GUI-DATA-LAYOUT-001")),
        Some(loaded) => match &loaded.document {
            SourceDocument::Data(data) => Ok((loaded, data)),
            _ => Err(snapshot_error("E-GUI-DATA-FILE-KIND", "selected source is not a Data document", Some(target),
                "GUI-EXPLORER-003")),
        },
    }
}

} // verus!
