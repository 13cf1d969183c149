use masterdata_core::authoring_query::{AuthoringQuery, ColumnFilter, QueryOperator, QuerySort, SortDirection};
use masterdata_core::data_authoring::{
    data_editor_add_capability, data_file_source, editor_columns, merge_parse_diagnostics, query_shapes, relative_string, schema_key_fields,
    unique_schema, DataEditorAddCapability, DataEditorColumn, DataFileSnapshot, ValidationReport,
};
use masterdata_core::document::{
    DataDocument,
    FieldDefinition, LoadedDocument, PrimaryKeyDefinition, ProjectDocuments, SchemaDocument,
    SecondaryKeyDefinition, SourceDocument,
};
use masterdata_core::error::{Diagnostic, ErrorKind};
use masterdata_core::type_system::{FieldModifier, PrimitiveType, ResolvedAuthoringField, ResolvedAuthoringType};

fn field(key: u32, name: &str) -> FieldDefinition {
    FieldDefinition { key, name: name.to_owned(), declared_type: "int".to_owned(), nullable: false, array: false }
}

fn schema(table: &str, fields: Vec<FieldDefinition>) -> SchemaDocument {
    SchemaDocument {
        kind: "schema".to_owned(),
        table: table.to_owned(),
        csharp_name: None,
        fields,
        primary_key: None,
        secondary_keys: Vec::new(),
    }
}

fn loaded(path: &str, document: SchemaDocument) -> LoadedDocument {
    LoadedDocument { path: path.to_owned(), source: String::new(), document: SourceDocument::Schema(document) }
}

fn shape(name: &str, primitive: PrimitiveType) -> ResolvedAuthoringField {
    ResolvedAuthoringField {
        name: name.to_owned(),
        declared_type: "int".to_owned(),
        modifier: FieldModifier::Required,
        shape: ResolvedAuthoringType::Primitive { primitive },
    }
}

fn column(name: &str, shape: Option<ResolvedAuthoringField>) -> DataEditorColumn {
    DataEditorColumn {
        name: name.to_owned(),
        declared_type: "int".to_owned(),
        editable: shape.is_some(),
        key_field: false,
        shape,
        read_only_reason: None,
    }
}

fn snapshot(columns: Vec<DataEditorColumn>) -> DataFileSnapshot {
    DataFileSnapshot {
        path: "data/items.yaml".to_owned(),
        table: "Items".to_owned(),
        base_source: String::new(),
        base_content_identity: String::new(),
        columns,
        rows: Vec::new(),
        tag_candidates: Vec::new(),
        tag_candidates_complete: true,
        add_row: DataEditorAddCapability { supported: true, reason: None },
        validation: ValidationReport { valid: true, diagnostics: Vec::new() },
    }
}

fn query(search: &str, filters: &[&str], sort: Option<&str>) -> AuthoringQuery {
    AuthoringQuery {
        search: search.to_owned(),
        filters: filters
            .iter()
            .map(|name| ColumnFilter { field: (*name).to_owned(), operator: QueryOperator::IsNull, value: None })
            .collect(),
        sort: sort.map(|name| QuerySort { field: name.to_owned(), direction: SortDirection::Ascending }),
    }
}

#[test]
fn a_data_file_needs_exactly_one_schema_for_its_table() {
    let documents = ProjectDocuments {
        files: vec![
            loaded("schemas/items.yaml", schema("Items", vec![field(0, "id")])),
            loaded("schemas/shops.yaml", schema("Shops", Vec::new())),
            loaded("schemas/shops2.yaml", schema("Shops", Vec::new())),
        ],
    };
    assert_eq!(unique_schema(&documents, "Items", "data/items.yaml").unwrap().fields.len(), 1);

    let missing = unique_schema(&documents, "Quests", "data/quests.yaml").unwrap_err();
    assert_eq!(missing.diagnostic.code, "E-GUI-DATA-SCHEMA-NOT-FOUND");
    assert_eq!(missing.diagnostic.message, "table `Quests` has no parseable schema document");
    assert_eq!(missing.diagnostic.source.as_deref(), Some("data/quests.yaml"));
    assert_eq!(missing.diagnostic.related_requirements, vec!["GUI-DATA-LAYOUT-001".to_owned()]);

    let ambiguous = unique_schema(&documents, "Shops", "data/shops.yaml").unwrap_err();
    assert_eq!(ambiguous.diagnostic.code, "E-GUI-DATA-SCHEMA-AMBIGUOUS");
    assert_eq!(ambiguous.diagnostic.message, "table `Shops` has multiple schema documents");
}

#[test]
fn key_fields_gather_every_key_once_in_order() {
    let mut items = schema("Items", vec![field(0, "id"), field(1, "name"), field(2, "category")]);
    items.primary_key = Some(PrimaryKeyDefinition { fields: vec!["id".to_owned()] });
    items.secondary_keys = vec![
        SecondaryKeyDefinition { fields: vec!["name".to_owned(), "id".to_owned()], non_unique: false },
        SecondaryKeyDefinition { fields: vec!["category".to_owned()], non_unique: true },
    ];
    assert_eq!(schema_key_fields(&items), vec!["category".to_owned(), "id".to_owned(), "name".to_owned()]);
    assert!(schema_key_fields(&schema("Empty", Vec::new())).is_empty());
}

#[test]
fn adding_a_row_needs_fields_that_all_resolve() {
    let empty = data_editor_add_capability(&schema("Items", Vec::new()), &Vec::new());
    assert!(!empty.supported);
    assert_eq!(empty.reason.as_deref(), Some("Add Row requires a Table with at least one field."));

    let items = schema("Items", vec![field(0, "id"), field(1, "icon"), field(2, "art")]);
    let partial = data_editor_add_capability(&items, &vec![Some(shape("id", PrimitiveType::Int)), None, None]);
    assert!(!partial.supported);
    assert_eq!(partial.reason.as_deref(), Some("Field `icon` does not have a supported resolved authoring shape."));

    let all = data_editor_add_capability(
        &items,
        &vec![
            Some(shape("id", PrimitiveType::Int)),
            Some(shape("icon", PrimitiveType::String)),
            Some(shape("art", PrimitiveType::String)),
        ],
    );
    assert_eq!(all, DataEditorAddCapability { supported: true, reason: None });
}

#[test]
fn parse_diagnostics_make_a_report_invalid() {
    let mut report = ValidationReport { valid: true, diagnostics: Vec::new() };
    let mut none: Vec<Diagnostic> = Vec::new();
    merge_parse_diagnostics(&mut report, &mut none);
    assert!(report.valid);
    assert!(report.diagnostics.is_empty());

    let mut parse = vec![Diagnostic::new("E-YAML-PARSE", ErrorKind::Parse, "could not parse YAML")];
    merge_parse_diagnostics(&mut report, &mut parse);
    assert!(!report.valid);
    assert!(parse.is_empty());
    assert_eq!(report.diagnostics.len(), 1);
    assert_eq!(report.diagnostics[0].code, "E-YAML-PARSE");
}

#[test]
fn paths_are_shown_below_the_project_root() {
    assert_eq!(relative_string("/project", "/project/data/items.yaml"), "data/items.yaml");
    assert_eq!(relative_string("/project/", "/project//data/./items.yaml"), "data/items.yaml");
    assert_eq!(relative_string("/project", "/elsewhere/items.yaml"), "elsewhere/items.yaml");
    assert_eq!(relative_string("/project", "/project/a/../b.yaml"), "a/b.yaml");
    assert_eq!(relative_string("/project", "/project"), "");
}

#[test]
fn a_query_reads_the_columns_it_names_or_all_when_it_searches() {
    let data = snapshot(vec![
        column("id", Some(shape("id", PrimitiveType::Int))),
        column("note", None),
        column("name", Some(shape("name", PrimitiveType::String))),
    ]);
    assert_eq!(query_shapes(&data, &query("", &[], None)).unwrap(), vec![0, 2]);
    assert_eq!(query_shapes(&data, &query("", &["name"], None)).unwrap(), vec![2]);
    assert_eq!(query_shapes(&data, &query("", &[], Some("id"))).unwrap(), vec![0]);
    assert_eq!(query_shapes(&data, &query("sword", &["name"], None)).unwrap(), vec![0, 2]);

    let error = query_shapes(&data, &query("", &["name"], Some("note"))).unwrap_err();
    assert_eq!(error.diagnostic.code, "E-AUTHORING-QUERY-UNAVAILABLE");
    assert_eq!(error.diagnostic.message, "query field `note` has no resolved type shape");
    assert_eq!(error.diagnostic.related_requirements, vec!["AUTHORING-QUERY-002".to_owned()]);
}

#[test]
fn editor_columns_follow_the_schema_fields_and_their_shapes() {
    let mut items = schema("Items", vec![field(0, "id"), field(1, "icon"), field(2, "price")]);
    items.primary_key = Some(PrimaryKeyDefinition { fields: vec!["id".to_owned()] });
    items.fields[1].declared_type = "Sprite".to_owned();
    let columns = editor_columns(&items, vec![None, None, Some(shape("price", PrimitiveType::Int))]);
    assert_eq!(columns.len(), 3);
    assert_eq!(columns[0].name, "id");
    assert!(columns[0].key_field);
    assert!(!columns[0].editable);
    assert_eq!(columns[0].read_only_reason, None);
    assert_eq!(columns[1].declared_type, "Sprite");
    assert!(!columns[1].key_field);
    assert_eq!(
        columns[1].read_only_reason.as_deref(),
        Some("The shared Type System could not resolve `Sprite` as a supported authoring shape.")
    );
    assert!(columns[2].editable);
    assert!(columns[2].shape.is_some());
    assert_eq!(columns[2].read_only_reason, None);
}

#[test]
fn the_data_editor_opens_only_a_data_document() {
    let documents = ProjectDocuments {
        files: vec![
            loaded("schemas/items.yaml", schema("Items", Vec::new())),
            LoadedDocument {
                path: "data/items.yaml".to_owned(),
                source: "kind: data\n".to_owned(),
                document: SourceDocument::Data(DataDocument { kind: "data".to_owned(), table: "Items".to_owned(), records: Vec::new() }),
            },
        ],
    };
    let (loaded, data) = data_file_source(&documents, "data/items.yaml").unwrap();
    assert_eq!(loaded.source, "kind: data\n");
    assert_eq!(data.table, "Items");
    let kind = data_file_source(&documents, "schemas/items.yaml").unwrap_err();
    assert_eq!(kind.diagnostic.code, "E-GUI-DATA-FILE-KIND");
    assert_eq!(kind.diagnostic.related_requirements, vec!["GUI-EXPLORER-003".to_owned()]);
    let missing = data_file_source(&documents, "data/none.yaml").unwrap_err();
    assert_eq!(missing.diagnostic.code, "E-GUI-DATA-FILE-UNAVAILABLE");
    assert_eq!(missing.diagnostic.source.as_deref(), Some("data/none.yaml"));
}
