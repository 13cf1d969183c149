use masterdata_core::computed_view::{ExpressionType, ScalarType};
use masterdata_core::document::{LoadedDocument, ProjectDocuments, SchemaDocument, SourceDocument, TypeDocument};
use masterdata_core::type_system::PrimitiveType;
use masterdata_core::view_build::{resolve_computed_views, validate_computed_views};
use masterdata_core::view_resolution::{
    check_view_header, is_lower_camel_identifier, resolve_view_body, resolve_view_columns, view_target_schema,
    ViewColumnDefinition, ViewDocument,
};

fn int_field(name: &str) -> (String, Option<ExpressionType>) {
    (name.to_owned(), Some(ExpressionType::Scalar { scalar: ScalarType::Primitive(PrimitiveType::Int), nullable: false }))
}

fn column(name: &str, expression: &str) -> ViewColumnDefinition {
    ViewColumnDefinition { name: name.to_owned(), expression: expression.to_owned() }
}

fn view(kind: &str, name: &str, table: &str, columns: Vec<ViewColumnDefinition>) -> ViewDocument {
    ViewDocument { kind: kind.to_owned(), name: name.to_owned(), table: table.to_owned(), columns }
}

fn schema_file(path: &str, table: &str) -> LoadedDocument {
    LoadedDocument {
        path: path.to_owned(),
        source: String::new(),
        document: SourceDocument::Schema(SchemaDocument {
            kind: "schema".to_owned(),
            table: table.to_owned(),
            csharp_name: None,
            fields: Vec::new(),
            primary_key: None,
            secondary_keys: Vec::new(),
        }),
    }
}

fn type_file(path: &str, name: &str) -> LoadedDocument {
    LoadedDocument {
        path: path.to_owned(),
        source: String::new(),
        document: SourceDocument::Type(TypeDocument {
            kind: "type".to_owned(),
            name: name.to_owned(),
            value_object: None,
            custom: None,
            enum_definition: None,
            flags: None,
        }),
    }
}

#[test]
fn lower_camel_identifiers_start_lowercase_and_stay_alphanumeric() {
    assert!(is_lower_camel_identifier("totalPrice2"));
    assert!(is_lower_camel_identifier("x"));
    assert!(!is_lower_camel_identifier("TotalPrice"));
    assert!(!is_lower_camel_identifier("total_price"));
    assert!(!is_lower_camel_identifier("2total"));
    assert!(!is_lower_camel_identifier(""));
}

#[test]
fn a_document_of_another_kind_stops_at_its_header() {
    let (go_on, diagnostics) = check_view_header("views/a.yaml", &view("schema", "itemView", "Items", Vec::new()));
    assert!(!go_on);
    assert_eq!(diagnostics.len(), 1);
    assert_eq!(diagnostics[0].code, "E-VIEW-PARSE");
    assert_eq!(diagnostics[0].message, "view document must declare kind `view`, found `schema`");
    assert_eq!(diagnostics[0].source.as_deref(), Some("views/a.yaml"));
    assert_eq!(diagnostics[0].schema_path, None);
    assert_eq!(diagnostics[0].related_requirements, vec!["ADV-VIEW-001".to_owned()]);
}

#[test]
fn a_view_name_that_is_no_identifier_is_reported_and_resolution_goes_on() {
    let (go_on, diagnostics) = check_view_header("views/a.yaml", &view("view", "Item View", "Items", Vec::new()));
    assert!(go_on);
    assert_eq!(diagnostics.len(), 1);
    assert_eq!(diagnostics[0].code, "E-VIEW-DUPLICATE-NAME");
    assert_eq!(diagnostics[0].message, "view name `Item View` is not a lowerCamel ASCII identifier");
    assert_eq!(diagnostics[0].schema_path.as_deref(), Some("name"));

    let (go_on, diagnostics) = check_view_header("views/a.yaml", &view("view", "itemView", "Items", Vec::new()));
    assert!(go_on);
    assert!(diagnostics.is_empty());
}

#[test]
fn the_target_table_needs_exactly_one_schema() {
    let documents = ProjectDocuments {
        files: vec![
            schema_file("schemas/items.yaml", "Items"),
            type_file("types/rarity.yaml", "Rarity"),
            schema_file("schemas/shops.yaml", "Shops"),
            schema_file("schemas/shops-copy.yaml", "Shops"),
        ],
    };
    let found = view_target_schema(&documents, &view("view", "itemView", "Items", Vec::new()), "views/a.yaml").unwrap();
    assert_eq!(found.table, "Items");

    let unknown = view_target_schema(&documents, &view("view", "questView", "Quests", Vec::new()), "views/q.yaml")
        .unwrap_err();
    assert_eq!(unknown.code, "E-VIEW-TARGET-TABLE");
    assert_eq!(unknown.message, "view `questView` refers to unknown Table `Quests`");
    assert_eq!(unknown.schema_path.as_deref(), Some("table"));

    let ambiguous = view_target_schema(&documents, &view("view", "shopView", "Shops", Vec::new()), "views/s.yaml")
        .unwrap_err();
    assert_eq!(ambiguous.code, "E-VIEW-TARGET-TABLE");
    assert_eq!(ambiguous.message, "view `shopView` target Table `Shops` is ambiguous");
}

#[test]
fn each_refused_column_gets_one_diagnostic_at_its_position() {
    let fields = vec![int_field("price"), int_field("count")];
    let columns = vec![
        column("total", "price * count"),
        column("Total", "price"),
        column("total", "price + 1"),
        column("price", "count"),
        column("broken", "price +"),
        column("flag", "price + true"),
        column("doubled", "price * 2"),
    ];
    let (resolved, diagnostics) = resolve_view_columns("views/a.yaml", &columns, &fields, &Vec::new());
    assert_eq!(resolved.len(), 2);
    assert_eq!(resolved[0].name, "total");
    assert_eq!(resolved[1].name, "doubled");
    let codes: Vec<&str> = diagnostics.iter().map(|d| d.code.as_str()).collect();
    assert_eq!(codes[0], "E-VIEW-DUPLICATE-COLUMN");
    assert_eq!(codes[1], "E-VIEW-DUPLICATE-COLUMN");
    assert_eq!(codes[2], "E-VIEW-COLUMN-COLLISION");
    assert_eq!(codes[3], "E-VIEW-EXPRESSION-SYNTAX");
    assert_eq!(diagnostics.len(), 5);
    assert_eq!(diagnostics[0].message, "computed column `Total` is not a lowerCamel ASCII identifier");
    assert_eq!(diagnostics[0].schema_path.as_deref(), Some("columns[1]"));
    assert_eq!(diagnostics[1].message, "computed column `total` is declared more than once");
    assert_eq!(diagnostics[1].schema_path.as_deref(), Some("columns[2]"));
    assert_eq!(diagnostics[2].message, "computed column `price` collides with a source field");
    assert_eq!(diagnostics[2].schema_path.as_deref(), Some("columns[3]"));
    assert_eq!(diagnostics[3].schema_path.as_deref(), Some("columns[4]"));
    assert_eq!(diagnostics[3].line, Some(1));
    assert_eq!(diagnostics[4].schema_path.as_deref(), Some("columns[5]"));
    assert_eq!(diagnostics[4].kind, masterdata_core::error::ErrorKind::Validation);
}

#[test]
fn a_view_resolves_only_when_every_column_does() {
    let fields = vec![int_field("price")];
    let good = view("view", "itemView", "Items", vec![column("doubled", "price * 2"), column("tripled", "price * 3")]);
    let (resolved, diagnostics) = resolve_view_body("views/a.yaml", &good, &fields, &Vec::new());
    let resolved = resolved.unwrap();
    assert!(diagnostics.is_empty());
    assert_eq!(resolved.name, "itemView");
    assert_eq!(resolved.table, "Items");
    assert_eq!(resolved.source, "views/a.yaml");
    assert_eq!(resolved.columns.len(), 2);

    let partly = view("view", "itemView", "Items", vec![column("doubled", "price * 2"), column("price", "price")]);
    let (resolved, diagnostics) = resolve_view_body("views/a.yaml", &partly, &fields, &Vec::new());
    assert!(resolved.is_none());
    assert_eq!(diagnostics.len(), 1);
    assert_eq!(diagnostics[0].code, "E-VIEW-COLUMN-COLLISION");

    let empty = view("view", "itemView", "Items", Vec::new());
    let (resolved, diagnostics) = resolve_view_body("views/a.yaml", &empty, &fields, &Vec::new());
    assert!(resolved.is_none());
    assert_eq!(diagnostics.len(), 1);
    assert_eq!(diagnostics[0].code, "E-VIEW-PARSE");
    assert_eq!(diagnostics[0].message, "view `itemView` must declare at least one column");
    assert_eq!(diagnostics[0].schema_path.as_deref(), Some("columns"));
}

#[test]
fn source_documents_report_their_kind_table_and_type() {
    let documents = ProjectDocuments {
        files: vec![schema_file("schemas/items.yaml", "Items"), type_file("types/rarity.yaml", "Rarity")],
    };
    assert_eq!(documents.files[0].document.kind(), "schema");
    assert_eq!(documents.files[0].document.table_identity(), Some("Items"));
    assert_eq!(documents.files[0].document.type_identity(), None);
    assert_eq!(documents.files[1].document.kind(), "type");
    assert_eq!(documents.files[1].document.table_identity(), None);
    assert_eq!(documents.files[1].document.type_identity(), Some("Rarity"));
    let schemas = documents.schemas();
    assert_eq!(schemas.len(), 1);
    assert_eq!(schemas[0].0, "schemas/items.yaml");
    let types = documents.types();
    assert_eq!(types.len(), 1);
    assert_eq!(types[0].1.name, "Rarity");
    assert!(documents.data().is_empty());
}

#[test]
fn invalid_views_stay_in_diagnostics_while_valid_views_resolve() {
    let documents = ProjectDocuments { files: vec![schema_file("schemas/items.yaml", "Items")] };
    let views = vec![
        ("views/d.yaml".to_owned(), view("view", "brokenView", "Items", vec![column("total", "price +")])),
        ("views/b.yaml".to_owned(), view("view", "itemView", "Items", vec![column("doubled", "price * 2")])),
        ("views/c.yaml".to_owned(), view("schema", "notAView", "Items", Vec::new())),
        ("views/a.yaml".to_owned(), view("view", "itemView", "Items", vec![column("tripled", "price * 3")])),
        ("views/e.yaml".to_owned(), view("view", "questView", "Quests", vec![column("x", "1")])),
    ];
    let table_fields = vec![("Items".to_owned(), vec![int_field("price")])];
    let build = resolve_computed_views(&documents, &views, &table_fields, &Vec::new());
    assert_eq!(build.views.len(), 1);
    assert_eq!(build.views[0].name, "itemView");
    assert_eq!(build.views[0].source, "views/a.yaml");
    assert_eq!(build.views[0].columns[0].name, "tripled");
    let sources: Vec<Option<&str>> = build.diagnostics.iter().map(|d| d.source.as_deref()).collect();
    assert_eq!(sources, vec![Some("views/b.yaml"), Some("views/c.yaml"), Some("views/d.yaml"), Some("views/e.yaml")]);
    assert_eq!(build.diagnostics[0].code, "E-VIEW-DUPLICATE-NAME");
    assert_eq!(build.diagnostics[0].message, "view `itemView` is declared more than once (also in views/a.yaml)");
    assert_eq!(build.diagnostics[0].suggestion.as_deref(), Some("give each project-local view a unique name"));
    assert_eq!(build.diagnostics[1].code, "E-VIEW-PARSE");
    assert_eq!(build.diagnostics[2].code, "E-VIEW-EXPRESSION-SYNTAX");
    assert_eq!(build.diagnostics[3].code, "E-VIEW-TARGET-TABLE");
}

#[test]
fn views_are_reported_by_table_name_and_source() {
    let documents = ProjectDocuments {
        files: vec![schema_file("schemas/items.yaml", "Items"), schema_file("schemas/shops.yaml", "Shops")],
    };
    let views = vec![
        ("views/1.yaml".to_owned(), view("view", "zeta", "Items", vec![column("a", "1")])),
        ("views/2.yaml".to_owned(), view("view", "alpha", "Shops", vec![column("a", "1")])),
        ("views/3.yaml".to_owned(), view("view", "beta", "Items", vec![column("a", "1")])),
    ];
    let build = resolve_computed_views(&documents, &views, &Vec::new(), &Vec::new());
    let names: Vec<&str> = build.views.iter().map(|v| v.name.as_str()).collect();
    assert_eq!(names, vec!["beta", "zeta", "alpha"]);
    assert!(build.diagnostics.is_empty());
}

#[test]
fn refused_columns_leave_no_view_and_one_diagnostic_each() {
    let documents = ProjectDocuments { files: vec![schema_file("schema.yaml", "item")] };
    let views = vec![(
        "view.yaml".to_owned(),
        view(
            "view",
            "invalid",
            "item",
            vec![column("value", "missing + 1"), column("other", "1 + \"x\""), column("fractional", "id + 0.5")],
        ),
    )];
    let table_fields = vec![("item".to_owned(), vec![int_field("id")])];
    let build = resolve_computed_views(&documents, &views, &table_fields, &Vec::new());
    assert!(build.views.is_empty());
    assert_eq!(build.diagnostics.len(), 3);
    assert!(build.diagnostics.iter().any(|d| d.code == "E-VIEW-UNKNOWN-FIELD"));
    assert!(build.diagnostics.iter().any(|d| d.code == "E-VIEW-TYPE-MISMATCH"));
    assert!(build.diagnostics.iter().all(|d| d.column.is_some()));
}

#[test]
fn a_refused_character_is_reported_at_its_column() {
    let documents = ProjectDocuments { files: vec![schema_file("schema.yaml", "item")] };
    let string_field = (
        "name".to_owned(),
        Some(ExpressionType::Scalar { scalar: ScalarType::Primitive(PrimitiveType::String), nullable: false }),
    );
    let views = vec![("view.yaml".to_owned(), view("view", "invalid", "item", vec![column("value", "name @ 1")]))];
    let table_fields = vec![("item".to_owned(), vec![string_field])];
    let build = resolve_computed_views(&documents, &views, &table_fields, &Vec::new());
    assert!(build.views.is_empty());
    assert!(build.diagnostics.iter().any(|d| d.code == "E-VIEW-EXPRESSION-SYNTAX" && d.column == Some(6)));
}

#[test]
fn view_validation_reports_the_resolution_diagnostics() {
    let documents = ProjectDocuments { files: vec![schema_file("schemas/items.yaml", "Items")] };
    let views = vec![
        ("views/a.yaml".to_owned(), view("view", "itemView", "Items", vec![column("doubled", "price * 2")])),
        ("views/b.yaml".to_owned(), view("view", "itemView", "Items", vec![column("tripled", "price * 3")])),
    ];
    let table_fields = vec![("Items".to_owned(), vec![int_field("price")])];
    let diagnostics = validate_computed_views(&documents, &views, &table_fields, &Vec::new());
    assert_eq!(diagnostics.len(), 1);
    assert_eq!(diagnostics[0].code, "E-VIEW-DUPLICATE-NAME");
    assert_eq!(diagnostics[0].source.as_deref(), Some("views/b.yaml"));
}
