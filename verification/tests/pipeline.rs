use masterdata_core::document::{DataDocument, LoadedDocument, ProjectDocuments, SchemaDocument, SourceDocument};
use masterdata_core::pipeline::compute_schema_source_content_hash;
use sha2::{Digest, Sha256};

fn schema(path: &str, source: &str) -> LoadedDocument {
    LoadedDocument {
        path: path.to_owned(),
        source: source.to_owned(),
        document: SourceDocument::Schema(SchemaDocument {
            kind: "schema".to_owned(),
            table: "Items".to_owned(),
            csharp_name: None,
            fields: Vec::new(),
            primary_key: None,
            secondary_keys: Vec::new(),
        }),
    }
}

fn data(path: &str, source: &str) -> LoadedDocument {
    LoadedDocument {
        path: path.to_owned(),
        source: source.to_owned(),
        document: SourceDocument::Data(DataDocument { kind: "data".to_owned(), table: "Items".to_owned(), records: Vec::new() }),
    }
}

fn hex_sha256(bytes: &[u8]) -> String {
    Sha256::digest(bytes).iter().map(|b| format!("{b:02x}")).collect()
}

#[test]
fn schema_hash_covers_schema_sources_in_path_order() {
    let documents = ProjectDocuments {
        files: vec![schema("schemas/b.yaml", "B"), data("data/items.yaml", "rows"), schema("schemas/a.yaml", "A")],
    };
    assert_eq!(compute_schema_source_content_hash(&documents), hex_sha256(b"A\0B\0"));
}

#[test]
fn schema_hash_orders_paths_by_component() {
    let documents = ProjectDocuments { files: vec![schema("a-b.yaml", "dash"), schema("a/b.yaml", "slash")] };
    assert_eq!(compute_schema_source_content_hash(&documents), hex_sha256(b"slash\0dash\0"));
}

#[test]
fn schema_hash_of_no_schema_is_the_empty_digest() {
    let documents = ProjectDocuments { files: vec![data("data/items.yaml", "rows")] };
    assert_eq!(
        compute_schema_source_content_hash(&documents),
        "e3b0c44298fc1c149afbf4c8996fb92427ae41e4649b934ca495991b7852b855"
    );
}
