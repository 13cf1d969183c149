# masterdata_core

Domain semantics of a masterdata authoring product, verified with Verus.

`src/` is the library. Every function there carries a contract that Verus
proves:

- `authoring_batch`, `authoring_query`, `authoring_value` — the clipboard TSV
  codec, the filter/search/sort of the data grid, and the authoring values
  of data record values.
- `expression`, `computed_view`, `view_evaluation`, `view_resolution` — the
  Computed View expression grammar: lexer, parser, type checker, row
  evaluation and the naming rules of view documents.
- `config`, `config_edit`, `project` — project settings, lossless edits of the
  settings file, and project paths.
- `document`, `yaml_subset`, `source_creation`, `schema_authoring`,
  `data_authoring` — source documents, the YAML lexical subset, creation of
  new declarations and the editors' views of them.
- `compatibility`, `type_compatibility`, `table_compatibility`,
  `compatibility_report` — comparison of two resolved snapshots.
- `migration`, `migration_commit` — type migrations and commit reports.
- `view_build` — the project pass over view documents: names declared once,
  each view resolved or refused with its diagnostics, in report order.
- `pipeline` — the schema source content hash of a project.
- `project` also lists a project's source files: each YAML file once, in
  order.

Calls into `toml`, `serde_json`, `serde_yaml` and `sha2` stand behind small
trusted wrappers whose contracts name what those crates compute.

`app/` holds what Verus does not see: filesystem and process access, the
serde shapes of documents and settings, and floating-point arithmetic.
`tests/` exercises the library through its public interface.
