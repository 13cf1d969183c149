//! Resolution of view documents: the naming rules of a view and of its
//! columns, its target table, and the columns that resolve.

use vstd::prelude::*;

use crate::computed_view::{
    copy_scalar, copy_type, enums_view, fields_view, normalized, quoted_message, type_of, ExpressionType, ScalarType, ScalarView, TypeView,
};
use crate::document::{schemas_of_table, table_schemas, ProjectDocuments, SchemaDocument};
use crate::error::{Diagnostic, DiagnosticView, ErrorKind};
use crate::expression::parse_source;
use crate::numeric::{decimal_text, decimal_u128};
use crate::text::{chars_of, str_eq};
use crate::view_evaluation::{
    expression_failure, is_output_shape, resolve_computed_column, unsupported_column,
    ResolvedComputedColumn, ResolvedComputedView,
};

verus! {

/// One declared column of a view: its name and its expression text.
#[derive(Debug, Clone, PartialEq, Eq)]
pub struct ViewColumnDefinition {
    pub name: String,
    pub expression: String,
}

/// A view document: named computed columns over one target table.
#[derive(Debug, Clone, PartialEq, Eq)]
pub struct ViewDocument {
    pub kind: String,
    pub name: String,
    pub table: String,
    pub columns: Vec<ViewColumnDefinition>,
}

pub open spec fn is_ascii_lowercase(c: char) -> bool {
    'a' <= c && c <= 'z'
}

pub open spec fn is_ascii_alphanumeric(c: char) -> bool {
    ('a' <= c && c <= 'z') || ('A' <= c && c <= 'Z') || ('0' <= c && c <= '9')
}

/// A lowerCamel ASCII identifier: a lowercase letter, then ASCII letters
/// and digits.
pub open spec fn lower_camel(text: Seq<char>) -> bool {
    &&& text.len() > 0
    &&& is_ascii_lowercase(text[0])
    &&& forall|i: int| 1 <= i < text.len() ==> is_ascii_alphanumeric(#[trigger] text[i])
}

pub fn is_lower_camel_identifier(value: &str) -> (valid: bool)
    ensures
        valid == lower_camel(value@),
{
    let chars = chars_of(value);
    if chars.len() == 0 {
        return false;
    }
    let first = chars[0];
    if !('a' <= first && first <= 'z') {
        return false;
    }
    let mut i: usize = 1;
    while i < chars.len()
        invariant
            1 <= i <= chars@.len(),
            chars@ == value@,
            is_ascii_lowercase(chars@[0]),
            forall|k: int| 1 <= k < i ==> is_ascii_alphanumeric(#[trigger] chars@[k]),
        decreases chars@.len() - i,
    {
        let c = chars[i];
        if !(('a' <= c && c <= 'z') || ('A' <= c && c <= 'Z') || ('0' <= c && c <= '9')) {
            return false;
        }
        i = i + 1;
    }
    true
}

/// A view diagnostic: a validation problem of the document at `path`.
pub open spec fn view_failure(
    path: Seq<char>,
    code: Seq<char>,
    message: Seq<char>,
    requirement: Seq<char>,
    schema_path: Option<Seq<char>>,
) -> DiagnosticView {
    DiagnosticView {
        code,
        kind: ErrorKind::Validation,
        message,
        source: Some(path),
        line: None,
        column: None,
        schema_path,
        record_identity: None,
        suggestion: None,
        related_requirements: seq![requirement],
    }
}

pub(crate) fn view_diagnostic(path: &str, code: &str, message: &str, requirement: &str, schema_path: Option<&str>) -> (d: Diagnostic)
    ensures
        d@ == view_failure(path@, code@, message@, requirement@, match schema_path {
            Some(s) => Some(s@),
            None => None,
        }),
{
    let mut d = Diagnostic::new(code, ErrorKind::Validation, message)
        .with_source(path)
        .with_related_requirement(requirement);
    match schema_path {
        Some(s) => {
            d.schema_path = Some(s.to_owned());
        },
        None => {},
    }
    proof {
        assert(d@.related_requirements =~= seq![requirement@]);
    }
    d
}

/// The schema path of the column at `index`.
pub open spec fn column_path(index: nat) -> Seq<char> {
    "columns["@ + decimal_text(index) + "]"@
}

fn column_path_text(index: usize) -> (path: String)
    ensures
        path@ == column_path(index as nat),
{
    let digits = decimal_u128(index as u128);
    quoted_message("columns[", digits.as_str(), "]")
}

/// Whether an earlier column of the view has the same name.
pub open spec fn named_before(columns: Seq<ViewColumnDefinition>, i: int) -> bool {
    exists|j: int| 0 <= j < i && (#[trigger] columns[j]).name@ == columns[i].name@
}

/// Whether a source field of the target table has this name.
pub open spec fn names_field(fields: Seq<(Seq<char>, Option<TypeView>)>, name: Seq<char>) -> bool {
    exists|k: int| 0 <= k < fields.len() && (#[trigger] fields[k]).0 == name
}

/// Why the column at `i` does not resolve, if it does not: its name, a
/// clash with an earlier column or a source field, its syntax, its type,
/// or a type that has no authoring shape.
pub open spec fn column_failure(
    columns: Seq<ViewColumnDefinition>,
    i: int,
    fields: Seq<(Seq<char>, Option<TypeView>)>,
    enums: Seq<(Seq<char>, ScalarView)>,
    path: Seq<char>,
) -> Option<DiagnosticView> {
    let name = columns[i].name@;
    let at = column_path(i as nat);
    if !lower_camel(name) {
        Some(view_failure(path, "E-VIEW-DUPLICATE-COLUMN"@,
            "computed column `"@ + name + "` is not a lowerCamel ASCII identifier"@, "ADV-VIEW-002"@, Some(at)))
    } else if named_before(columns, i) {
        Some(view_failure(path, "E-VIEW-DUPLICATE-COLUMN"@,
            "computed column `"@ + name + "` is declared more than once"@, "ADV-VIEW-002"@, Some(at)))
    } else if names_field(fields, name) {
        Some(view_failure(path, "E-VIEW-COLUMN-COLLISION"@,
            "computed column `"@ + name + "` collides with a source field"@, "ADV-VIEW-002"@, Some(at)))
    } else {
        match parse_source(columns[i].expression@) {
            Err(e) => Some(expression_failure("E-VIEW-EXPRESSION-SYNTAX"@, ErrorKind::Parse, e.message, e.start, path, at)),
            Ok(tree) => match type_of(tree, fields, enums) {
                Err(e) => Some(expression_failure(e.code, ErrorKind::Validation, e.message, e.start, path, at)),
                Ok(ty) => if normalized(ty) is None {
                    Some(unsupported_column(name, path, at))
                } else {
                    None
                },
            },
        }
    }
}

/// The diagnostics of the first `n` columns, in column order.
pub open spec fn column_failures(
    columns: Seq<ViewColumnDefinition>,
    n: int,
    fields: Seq<(Seq<char>, Option<TypeView>)>,
    enums: Seq<(Seq<char>, ScalarView)>,
    path: Seq<char>,
) -> Seq<DiagnosticView>
    decreases n,
{
    if n <= 0 {
        Seq::empty()
    } else {
        let rest = column_failures(columns, n - 1, fields, enums, path);
        match column_failure(columns, n - 1, fields, enums, path) {
            Some(d) => rest.push(d),
            None => rest,
        }
    }
}

/// The positions, among the first `n`, of the columns that resolve.
pub open spec fn resolving_columns(
    columns: Seq<ViewColumnDefinition>,
    n: int,
    fields: Seq<(Seq<char>, Option<TypeView>)>,
    enums: Seq<(Seq<char>, ScalarView)>,
    path: Seq<char>,
) -> Seq<int>
    decreases n,
{
    if n <= 0 {
        Seq::empty()
    } else {
        let rest = resolving_columns(columns, n - 1, fields, enums, path);
        match column_failure(columns, n - 1, fields, enums, path) {
            Some(_) => rest,
            None => rest.push(n - 1),
        }
    }
}

/// What a resolved column holds of the declared column it comes from.
pub open spec fn resolves_column(
    column: ResolvedComputedColumn,
    declared: ViewColumnDefinition,
    fields: Seq<(Seq<char>, Option<TypeView>)>,
    enums: Seq<(Seq<char>, ScalarView)>,
) -> bool {
    &&& column.column_name() == declared.name@
    &&& column.column_expression() == declared.expression@
    &&& parse_source(declared.expression@) == Ok::<_, crate::expression::SyntaxError>(column.tree())
    &&& fields_view(column.field_types()) == fields
    &&& enums_view(column.enum_types()) == enums
    &&& type_of(column.tree(), fields, enums) matches Ok(ty) && is_output_shape(declared.name@, ty, column.column_shape())
}

fn copy_field_types(fields: &Vec<(String, Option<ExpressionType>)>) -> (copy: Vec<(String, Option<ExpressionType>)>)
    ensures
        fields_view(copy@) == fields_view(fields@),
{
    let mut copy: Vec<(String, Option<ExpressionType>)> = Vec::new();
    let mut i: usize = 0;
    while i < fields.len()
        invariant
            i <= fields@.len(),
            copy@.len() == i,
            forall|k: int| 0 <= k < i ==> #[trigger] fields_view(copy@)[k] == fields_view(fields@)[k],
        decreases fields@.len() - i,
    {
        let ty = match &fields[i].1 {
            Some(t) => Some(copy_type(t)),
            None => None,
        };
        let ghost before = copy@;
        copy.push((fields[i].0.clone(), ty));
        proof {
            assert forall|k: int| 0 <= k < i + 1 implies #[trigger] fields_view(copy@)[k] == fields_view(fields@)[k] by {
                if k < i {
                    assert(copy@[k] == before[k]);
                    assert(fields_view(before)[k] == fields_view(fields@)[k]);
                    assert(fields_view(copy@)[k] == fields_view(before)[k]);
                } else {
                    assert(copy@[k].0@ == fields@[k].0@);
                }
            }
        }
        i = i + 1;
    }
    proof {
        assert(fields_view(copy@) =~= fields_view(fields@));
    }
    copy
}

fn copy_enum_types(enums: &Vec<(String, ScalarType)>) -> (copy: Vec<(String, ScalarType)>)
    ensures
        enums_view(copy@) == enums_view(enums@),
{
    let mut copy: Vec<(String, ScalarType)> = Vec::new();
    let mut i: usize = 0;
    while i < enums.len()
        invariant
            i <= enums@.len(),
            copy@.len() == i,
            forall|k: int| 0 <= k < i ==> #[trigger] enums_view(copy@)[k] == enums_view(enums@)[k],
        decreases enums@.len() - i,
    {
        let ghost before = copy@;
        copy.push((enums[i].0.clone(), copy_scalar(&enums[i].1)));
        proof {
            assert forall|k: int| 0 <= k < i + 1 implies #[trigger] enums_view(copy@)[k] == enums_view(enums@)[k] by {
                if k < i {
                    assert(copy@[k] == before[k]);
                    assert(enums_view(before)[k] == enums_view(enums@)[k]);
                    assert(enums_view(copy@)[k] == enums_view(before)[k]);
                } else {
                    assert(copy@[k].0@ == enums@[k].0@);
                }
            }
        }
        i = i + 1;
    }
    proof {
        assert(enums_view(copy@) =~= enums_view(enums@));
    }
    copy
}

/// Resolves the column at `index`: its name must be a lowerCamel identifier
/// that no earlier column and no source field has, and its expression must
/// parse, type-check and yield a shape.
fn resolve_view_column(
    path: &str,
    columns: &Vec<ViewColumnDefinition>,
    index: usize,
    fields: &Vec<(String, Option<ExpressionType>)>,
    enums: &Vec<(String, ScalarType)>,
) -> (result: Result<ResolvedComputedColumn, Diagnostic>)
    requires
        index < columns@.len(),
    ensures
        match column_failure(columns@, index as int, fields_view(fields@), enums_view(enums@), path@) {
            Some(d) => result matches Err(e) && e@ == d,
            None => result matches Ok(column)
                && resolves_column(column, columns@[index as int], fields_view(fields@), enums_view(enums@)),
        },
{
    let name = columns[index].name.as_str();
    let at = column_path_text(index);
    if !is_lower_camel_identifier(name) {
        let message = quoted_message("computed column `", name, "` is not a lowerCamel ASCII identifier");
        return Err(view_diagnostic(path, "E-VIEW-DUPLICATE-COLUMN", message.as_str(), "ADV-VIEW-002", Some(at.as_str())));
    }
    let mut j: usize = 0;
    while j < index
        invariant
            j <= index < columns@.len(),
            name@ == columns@[index as int].name@,
            lower_camel(name@),
            at@ == column_path(index as nat),
            forall|k: int| 0 <= k < j ==> (#[trigger] columns@[k]).name@ != name@,
        decreases index - j,
    {
        if str_eq(columns[j].name.as_str(), name) {
            proof {
                assert(columns@[j as int].name@ == columns@[index as int].name@);
            }
            let message = quoted_message("computed column `", name, "` is declared more than once");
            return Err(view_diagnostic(path, "E-VIEW-DUPLICATE-COLUMN", message.as_str(), "ADV-VIEW-002", Some(at.as_str())));
        }
        j = j + 1;
    }
    let mut k: usize = 0;
    while k < fields.len()
        invariant
            k <= fields@.len(),
            index < columns@.len(),
            name@ == columns@[index as int].name@,
            lower_camel(name@),
            at@ == column_path(index as nat),
            !named_before(columns@, index as int),
            forall|m: int| 0 <= m < k ==> (#[trigger] fields_view(fields@)[m]).0 != name@,
        decreases fields@.len() - k,
    {
        if str_eq(fields[k].0.as_str(), name) {
            proof {
                assert(fields_view(fields@)[k as int].0 == name@);
            }
            let message = quoted_message("computed column `", name, "` collides with a source field");
            return Err(view_diagnostic(path, "E-VIEW-COLUMN-COLLISION", message.as_str(), "ADV-VIEW-002", Some(at.as_str())));
        }
        k = k + 1;
    }
    let field_types = copy_field_types(fields);
    let enum_types = copy_enum_types(enums);
    resolve_computed_column(name, columns[index].expression.as_str(), field_types, enum_types, path, at.as_str())
}

/// Resolves the declared columns of a view at `path` against the target
/// table's field types and the normal enums: the columns that resolve, in
/// order, and one diagnostic for each column that does not.
pub fn resolve_view_columns(
    path: &str,
    columns: &Vec<ViewColumnDefinition>,
    fields: &Vec<(String, Option<ExpressionType>)>,
    enums: &Vec<(String, ScalarType)>,
) -> (result: (Vec<ResolvedComputedColumn>, Vec<Diagnostic>))
    ensures
        ({
            let (resolved, diagnostics) = result;
            let f = fields_view(fields@);
            let e = enums_view(enums@);
            let n = columns@.len() as int;
            &&& diagnostics@.map_values(|d: Diagnostic| d@) == column_failures(columns@, n, f, e, path@)
            &&& resolved@.len() == resolving_columns(columns@, n, f, e, path@).len()
            &&& forall|k: int| 0 <= k < resolved@.len() ==> resolves_column(#[trigger] resolved@[k],
                columns@[resolving_columns(columns@, n, f, e, path@)[k]], f, e)
        }),
{
    let ghost f = fields_view(fields@);
    let ghost e = enums_view(enums@);
    let mut resolved: Vec<ResolvedComputedColumn> = Vec::new();
    let mut diagnostics: Vec<Diagnostic> = Vec::new();
    let mut i: usize = 0;
    while i < columns.len()
        invariant
            i <= columns@.len(),
            f == fields_view(fields@),
            e == enums_view(enums@),
            diagnostics@.map_values(|d: Diagnostic| d@) == column_failures(columns@, i as int, f, e, path@),
            resolved@.len() == resolving_columns(columns@, i as int, f, e, path@).len(),
            forall|k: int| 0 <= k < resolved@.len() ==> resolves_column(#[trigger] resolved@[k],
                columns@[resolving_columns(columns@, i as int, f, e, path@)[k]], f, e),
        decreases columns@.len() - i,
    {
        let ghost before_resolved = resolved@;
        let ghost before_diagnostics = diagnostics@;
        match resolve_view_column(path, columns, i, fields, enums) {
            Ok(column) => {
                resolved.push(column);
                proof {
                    assert(diagnostics@ == before_diagnostics);
                    assert forall|k: int| 0 <= k < resolved@.len() implies resolves_column(#[trigger] resolved@[k],
                        columns@[resolving_columns(columns@, i + 1, f, e, path@)[k]], f, e) by {
                        if k < before_resolved.len() {
                            assert(resolved@[k] == before_resolved[k]);
                        }
                    }
                }
            },
            Err(d) => {
                diagnostics.push(d);
                proof {
                    assert(diagnostics@.map_values(|d: Diagnostic| d@) =~= before_diagnostics.map_values(|d: Diagnostic| d@).push(d@));
                }
            },
        }
        i = i + 1;
    }
    (resolved, diagnostics)
}

proof fn lemma_columns_partition(
    columns: Seq<ViewColumnDefinition>,
    n: int,
    fields: Seq<(Seq<char>, Option<TypeView>)>,
    enums: Seq<(Seq<char>, ScalarView)>,
    path: Seq<char>,
)
    requires
        n >= 0,
    ensures
        resolving_columns(columns, n, fields, enums, path).len() + column_failures(columns, n, fields, enums, path).len() == n,
    decreases n,
{
    if n > 0 {
        lemma_columns_partition(columns, n - 1, fields, enums, path);
    }
}

/// What the header of a view document yields: whether resolution goes on,
/// and the diagnostics of its kind and its name.
pub open spec fn header_outcome(path: Seq<char>, view: ViewDocument) -> (bool, Seq<DiagnosticView>) {
    if view.kind@ != "view"@ {
        (false, seq![view_failure(path, "E-VIEW-PARSE"@,
            "view document must declare kind `view`, found `"@ + view.kind@ + "`"@, "ADV-VIEW-001"@, None)])
    } else if !lower_camel(view.name@) {
        (true, seq![view_failure(path, "E-VIEW-DUPLICATE-NAME"@,
            "view name `"@ + view.name@ + "` is not a lowerCamel ASCII identifier"@, "ADV-VIEW-002"@, Some("name"@))])
    } else {
        (true, Seq::empty())
    }
}

/// Checks the kind and the name of a view document: a document of another
/// kind goes no further; a name that is no lowerCamel identifier is
/// reported and resolution goes on.
pub fn check_view_header(path: &str, view: &ViewDocument) -> (result: (bool, Vec<Diagnostic>))
    ensures
        result.0 == header_outcome(path@, *view).0,
        result.1@.map_values(|d: Diagnostic| d@) == header_outcome(path@, *view).1,
{
    let mut diagnostics: Vec<Diagnostic> = Vec::new();
    if !str_eq(view.kind.as_str(), "view") {
        let message = quoted_message("view document must declare kind `view`, found `", view.kind.as_str(), "`");
        diagnostics.push(view_diagnostic(path, "E-VIEW-PARSE", message.as_str(), "ADV-VIEW-001", None));
        proof {
            assert(diagnostics@.map_values(|d: Diagnostic| d@) =~= header_outcome(path@, *view).1);
        }
        return (false, diagnostics);
    }
    if !is_lower_camel_identifier(view.name.as_str()) {
        let message = quoted_message("view name `", view.name.as_str(), "` is not a lowerCamel ASCII identifier");
        diagnostics.push(view_diagnostic(path, "E-VIEW-DUPLICATE-NAME", message.as_str(), "ADV-VIEW-002", Some("name")));
    }
    proof {
        assert(diagnostics@.map_values(|d: Diagnostic| d@) =~= header_outcome(path@, *view).1);
    }
    (true, diagnostics)
}

/// The diagnostic of a view whose target table has no schema.
pub open spec fn unknown_target(path: Seq<char>, view: ViewDocument) -> DiagnosticView {
    view_failure(path, "E-VIEW-TARGET-TABLE"@,
        "view `"@ + view.name@ + "` refers to unknown Table `"@ + view.table@ + "`"@, "ADV-VIEW-002"@, Some("table"@))
}

/// The diagnostic of a view whose target table has several schemas.
pub open spec fn ambiguous_target(path: Seq<char>, view: ViewDocument) -> DiagnosticView {
    view_failure(path, "E-VIEW-TARGET-TABLE"@,
        "view `"@ + view.name@ + "` target Table `"@ + view.table@ + "` is ambiguous"@, "ADV-VIEW-002"@, Some("table"@))
}

pub(crate) fn two_part_message(first: &str, a: &str, second: &str, b: &str, last: &str) -> (message: String)
    ensures
        message@ == first@ + a@ + second@ + b@ + last@,
{
    let mut message = quoted_message(first, a, second);
    message.append(b);
    message.append(last);
    message
}

/// The one schema document of the view's target table.
pub fn view_target_schema<'a>(documents: &'a ProjectDocuments, view: &ViewDocument, path: &str)
    -> (result: Result<&'a SchemaDocument, Diagnostic>)
    ensures
        ({
            let found = table_schemas(documents.files@, view.table@);
            if found.len() == 1 {
                result matches Ok(schema) && *schema == found[0]
            } else if found.len() == 0 {
                result matches Err(d) && d@ == unknown_target(path@, *view)
            } else {
                result matches Err(d) && d@ == ambiguous_target(path@, *view)
            }
        }),
{
    let (first, count) = schemas_of_table(documents, view.table.as_str());
    match first {
        Some(schema) => {
            if count == 1 {
                Ok(schema)
            } else {
                let message = two_part_message("view `", view.name.as_str(), "` target Table `", view.table.as_str(), "` is ambiguous");
                Err(view_diagnostic(path, "E-VIEW-TARGET-TABLE", message.as_str(), "ADV-VIEW-002", Some("table")))
            }
        },
        None => {
            let message = two_part_message("view `", view.name.as_str(), "` refers to unknown Table `", view.table.as_str(), "`");
            Err(view_diagnostic(path, "E-VIEW-TARGET-TABLE", message.as_str(), "ADV-VIEW-002", Some("table")))
        },
    }
}

/// The diagnostic of a view that declares no column.
pub open spec fn no_columns(path: Seq<char>, view: ViewDocument) -> DiagnosticView {
    view_failure(path, "E-VIEW-PARSE"@, "view `"@ + view.name@ + "` must declare at least one column"@, "ADV-VIEW-001"@,
        Some("columns"@))
}

/// Resolves the columns of a view whose target table's field types are
/// `fields`: the view, if it declares columns and every one of them
/// resolves, and the diagnostics of those that do not.
pub fn resolve_view_body(
    path: &str,
    view: &ViewDocument,
    fields: &Vec<(String, Option<ExpressionType>)>,
    enums: &Vec<(String, ScalarType)>,
) -> (result: (Option<ResolvedComputedView>, Vec<Diagnostic>))
    ensures
        ({
            let (resolved, diagnostics) = result;
            let f = fields_view(fields@);
            let e = enums_view(enums@);
            let n = view.columns@.len() as int;
            if n == 0 {
                &&& resolved is None
                &&& diagnostics@.map_values(|d: Diagnostic| d@) == seq![no_columns(path@, *view)]
            } else {
                &&& diagnostics@.map_values(|d: Diagnostic| d@) == column_failures(view.columns@, n, f, e, path@)
                &&& (resolved is Some <==> column_failures(view.columns@, n, f, e, path@).len() == 0)
                &&& resolved matches Some(v) ==> {
                    &&& v.name@ == view.name@
                    &&& v.table@ == view.table@
                    &&& v.source@ == path@
                    &&& v.columns@.len() == n
                    &&& forall|k: int| 0 <= k < n ==> resolves_column(#[trigger] v.columns@[k],
                        view.columns@[resolving_columns(view.columns@, n, f, e, path@)[k]], f, e)
                }
            }
        }),
{
    if view.columns.len() == 0 {
        let message = quoted_message("view `", view.name.as_str(), "` must declare at least one column");
        let mut diagnostics: Vec<Diagnostic> = Vec::new();
        diagnostics.push(view_diagnostic(path, "E-VIEW-PARSE", message.as_str(), "ADV-VIEW-001", Some("columns")));
        proof {
            assert(diagnostics@.map_values(|d: Diagnostic| d@) =~= seq![no_columns(path@, *view)]);
        }
        return (None, diagnostics);
    }
    let (columns, diagnostics) = resolve_view_columns(path, &view.columns, fields, enums);
    proof {
        lemma_columns_partition(view.columns@, view.columns@.len() as int, fields_view(fields@), enums_view(enums@), path@);
        assert(diagnostics@.map_values(|d: Diagnostic| d@).len() == diagnostics@.len());
    }
    if columns.len() == view.columns.len() {
        let resolved = ResolvedComputedView {
            name: view.name.clone(),
            table: view.table.clone(),
            source: path.to_owned(),
            columns,
        };
        (Some(resolved), diagnostics)
    } else {
        (None, diagnostics)
    }
}

/// When no column of a view is refused, its column names are lowerCamel
/// identifiers, each declared once, and none is the name of a source field.
pub proof fn law_resolved_column_names_are_distinct(
    columns: Seq<ViewColumnDefinition>,
    fields: Seq<(Seq<char>, Option<TypeView>)>,
    enums: Seq<(Seq<char>, ScalarView)>,
    path: Seq<char>,
)
    requires
        column_failures(columns, columns.len() as int, fields, enums, path).len() == 0,
    ensures
        forall|i: int| 0 <= i < columns.len() ==> lower_camel((#[trigger] columns[i]).name@)
            && !names_field(fields, columns[i].name@),
        forall|i: int, j: int| 0 <= i < j < columns.len() ==> (#[trigger] columns[i]).name@ != (#[trigger] columns[j]).name@,
{
    lemma_no_failures_prefix(columns, columns.len() as int, fields, enums, path);
    assert forall|i: int, j: int| 0 <= i < j < columns.len() implies (#[trigger] columns[i]).name@ != (#[trigger] columns[j]).name@ by {
        assert(column_failure(columns, j, fields, enums, path) is None);
        if columns[i].name@ == columns[j].name@ {
            assert(named_before(columns, j));
        }
    }
    assert forall|i: int| 0 <= i < columns.len() implies lower_camel((#[trigger] columns[i]).name@)
        && !names_field(fields, columns[i].name@) by {
        assert(column_failure(columns, i, fields, enums, path) is None);
    }
}

proof fn lemma_no_failures_prefix(
    columns: Seq<ViewColumnDefinition>,
    n: int,
    fields: Seq<(Seq<char>, Option<TypeView>)>,
    enums: Seq<(Seq<char>, ScalarView)>,
    path: Seq<char>,
)
    requires
        column_failures(columns, n, fields, enums, path).len() == 0,
    ensures
        forall|i: int| 0 <= i < n ==> #[trigger] column_failure(columns, i, fields, enums, path) is None,
    decreases n,
{
    if n > 0 {
        let rest = column_failures(columns, n - 1, fields, enums, path);
        if column_failure(columns, n - 1, fields, enums, path) is Some {
            assert(column_failures(columns, n, fields, enums, path).len() == rest.len() + 1);
        }
        lemma_no_failures_prefix(columns, n - 1, fields, enums, path);
    }
}

} // verus!
