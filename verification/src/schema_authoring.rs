//! What the table and type editors show of one declaration.

use vstd::prelude::*;

use crate::document::{
    ConversionDefinition, EnumMember, LoadedDocument, ProjectDocuments, SchemaDocument, SourceDocument,
    TypeDocument, TypeFieldDefinition,
};
use crate::error::{fresh_diagnostic, Diagnostic, ErrorKind, MasterdataError};
use crate::numeric::{decimal_i128, signed_decimal_text};
use crate::text::str_eq;
use crate::type_system::ResolvedAuthoringType;

verus! {

/// The table editor's view of a schema document.
#[derive(Debug)]
pub struct TableSnapshot {
    pub path: String,
    pub schema: SchemaDocument,
    pub field_types: Vec<String>,
    /// The authoring shape of each field type that has one, by type name.
    pub initializer_shapes: Vec<(String, ResolvedAuthoringType)>,
    pub references: Vec<ReferenceSnapshot>,
    pub reference_diagnostics: Vec<Diagnostic>,
}

/// A reference of a table, with what resolution found of its target.
#[derive(Debug, Clone, PartialEq, Eq)]
pub struct ReferenceSnapshot {
    pub name: String,
    pub source_fields: Vec<String>,
    pub target_table: String,
    pub target_fields: Vec<String>,
    pub target_key_kind: Option<String>,
    pub cardinality: Option<String>,
    pub optionality: Option<String>,
}

/// The type editor's view of a type document.
#[derive(Debug)]
pub struct TypeSnapshot {
    pub path: String,
    pub name: String,
    pub category: String,
    pub underlying: Option<String>,
    pub conversions: Option<ConversionDefinition>,
    pub members: Vec<TypeMemberView>,
    pub fields: Vec<TypeFieldDefinition>,
    pub field_types: Vec<String>,
    /// The authoring shape of each field type that has one, by type name.
    pub initializer_shapes: Vec<(String, ResolvedAuthoringType)>,
}

/// An enum or flags member, its value as decimal text.
#[derive(Debug, Clone, PartialEq, Eq)]
pub struct TypeMemberView {
    pub name: String,
    pub value: String,
}

fn editor_error(code: &str, message: &str) -> (error: MasterdataError)
    ensures
        error@ == fresh_diagnostic(code@, ErrorKind::Validation, message@),
{
    MasterdataError::new(code, ErrorKind::Validation, message)
}

/// The position of the first document loaded from `path`, if any.
pub open spec fn first_at(files: Seq<LoadedDocument>, path: Seq<char>) -> Option<int> {
    if exists|i: int| 0 <= i < files.len() && (#[trigger] files[i]).path@ == path {
        Some(choose|i: int| 0 <= i < files.len() && (#[trigger] files[i]).path@ == path
            && forall|j: int| 0 <= j < i ==> (#[trigger] files[j]).path@ != path)
    } else {
        None
    }
}

proof fn lemma_first_at(files: Seq<LoadedDocument>, path: Seq<char>, i: int)
    requires
        0 <= i < files.len(),
        files[i].path@ == path,
        forall|j: int| 0 <= j < i ==> (#[trigger] files[j]).path@ != path,
    ensures
        first_at(files, path) == Some(i),
{
    let k = choose|k: int| 0 <= k < files.len() && (#[trigger] files[k]).path@ == path
        && forall|j: int| 0 <= j < k ==> (#[trigger] files[j]).path@ != path;
    assert(files[i].path@ == path);
    if k < i {
        assert(files[k].path@ != path);
    }
    if k > i {
        assert(files[i].path@ != path);
    }
}

/// The first document loaded from `path`.
pub fn source_at<'a>(documents: &'a ProjectDocuments, path: &str) -> (found: Option<&'a LoadedDocument>)
    ensures
        match first_at(documents.files@, path@) {
            Some(i) => found matches Some(f) && *f == documents.files@[i],
            None => found is None,
        },
{
    let mut i: usize = 0;
    while i < documents.files.len()
        invariant
            i <= documents.files@.len(),
            forall|j: int| 0 <= j < i ==> (#[trigger] documents.files@[j]).path@ != path@,
        decreases documents.files@.len() - i,
    {
        if str_eq(documents.files[i].path.as_str(), path) {
            proof {
                lemma_first_at(documents.files@, path@, i as int);
            }
            return Some(&documents.files[i]);
        }
        i = i + 1;
    }
    None
}

/// The schema document loaded from `path`.
pub fn table_source<'a>(documents: &'a ProjectDocuments, path: &str) -> (result: Result<&'a SchemaDocument, MasterdataError>)
    ensures
        match first_at(documents.files@, path@) {
            None => result matches Err(e)
                && e@ == fresh_diagnostic("E-TABLE-EDITOR-SOURCE"@, ErrorKind::Validation, "schema source not found"@),
            Some(i) => match documents.files@[i].document {
                SourceDocument::Schema(schema) => result matches Ok(s) && *s == schema,
                _ => result matches Err(e)
                    && e@ == fresh_diagnostic("E-TABLE-EDITOR-KIND"@, ErrorKind::Validation, "source is not a Table schema"@),
            },
        },
{
    match source_at(documents, path) {
        None => Err(editor_error("E-TABLE-EDITOR-SOURCE", "schema source not found")),
        Some(file) => match &file.document {
            SourceDocument::Schema(schema) => Ok(schema),
            _ => Err(editor_error("E-TABLE-EDITOR-KIND", "source is not a Table schema")),
        },
    }
}

/// The type document loaded from `path`.
pub fn type_source<'a>(documents: &'a ProjectDocuments, path: &str) -> (result: Result<&'a TypeDocument, MasterdataError>)
    ensures
        match first_at(documents.files@, path@) {
            None => result matches Err(e)
                && e@ == fresh_diagnostic("E-TYPE-EDITOR-INPUT"@, ErrorKind::Validation, "type source not found"@),
            Some(i) => match documents.files@[i].document {
                SourceDocument::Type(declaration) => result matches Ok(t) && *t == declaration,
                _ => result matches Err(e)
                    && e@ == fresh_diagnostic("E-TYPE-EDITOR-INPUT"@, ErrorKind::Validation, "source is not a type"@),
            },
        },
{
    match source_at(documents, path) {
        None => Err(editor_error("E-TYPE-EDITOR-INPUT", "type source not found")),
        Some(file) => match &file.document {
            SourceDocument::Type(declaration) => Ok(declaration),
            _ => Err(editor_error("E-TYPE-EDITOR-INPUT", "source is not a type")),
        },
    }
}

/// The members with their values as decimal text.
pub open spec fn members_shown(members: Seq<EnumMember>, shown: Seq<TypeMemberView>) -> bool {
    &&& shown.len() == members.len()
    &&& forall|i: int| 0 <= i < members.len() ==> (#[trigger] shown[i]).name == members[i].name
        && shown[i].value@ == signed_decimal_text(members[i].value.0 as int)
}

fn member_views(members: &Vec<EnumMember>) -> (shown: Vec<TypeMemberView>)
    ensures
        members_shown(members@, shown@),
{
    let mut shown: Vec<TypeMemberView> = Vec::new();
    let mut i: usize = 0;
    while i < members.len()
        invariant
            i <= members@.len(),
            shown@.len() == i,
            forall|k: int| 0 <= k < i ==> (#[trigger] shown@[k]).name == members@[k].name
                && shown@[k].value@ == signed_decimal_text(members@[k].value.0 as int),
        decreases members@.len() - i,
    {
        shown.push(TypeMemberView { name: members[i].name.clone(), value: decimal_i128(members[i].value.0) });
        i = i + 1;
    }
    shown
}

/// The type editor's view of a declaration, shown at `display_path`: a
/// value object with its underlying type and conversions, a custom type
/// with its fields, or an enum or flags enum with its members.
pub fn type_declaration_snapshot(
    display_path: &str,
    declaration: TypeDocument,
    field_types: Vec<String>,
    initializer_shapes: Vec<(String, ResolvedAuthoringType)>,
) -> (result: Result<TypeSnapshot, MasterdataError>)
    ensures
        match result {
            Ok(snapshot) => {
                &&& snapshot.path@ == display_path@
                &&& snapshot.name == declaration.name
                &&& snapshot.field_types == field_types
                &&& snapshot.initializer_shapes == initializer_shapes
                &&& match declaration.value_object {
                    Some(value_object) => {
                        &&& snapshot.category@ == "Value Object"@
                        &&& snapshot.underlying == Some(value_object.underlying)
                        &&& snapshot.conversions == Some(value_object.conversions)
                        &&& snapshot.members@.len() == 0
                        &&& snapshot.fields@.len() == 0
                    },
                    None => match declaration.custom {
                        Some(custom) => {
                            &&& snapshot.category@ == "Custom Type"@
                            &&& snapshot.fields == custom.fields
                            &&& snapshot.underlying is None
                            &&& snapshot.conversions is None
                            &&& snapshot.members@.len() == 0
                        },
                        None => {
                            &&& snapshot.conversions is None
                            &&& snapshot.fields@.len() == 0
                            &&& match declaration.enum_definition {
                                Some(definition) => snapshot.category@ == "Enum"@
                                    && snapshot.underlying == Some(definition.underlying)
                                    && members_shown(definition.members@, snapshot.members@),
                                None => declaration.flags matches Some(definition)
                                    && snapshot.category@ == "Flags Enum"@
                                    && snapshot.underlying == Some(definition.underlying)
                                    && members_shown(definition.members@, snapshot.members@),
                            }
                        },
                    },
                }
            },
            Err(e) => {
                &&& declaration.value_object is None
                &&& declaration.custom is None
                &&& declaration.enum_definition is None
                &&& declaration.flags is None
                &&& e@ == fresh_diagnostic("E-TYPE-EDITOR-INPUT"@, ErrorKind::Validation, "unresolved category"@)
            },
        },
{
    let TypeDocument { kind: _, name, value_object, custom, enum_definition, flags } = declaration;
    let (category, underlying, conversions, members, fields) = match value_object {
        Some(value_object) => (String::from_str("Value Object"), Some(value_object.underlying), Some(value_object.conversions),
            Vec::new(), Vec::new()),
        None => match custom {
            Some(custom) => (String::from_str("Custom Type"), None, None, Vec::new(), custom.fields),
            None => match enum_definition {
                Some(definition) => {
                    let members = member_views(&definition.members);
                    (String::from_str("Enum"), Some(definition.underlying), None, members, Vec::new())
                },
                None => match flags {
                    Some(definition) => {
                        let members = member_views(&definition.members);
                        (String::from_str("Flags Enum"), Some(definition.underlying), None, members, Vec::new())
                    },
                    None => {
                        return Err(editor_error("E-TYPE-EDITOR-INPUT", "unresolved category"));
                    },
                },
            },
        },
    };
    Ok(TypeSnapshot {
        path: String::from_str(display_path),
        name,
        category,
        underlying,
        conversions,
        members,
        fields,
        field_types,
        initializer_shapes,
    })
}

} // verus!
