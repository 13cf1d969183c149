use vstd::prelude::*;

use crate::document::DataValue;
use crate::text::str_eq;
use crate::type_system::{FieldModifier, ResolvedAuthoringField, ResolvedAuthoringType};
use crate::error::{fresh_diagnostic, Diagnostic, DiagnosticView, ErrorKind, MasterdataError};

verus! {

/// A source value passed between the shared application and an authoring
/// surface. Numbers are decimal text so JavaScript never rounds 64-bit values.
#[derive(Debug, PartialEq, Eq)]
pub enum AuthoringValue {
    Null,
    Invalid { diagnostic: Box<Diagnostic> },
    Bool { value: bool },
    Number { value: String },
    String { value: String },
    Sequence { items: Vec<AuthoringSequenceItem>, source_identity: bool },
    Mapping { entries: Vec<AuthoringMember> },
}

/// An authoring sequence item retains its source occurrence while the UI
/// edits or reorders the value tree. Added items have no source index.
#[derive(Debug, PartialEq, Eq)]
pub struct AuthoringSequenceItem {
    pub source_index: Option<usize>,
    pub value: AuthoringValue,
}

/// One named member of a Custom Type mapping.
#[derive(Debug, PartialEq, Eq)]
pub struct AuthoringMember {
    pub name: String,
    pub value: AuthoringValue,
}

/// The text of a `Number` or `String` value.
pub open spec fn scalar_text(value: AuthoringValue) -> Option<Seq<char>> {
    match value {
        AuthoringValue::Number { value } => Some(value@),
        AuthoringValue::String { value } => Some(value@),
        _ => None,
    }
}

/// Whether a value is a `String` value with the given text.
pub open spec fn is_text_value(value: AuthoringValue, text: Seq<char>) -> bool {
    value matches AuthoringValue::String { value: v } && v@ == text
}

/// Whether a value is a `Number` value with the given text.
pub open spec fn is_number_value(value: AuthoringValue, text: Seq<char>) -> bool {
    value matches AuthoringValue::Number { value: v } && v@ == text
}

/// A source value that cannot be shown as an authoring value.
pub open spec fn unsupported_value(message: Seq<char>) -> DiagnosticView {
    DiagnosticView {
        related_requirements: seq!["SOURCE-EDIT-015"@],
        ..fresh_diagnostic("E-SOURCE-EDIT-VALUE-UNSUPPORTED"@, ErrorKind::Validation, message)
    }
}

fn unsupported(message: &str) -> (error: MasterdataError)
    ensures
        error@ == unsupported_value(message@),
{
    let error = MasterdataError::new("E-SOURCE-EDIT-VALUE-UNSUPPORTED", ErrorKind::Validation, message)
        .with_related_requirement("SOURCE-EDIT-015");
    proof {
        assert(error@.related_requirements =~= seq!["SOURCE-EDIT-015"@]);
    }
    error
}

/// Why a source value cannot be projected, if it cannot: the first tagged
/// value, or mapping key that is not a string, in source order.
pub open spec fn projection_failure(value: DataValue) -> Option<Seq<char>>
    decreases value, 0int,
{
    match value {
        DataValue::Sequence(items) => items_failure(items@, items@.len() as int),
        DataValue::Mapping(entries) => entries_failure(entries@, entries@.len() as int),
        DataValue::Tagged(_, _) => Some("tagged YAML values cannot be projected as typed authoring values"@),
        _ => None,
    }
}

/// The first failure among the first `k` items.
pub open spec fn items_failure(items: Seq<DataValue>, k: int) -> Option<Seq<char>>
    decreases items, k,
{
    if k <= 0 || k > items.len() {
        None
    } else {
        match items_failure(items, k - 1) {
            Some(m) => Some(m),
            None => projection_failure(items[k - 1]),
        }
    }
}

/// The first failure among the first `k` mapping entries.
pub open spec fn entries_failure(entries: Seq<(DataValue, DataValue)>, k: int) -> Option<Seq<char>>
    decreases entries, k,
{
    if k <= 0 || k > entries.len() {
        None
    } else {
        match entries_failure(entries, k - 1) {
            Some(m) => Some(m),
            None => match entries[k - 1].0 {
                DataValue::Text(_) => projection_failure(entries[k - 1].1),
                _ => Some("Custom Type mappings must use string member names"@),
            },
        }
    }
}

/// `out` is the authoring value of `value`: scalars keep their text, a
/// sequence keeps each item with its source position, a mapping keeps each
/// entry under its string key, in source order.
pub open spec fn projects(value: DataValue, out: AuthoringValue) -> bool
    decreases value, 0int,
{
    match value {
        DataValue::Null => out is Null,
        DataValue::Bool(flag) => out == AuthoringValue::Bool { value: flag },
        DataValue::Number(text) => out matches AuthoringValue::Number { value } && value@ == text@,
        DataValue::Text(text) => out matches AuthoringValue::String { value } && value@ == text@,
        DataValue::Sequence(items) => out matches AuthoringValue::Sequence { items: projected, source_identity }
            && source_identity && projected@.len() == items@.len()
            && items_project(items@, projected@, items@.len() as int),
        DataValue::Mapping(entries) => out matches AuthoringValue::Mapping { entries: projected }
            && projected@.len() == entries@.len() && entries_project(entries@, projected@, entries@.len() as int),
        DataValue::Tagged(_, _) => false,
    }
}

/// The first `k` items are projected, each with its source position.
pub open spec fn items_project(items: Seq<DataValue>, projected: Seq<AuthoringSequenceItem>, k: int) -> bool
    decreases items, k,
{
    if k <= 0 || k > items.len() {
        true
    } else {
        items_project(items, projected, k - 1) && projected[k - 1].source_index == Some((k - 1) as usize)
            && projects(items[k - 1], projected[k - 1].value)
    }
}

/// The first `k` entries are projected under their string keys.
pub open spec fn entries_project(entries: Seq<(DataValue, DataValue)>, projected: Seq<AuthoringMember>, k: int) -> bool
    decreases entries, k,
{
    if k <= 0 || k > entries.len() {
        true
    } else {
        &&& entries_project(entries, projected, k - 1)
        &&& entries[k - 1].0 matches DataValue::Text(name) && projected[k - 1].name@ == name@
        &&& projects(entries[k - 1].1, projected[k - 1].value)
    }
}

/// The authoring value of a source value of a data record, or why it has
/// none (a tagged value, or a mapping key that is not a string).
pub fn project_source_value(value: &DataValue) -> (result: Result<AuthoringValue, MasterdataError>)
    ensures
        match result {
            Ok(out) => projection_failure(*value) is None && projects(*value, out),
            Err(e) => projection_failure(*value) matches Some(m) && e@ == unsupported_value(m),
        },
    decreases value,
{
    match value {
        DataValue::Null => Ok(AuthoringValue::Null),
        DataValue::Bool(flag) => Ok(AuthoringValue::Bool { value: *flag }),
        DataValue::Number(text) => Ok(AuthoringValue::Number { value: text.clone() }),
        DataValue::Text(text) => Ok(AuthoringValue::String { value: text.clone() }),
        DataValue::Sequence(items) => {
            let mut projected: Vec<AuthoringSequenceItem> = Vec::new();
            let mut i: usize = 0;
            while i < items.len()
                invariant
                    i <= items@.len(),
                    *value == DataValue::Sequence(*items),
                    projected@.len() == i,
                    items_failure(items@, i as int) is None,
                    items_project(items@, projected@, i as int),
                decreases items@.len() - i,
            {
                proof {
                    assert(decreases_to!(*value => value->Sequence_0));
                    assert(decreases_to!(value->Sequence_0 => items@));
                    assert(decreases_to!(items@ => items@[i as int]));
                }
                let item = project_source_value(&items[i]);
                match item {
                    Err(e) => {
                        proof {
                            lemma_items_failure_stays(items@, i + 1);
                        }
                        return Err(e);
                    },
                    Ok(out) => {
                        let ghost before = projected@;
                        projected.push(AuthoringSequenceItem { source_index: Some(i), value: out });
                        proof {
                            lemma_items_project_extend(items@, before, projected@, i as int);
                        }
                    },
                }
                i = i + 1;
            }
            Ok(AuthoringValue::Sequence { items: projected, source_identity: true })
        },
        DataValue::Mapping(entries) => {
            let mut projected: Vec<AuthoringMember> = Vec::new();
            let mut i: usize = 0;
            while i < entries.len()
                invariant
                    i <= entries@.len(),
                    *value == DataValue::Mapping(*entries),
                    projected@.len() == i,
                    entries_failure(entries@, i as int) is None,
                    entries_project(entries@, projected@, i as int),
                decreases entries@.len() - i,
            {
                proof {
                    assert(decreases_to!(*value => value->Mapping_0));
                    assert(decreases_to!(value->Mapping_0 => entries@));
                    assert(decreases_to!(entries@ => entries@[i as int]));
                    assert(decreases_to!(entries@[i as int] => entries@[i as int].1));
                }
                let name = match &entries[i].0 {
                    DataValue::Text(name) => name.clone(),
                    _ => {
                        proof {
                            lemma_entries_failure_stays(entries@, i + 1);
                        }
                        return Err(unsupported("Custom Type mappings must use string member names"));
                    },
                };
                let member = project_source_value(&entries[i].1);
                match member {
                    Err(e) => {
                        proof {
                            lemma_entries_failure_stays(entries@, i + 1);
                        }
                        return Err(e);
                    },
                    Ok(out) => {
                        let ghost before = projected@;
                        projected.push(AuthoringMember { name, value: out });
                        proof {
                            lemma_entries_project_extend(entries@, before, projected@, i as int);
                        }
                    },
                }
                i = i + 1;
            }
            Ok(AuthoringValue::Mapping { entries: projected })
        },
        DataValue::Tagged(_, _) => Err(unsupported("tagged YAML values cannot be projected as typed authoring values")),
    }
}

proof fn lemma_items_failure_stays(items: Seq<DataValue>, k: int)
    requires
        0 < k <= items.len(),
        items_failure(items, k) is Some,
    ensures
        items_failure(items, items.len() as int) == items_failure(items, k),
    decreases items.len() - k,
{
    if k < items.len() {
        assert(items_failure(items, k + 1) == items_failure(items, k));
        lemma_items_failure_stays(items, k + 1);
    }
}

proof fn lemma_entries_failure_stays(entries: Seq<(DataValue, DataValue)>, k: int)
    requires
        0 < k <= entries.len(),
        entries_failure(entries, k) is Some,
    ensures
        entries_failure(entries, entries.len() as int) == entries_failure(entries, k),
    decreases entries.len() - k,
{
    if k < entries.len() {
        assert(entries_failure(entries, k + 1) == entries_failure(entries, k));
        lemma_entries_failure_stays(entries, k + 1);
    }
}

proof fn lemma_items_project_prefix(items: Seq<DataValue>, a: Seq<AuthoringSequenceItem>, b: Seq<AuthoringSequenceItem>, k: int)
    requires
        k <= a.len(),
        k <= b.len(),
        forall|j: int| 0 <= j < k ==> a[j] == b[j],
        items_project(items, a, k),
    ensures
        items_project(items, b, k),
    decreases k,
{
    if k > 0 && k <= items.len() {
        lemma_items_project_prefix(items, a, b, k - 1);
    }
}

proof fn lemma_items_project_extend(items: Seq<DataValue>, before: Seq<AuthoringSequenceItem>, after: Seq<AuthoringSequenceItem>, i: int)
    requires
        0 <= i < items.len(),
        before.len() == i,
        after.len() == i + 1,
        forall|j: int| 0 <= j < i ==> after[j] == before[j],
        items_project(items, before, i),
        after[i].source_index == Some(i as usize),
        projects(items[i], after[i].value),
    ensures
        items_project(items, after, i + 1),
{
    lemma_items_project_prefix(items, before, after, i);
}

proof fn lemma_entries_project_prefix(entries: Seq<(DataValue, DataValue)>, a: Seq<AuthoringMember>, b: Seq<AuthoringMember>, k: int)
    requires
        k <= a.len(),
        k <= b.len(),
        forall|j: int| 0 <= j < k ==> a[j] == b[j],
        entries_project(entries, a, k),
    ensures
        entries_project(entries, b, k),
    decreases k,
{
    if k > 0 && k <= entries.len() {
        lemma_entries_project_prefix(entries, a, b, k - 1);
    }
}

proof fn lemma_entries_project_extend(entries: Seq<(DataValue, DataValue)>, before: Seq<AuthoringMember>, after: Seq<AuthoringMember>, i: int)
    requires
        0 <= i < entries.len(),
        before.len() == i,
        after.len() == i + 1,
        forall|j: int| 0 <= j < i ==> after[j] == before[j],
        entries_project(entries, before, i),
        entries[i].0 matches DataValue::Text(name) && after[i].name@ == name@,
        projects(entries[i].1, after[i].value),
    ensures
        entries_project(entries, after, i + 1),
{
    lemma_entries_project_prefix(entries, before, after, i);
}

/// A sequence, a mapping or a tagged value: not a scalar.
pub open spec fn is_collection(value: DataValue) -> bool {
    value is Sequence || value is Mapping || value is Tagged
}

/// The position of the first field named `name`.
pub open spec fn field_named(fields: Seq<ResolvedAuthoringField>, name: Seq<char>, k: int) -> Option<int>
    decreases k,
{
    if k <= 0 || k > fields.len() {
        None
    } else {
        match field_named(fields, name, k - 1) {
            Some(j) => Some(j),
            None => if fields[k - 1].name@ == name { Some(k - 1) } else { None },
        }
    }
}

/// Why a source value cannot be projected for a field of the given shape,
/// if it cannot: null always can; an array needs a sequence, and each item
/// the field's type.
pub open spec fn typed_failure(field: ResolvedAuthoringField, value: DataValue) -> Option<Seq<char>>
    decreases value, 1int,
{
    if value is Null {
        None
    } else {
        match field.modifier {
            FieldModifier::Array => match value {
                DataValue::Sequence(items) => shaped_items_failure(field.shape, items@, items@.len() as int),
                _ => Some("Array source value is not a sequence"@),
            },
            _ => shape_failure(field.shape, value),
        }
    }
}

/// Why a source value cannot be projected as a value of `shape`: a scalar
/// type needs a scalar, Flags a sequence of scalars, a Custom Type a
/// mapping with string keys whose members fit their fields.
pub open spec fn shape_failure(shape: ResolvedAuthoringType, value: DataValue) -> Option<Seq<char>>
    decreases value, 0int,
{
    match shape {
        ResolvedAuthoringType::Flags { .. } => match value {
            DataValue::Sequence(items) => flags_failure(items@, items@.len() as int),
            _ => Some("Flags source value is not a sequence"@),
        },
        ResolvedAuthoringType::Custom { fields, .. } => match value {
            DataValue::Mapping(entries) => members_failure(fields@, entries@, entries@.len() as int),
            _ => Some("Custom Type source value is not a mapping"@),
        },
        _ => if is_collection(value) {
            Some("scalar source value has a collection shape"@)
        } else {
            projection_failure(value)
        },
    }
}

/// The first failure among the first `k` items of an array field.
pub open spec fn shaped_items_failure(shape: ResolvedAuthoringType, items: Seq<DataValue>, k: int) -> Option<Seq<char>>
    decreases items, k,
{
    if k <= 0 || k > items.len() {
        None
    } else {
        match shaped_items_failure(shape, items, k - 1) {
            Some(m) => Some(m),
            None => shape_failure(shape, items[k - 1]),
        }
    }
}

/// The first failure among the first `k` members of a Flags value.
pub open spec fn flags_failure(items: Seq<DataValue>, k: int) -> Option<Seq<char>>
    decreases k,
{
    if k <= 0 || k > items.len() {
        None
    } else {
        match flags_failure(items, k - 1) {
            Some(m) => Some(m),
            None => if is_collection(items[k - 1]) {
                Some("Flags source member is not a scalar"@)
            } else {
                projection_failure(items[k - 1])
            },
        }
    }
}

/// The first failure among the first `k` members of a Custom Type value.
pub open spec fn members_failure(fields: Seq<ResolvedAuthoringField>, entries: Seq<(DataValue, DataValue)>, k: int)
    -> Option<Seq<char>>
    decreases entries, k,
{
    if k <= 0 || k > entries.len() {
        None
    } else {
        match members_failure(fields, entries, k - 1) {
            Some(m) => Some(m),
            None => match entries[k - 1].0 {
                DataValue::Text(name) => match field_named(fields, name@, fields.len() as int) {
                    Some(j) => typed_failure(fields[j], entries[k - 1].1),
                    None => projection_failure(entries[k - 1].1),
                },
                _ => Some("Custom Type mappings must use string member names"@),
            },
        }
    }
}

/// `out` is the authoring value of `value` for a field of the given shape.
pub open spec fn typed_projects(field: ResolvedAuthoringField, value: DataValue, out: AuthoringValue) -> bool
    decreases value, 1int,
{
    if value is Null {
        out is Null
    } else {
        match field.modifier {
            FieldModifier::Array => match value {
                DataValue::Sequence(items) => out matches AuthoringValue::Sequence { items: projected, source_identity }
                    && source_identity && projected@.len() == items@.len()
                    && shaped_items_project(field.shape, items@, projected@, items@.len() as int),
                _ => false,
            },
            _ => shape_projects(field.shape, value, out),
        }
    }
}

/// `out` is the authoring value of `value` as a value of `shape`.
pub open spec fn shape_projects(shape: ResolvedAuthoringType, value: DataValue, out: AuthoringValue) -> bool
    decreases value, 0int,
{
    match shape {
        ResolvedAuthoringType::Flags { .. } => match value {
            DataValue::Sequence(items) => out matches AuthoringValue::Sequence { items: projected, source_identity }
                && source_identity && projected@.len() == items@.len()
                && items_project(items@, projected@, items@.len() as int),
            _ => false,
        },
        ResolvedAuthoringType::Custom { fields, .. } => match value {
            DataValue::Mapping(entries) => out matches AuthoringValue::Mapping { entries: projected }
                && projected@.len() == entries@.len() && members_project(fields@, entries@, projected@, entries@.len() as int),
            _ => false,
        },
        _ => projects(value, out),
    }
}

/// The first `k` items of an array field are projected, each with its
/// source position.
pub open spec fn shaped_items_project(shape: ResolvedAuthoringType, items: Seq<DataValue>, projected: Seq<AuthoringSequenceItem>, k: int) -> bool
    decreases items, k,
{
    if k <= 0 || k > items.len() {
        true
    } else {
        &&& shaped_items_project(shape, items, projected, k - 1)
        &&& projected[k - 1].source_index == Some((k - 1) as usize)
        &&& shape_projects(shape, items[k - 1], projected[k - 1].value)
    }
}

/// The first `k` members of a Custom Type value are projected under their
/// names, by their field's shape where a field has that name.
pub open spec fn members_project(fields: Seq<ResolvedAuthoringField>, entries: Seq<(DataValue, DataValue)>, projected: Seq<AuthoringMember>, k: int) -> bool
    decreases entries, k,
{
    if k <= 0 || k > entries.len() {
        true
    } else {
        &&& members_project(fields, entries, projected, k - 1)
        &&& entries[k - 1].0 matches DataValue::Text(name) && projected[k - 1].name@ == name@
            && match field_named(fields, name@, fields.len() as int) {
                Some(j) => typed_projects(fields[j], entries[k - 1].1, projected[k - 1].value),
                None => projects(entries[k - 1].1, projected[k - 1].value),
            }
    }
}

fn find_field(fields: &Vec<ResolvedAuthoringField>, name: &str) -> (found: Option<usize>)
    ensures
        match field_named(fields@, name@, fields@.len() as int) {
            Some(j) => found matches Some(f) && f as int == j && 0 <= j < fields@.len(),
            None => found is None,
        },
{
    let mut k: usize = 0;
    while k < fields.len()
        invariant
            k <= fields@.len(),
            field_named(fields@, name@, k as int) is None,
        decreases fields@.len() - k,
    {
        if str_eq(fields[k].name.as_str(), name) {
            proof {
                lemma_field_named_stays(fields@, name@, k + 1);
            }
            return Some(k);
        }
        k = k + 1;
    }
    None
}

proof fn lemma_field_named_stays(fields: Seq<ResolvedAuthoringField>, name: Seq<char>, k: int)
    requires
        0 < k <= fields.len(),
        field_named(fields, name, k) is Some,
    ensures
        field_named(fields, name, fields.len() as int) == field_named(fields, name, k),
        0 <= field_named(fields, name, k)->Some_0 < k,
    decreases fields.len() - k,
{
    lemma_field_named_range(fields, name, k);
    if k < fields.len() {
        lemma_field_named_stays(fields, name, k + 1);
    }
}

proof fn lemma_field_named_range(fields: Seq<ResolvedAuthoringField>, name: Seq<char>, k: int)
    ensures
        field_named(fields, name, k) matches Some(j) ==> 0 <= j < k,
    decreases k,
{
    if k > 0 && k <= fields.len() {
        lemma_field_named_range(fields, name, k - 1);
    }
}

fn collection(value: &DataValue) -> (found: bool)
    ensures
        found == is_collection(*value),
{
    match value {
        DataValue::Sequence(_) | DataValue::Mapping(_) | DataValue::Tagged(_, _) => true,
        _ => false,
    }
}

/// The authoring value of a source value for a field of the given shape,
/// or why it has none: null is null; an array field's value is a sequence
/// whose items have the field's type; otherwise the value has the field's
/// type.
pub fn project_typed_source_value(shape: &ResolvedAuthoringField, value: &DataValue)
    -> (result: Result<AuthoringValue, MasterdataError>)
    ensures
        match result {
            Ok(out) => typed_failure(*shape, *value) is None && typed_projects(*shape, *value, out),
            Err(e) => typed_failure(*shape, *value) matches Some(m) && e@ == unsupported_value(m),
        },
    decreases value, 1int,
{
    if let DataValue::Null = value {
        return Ok(AuthoringValue::Null);
    }
    match shape.modifier {
        FieldModifier::Array => match value {
            DataValue::Sequence(items) => {
                let mut projected: Vec<AuthoringSequenceItem> = Vec::new();
                let mut i: usize = 0;
                while i < items.len()
                    invariant
                        i <= items@.len(),
                        *value == DataValue::Sequence(*items),
                        shape.modifier == FieldModifier::Array,
                        projected@.len() == i,
                        shaped_items_failure(shape.shape, items@, i as int) is None,
                        shaped_items_project(shape.shape, items@, projected@, i as int),
                    decreases items@.len() - i,
                {
                    proof {
                        assert(decreases_to!(*value => value->Sequence_0));
                        assert(decreases_to!(value->Sequence_0 => items@));
                        assert(decreases_to!(items@ => items@[i as int]));
                    }
                    match project_typed_source_type(&shape.shape, &items[i]) {
                        Err(e) => {
                            proof {
                                assert(shaped_items_failure(shape.shape, items@, i + 1)
                                    == shape_failure(shape.shape, items@[i as int]));
                                lemma_shaped_items_failure_stays(shape.shape, items@, i + 1);
                            }
                            return Err(e);
                        },
                        Ok(out) => {
                            let ghost before = projected@;
                            projected.push(AuthoringSequenceItem { source_index: Some(i), value: out });
                            proof {
                                lemma_shaped_items_project_prefix(shape.shape, items@, before, projected@, i as int);
                            }
                        },
                    }
                    i = i + 1;
                }
                Ok(AuthoringValue::Sequence { items: projected, source_identity: true })
            },
            _ => Err(unsupported("Array source value is not a sequence")),
        },
        _ => project_typed_source_type(&shape.shape, value),
    }
}

fn project_typed_source_type(shape: &ResolvedAuthoringType, value: &DataValue)
    -> (result: Result<AuthoringValue, MasterdataError>)
    ensures
        match result {
            Ok(out) => shape_failure(*shape, *value) is None && shape_projects(*shape, *value, out),
            Err(e) => shape_failure(*shape, *value) matches Some(m) && e@ == unsupported_value(m),
        },
    decreases value, 0int,
{
    match shape {
        ResolvedAuthoringType::Flags { .. } => match value {
            DataValue::Sequence(items) => {
                let mut projected: Vec<AuthoringSequenceItem> = Vec::new();
                let mut i: usize = 0;
                while i < items.len()
                    invariant
                        i <= items@.len(),
                        *value == DataValue::Sequence(*items),
                        *shape is Flags,
                        projected@.len() == i,
                        flags_failure(items@, i as int) is None,
                        items_project(items@, projected@, i as int),
                    decreases items@.len() - i,
                {
                    if collection(&items[i]) {
                        proof {
                            lemma_flags_failure_stays(items@, i + 1);
                        }
                        return Err(unsupported("Flags source member is not a scalar"));
                    }
                    match project_source_value(&items[i]) {
                        Err(e) => {
                            proof {
                                lemma_flags_failure_stays(items@, i + 1);
                            }
                            return Err(e);
                        },
                        Ok(out) => {
                            let ghost before = projected@;
                            projected.push(AuthoringSequenceItem { source_index: Some(i), value: out });
                            proof {
                                lemma_items_project_extend(items@, before, projected@, i as int);
                            }
                        },
                    }
                    i = i + 1;
                }
                Ok(AuthoringValue::Sequence { items: projected, source_identity: true })
            },
            _ => Err(unsupported("Flags source value is not a sequence")),
        },
        ResolvedAuthoringType::Custom { fields, .. } => match value {
            DataValue::Mapping(entries) => {
                let mut projected: Vec<AuthoringMember> = Vec::new();
                let mut i: usize = 0;
                while i < entries.len()
                    invariant
                        i <= entries@.len(),
                        *value == DataValue::Mapping(*entries),
                        *shape matches ResolvedAuthoringType::Custom { fields: declared, .. } && declared == *fields,
                        projected@.len() == i,
                        members_failure(fields@, entries@, i as int) is None,
                        members_project(fields@, entries@, projected@, i as int),
                    decreases entries@.len() - i,
                {
                    proof {
                        assert(decreases_to!(*value => value->Mapping_0));
                        assert(decreases_to!(value->Mapping_0 => entries@));
                        assert(decreases_to!(entries@ => entries@[i as int]));
                        assert(decreases_to!(entries@[i as int] => entries@[i as int].1));
                    }
                    let name = match &entries[i].0 {
                        DataValue::Text(name) => name.clone(),
                        _ => {
                            proof {
                                lemma_members_failure_stays(fields@, entries@, i + 1);
                            }
                            return Err(unsupported("Custom Type mappings must use string member names"));
                        },
                    };
                    proof {
                        assert(entries@[i as int].0 == DataValue::Text(name));
                    }
                    let found = find_field(fields, name.as_str());
                    let ghost named = field_named(fields@, name@, fields@.len() as int);
                    let ghost entry = entries@[i as int].1;
                    let member = match found {
                        Some(j) => {
                            let projected_member = project_typed_source_value(&fields[j], &entries[i].1);
                            proof {
                                assert(named == Some(j as int));
                            }
                            projected_member
                        },
                        None => {
                            proof {
                                assert(named is None);
                            }
                            project_source_value(&entries[i].1)
                        },
                    };
                    proof {
                        assert(members_failure(fields@, entries@, i + 1) == match named {
                            Some(j) => typed_failure(fields@[j], entry),
                            None => projection_failure(entry),
                        });
                    }
                    match member {
                        Err(e) => {
                            proof {
                                lemma_members_failure_stays(fields@, entries@, i + 1);
                            }
                            return Err(e);
                        },
                        Ok(out) => {
                            let ghost before = projected@;
                            projected.push(AuthoringMember { name, value: out });
                            proof {
                                lemma_members_project_prefix(fields@, entries@, before, projected@, i as int);
                            }
                        },
                    }
                    i = i + 1;
                }
                Ok(AuthoringValue::Mapping { entries: projected })
            },
            _ => Err(unsupported("Custom Type source value is not a mapping")),
        },
        _ => {
            if collection(value) {
                return Err(unsupported("scalar source value has a collection shape"));
            }
            project_source_value(value)
        },
    }
}

proof fn lemma_shaped_items_failure_stays(shape: ResolvedAuthoringType, items: Seq<DataValue>, k: int)
    requires
        0 < k <= items.len(),
        shaped_items_failure(shape, items, k) is Some,
    ensures
        shaped_items_failure(shape, items, items.len() as int) == shaped_items_failure(shape, items, k),
    decreases items.len() - k,
{
    if k < items.len() {
        lemma_shaped_items_failure_stays(shape, items, k + 1);
    }
}

proof fn lemma_flags_failure_stays(items: Seq<DataValue>, k: int)
    requires
        0 < k <= items.len(),
        flags_failure(items, k) is Some,
    ensures
        flags_failure(items, items.len() as int) == flags_failure(items, k),
    decreases items.len() - k,
{
    if k < items.len() {
        lemma_flags_failure_stays(items, k + 1);
    }
}

proof fn lemma_members_failure_stays(fields: Seq<ResolvedAuthoringField>, entries: Seq<(DataValue, DataValue)>, k: int)
    requires
        0 < k <= entries.len(),
        members_failure(fields, entries, k) is Some,
    ensures
        members_failure(fields, entries, entries.len() as int) == members_failure(fields, entries, k),
    decreases entries.len() - k,
{
    if k < entries.len() {
        lemma_members_failure_stays(fields, entries, k + 1);
    }
}

/// Extends a projected prefix of an array field by its next item.
proof fn lemma_shaped_items_project_prefix(
    shape: ResolvedAuthoringType,
    items: Seq<DataValue>,
    before: Seq<AuthoringSequenceItem>,
    after: Seq<AuthoringSequenceItem>,
    i: int,
)
    requires
        0 <= i < items.len(),
        before.len() == i,
        after.len() == i + 1,
        forall|j: int| 0 <= j < i ==> after[j] == before[j],
        shaped_items_project(shape, items, before, i),
        after[i].source_index == Some(i as usize),
        shape_projects(shape, items[i], after[i].value),
    ensures
        shaped_items_project(shape, items, after, i + 1),
{
    lemma_shaped_items_same_prefix(shape, items, before, after, i);
}

proof fn lemma_shaped_items_same_prefix(
    shape: ResolvedAuthoringType,
    items: Seq<DataValue>,
    a: Seq<AuthoringSequenceItem>,
    b: Seq<AuthoringSequenceItem>,
    k: int,
)
    requires
        k <= a.len(),
        k <= b.len(),
        forall|j: int| 0 <= j < k ==> a[j] == b[j],
        shaped_items_project(shape, items, a, k),
    ensures
        shaped_items_project(shape, items, b, k),
    decreases k,
{
    if k > 0 && k <= items.len() {
        lemma_shaped_items_same_prefix(shape, items, a, b, k - 1);
    }
}

/// Extends a projected prefix of a Custom Type value by its next member.
proof fn lemma_members_project_prefix(
    fields: Seq<ResolvedAuthoringField>,
    entries: Seq<(DataValue, DataValue)>,
    before: Seq<AuthoringMember>,
    after: Seq<AuthoringMember>,
    i: int,
)
    requires
        0 <= i < entries.len(),
        before.len() == i,
        after.len() == i + 1,
        forall|j: int| 0 <= j < i ==> after[j] == before[j],
        members_project(fields, entries, before, i),
        entries[i].0 matches DataValue::Text(name) && after[i].name@ == name@
            && match field_named(fields, name@, fields.len() as int) {
                Some(j) => typed_projects(fields[j], entries[i].1, after[i].value),
                None => projects(entries[i].1, after[i].value),
            },
    ensures
        members_project(fields, entries, after, i + 1),
{
    lemma_members_same_prefix(fields, entries, before, after, i);
}

proof fn lemma_members_same_prefix(
    fields: Seq<ResolvedAuthoringField>,
    entries: Seq<(DataValue, DataValue)>,
    a: Seq<AuthoringMember>,
    b: Seq<AuthoringMember>,
    k: int,
)
    requires
        k <= a.len(),
        k <= b.len(),
        forall|j: int| 0 <= j < k ==> a[j] == b[j],
        members_project(fields, entries, a, k),
    ensures
        members_project(fields, entries, b, k),
    decreases k,
{
    if k > 0 && k <= entries.len() {
        lemma_members_same_prefix(fields, entries, a, b, k - 1);
    }
}

} // verus!
