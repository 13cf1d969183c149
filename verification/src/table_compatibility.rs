//! Released-compatibility comparison of the Table side of two snapshots:
//! tables by name, and within a table its C# presentation, fields, field
//! order, primary key, secondary keys (by ordered field shape) and
//! references (by name).  Generated query and helper names are held by the
//! resolved model, which computes them once per table.

use vstd::prelude::*;
use crate::compatibility::{
    ArtifactBinaryImpact, ChangeView, CompatibilityChange, CompatibilityChangeKind, CompatibilitySubjectKind,
    ExternalContractImpact, GeneratedApiImpact, SourceMigrationImpact, change_views, requirement_list,
};
use crate::shape_order::{ascending_shapes, same_shape, shape_view, shape_views, union_shapes};
use crate::config_edit::joined;
use crate::text::str_eq;
use crate::text_order::{ascending_union, texts, union_ascending};
use crate::type_compatibility::{
    change_at, field_names, fields_reordered, lemma_flatten_of_empties, find_last_field, last_field, lemma_flatten_push, lemma_texts_deep_view,
    names_of_fields, opt_field, push_at, same_name_set, same_names, ResolvedField,
};

verus! {

/// A secondary key: its ordered fields, whether it returns many rows, and
/// the generated query name of its fields.
#[derive(Debug, PartialEq, Eq)]
pub struct ResolvedSecondaryKey {
    pub fields: Vec<String>,
    pub non_unique: bool,
    pub query_name: String,
}

/// A reference of a table, with its generated C# helper name and its
/// target key kind, optionality and cardinality by name.
#[derive(Debug, PartialEq, Eq)]
pub struct ResolvedReference {
    pub name: String,
    pub helper_name: String,
    pub source_fields: Vec<String>,
    pub target_table: String,
    pub target_fields: Vec<String>,
    pub target_key_kind: String,
    pub optionality: String,
    pub cardinality: String,
}

/// A resolved table as the comparison reads it.
#[derive(Debug, PartialEq, Eq)]
pub struct ResolvedTable {
    pub identity: String,
    pub csharp_name: String,
    pub fields: Vec<ResolvedField>,
    pub primary_key: Vec<String>,
    pub primary_key_query_name: String,
    pub secondary_keys: Vec<ResolvedSecondaryKey>,
    pub references: Vec<ResolvedReference>,
}

// ---------------------------------------------------------------------------
// Fields

/// The changes of field `name` of table `owner`.
pub open spec fn table_field_diff(owner: Seq<char>, name: Seq<char>, baseline: Option<ResolvedField>, current: Option<ResolvedField>) -> Seq<ChangeView> {
    match (baseline, current) {
        (None, Some(_)) => seq![change_at(
            CompatibilitySubjectKind::Field, owner, Some(name), CompatibilityChangeKind::FieldAdded,
            "field"@, false, true, GeneratedApiImpact::Additive, SourceMigrationImpact::SupportedOperation,
            Some("AddField"@), ArtifactBinaryImpact::CrossSchemaInteroperabilityNotGuaranteed,
            ExternalContractImpact::NotAssessed, "Table field was added."@,
            seq!["COMPAT-RELEASED-004"@, "COMPAT-RELEASED-007"@, "COMPAT-RELEASED-008"@],
        )],
        (Some(_), None) => seq![change_at(
            CompatibilitySubjectKind::Field, owner, Some(name), CompatibilityChangeKind::FieldRemoved,
            "field"@, true, false, GeneratedApiImpact::Breaking, SourceMigrationImpact::DestructiveAuthorizationRequired,
            Some("DropField"@), ArtifactBinaryImpact::CrossSchemaInteroperabilityNotGuaranteed,
            ExternalContractImpact::ExternalPolicyRequired, "Table field was removed; no rename lineage is inferred."@,
            seq!["COMPAT-RELEASED-004"@, "COMPAT-RELEASED-007"@, "COMPAT-RELEASED-008"@],
        )],
        (Some(left), Some(right)) => (if left.base_type@ != right.base_type@ {
            seq![change_at(
                CompatibilitySubjectKind::Field, owner, Some(name), CompatibilityChangeKind::FieldTypeChanged,
                "field"@, true, true, GeneratedApiImpact::Breaking, SourceMigrationImpact::ManualActionRequired, None,
                ArtifactBinaryImpact::CrossSchemaInteroperabilityNotGuaranteed,
                ExternalContractImpact::ExternalPolicyRequired, "Table field base type changed."@,
                seq!["COMPAT-RELEASED-007"@, "COMPAT-RELEASED-008"@, "COMPAT-RELEASED-009"@],
            )]
        } else {
            Seq::empty()
        }) + (if left.modifier != right.modifier {
            seq![change_at(
                CompatibilitySubjectKind::Field, owner, Some(name), CompatibilityChangeKind::FieldModifierChanged,
                "field"@, true, true, GeneratedApiImpact::Breaking, SourceMigrationImpact::ManualActionRequired, None,
                ArtifactBinaryImpact::CrossSchemaInteroperabilityNotGuaranteed,
                ExternalContractImpact::ExternalPolicyRequired, "Table field modifier or nullability changed."@,
                seq!["COMPAT-RELEASED-007"@, "COMPAT-RELEASED-008"@, "COMPAT-RELEASED-009"@],
            )]
        } else {
            Seq::empty()
        }) + (if left.key != right.key {
            seq![change_at(
                CompatibilitySubjectKind::Field, owner, Some(name), CompatibilityChangeKind::FieldMessagePackKeyChanged,
                "field"@, true, true, GeneratedApiImpact::Unchanged, SourceMigrationImpact::NotRequired, None,
                ArtifactBinaryImpact::CrossSchemaInteroperabilityNotGuaranteed,
                ExternalContractImpact::ExternalPolicyRequired,
                "MessagePack field key changed; it is not logical field identity."@,
                seq!["COMPAT-RELEASED-004"@, "COMPAT-RELEASED-005"@, "COMPAT-RELEASED-009"@],
            )]
        } else {
            Seq::empty()
        }),
        (None, None) => Seq::empty(),
    }
}

pub open spec fn table_field_diff_by_name(owner: Seq<char>, baseline: Seq<ResolvedField>, current: Seq<ResolvedField>) -> spec_fn(Seq<char>) -> Seq<ChangeView> {
    |name: Seq<char>| table_field_diff(owner, name, last_field(baseline, name), last_field(current, name))
}

/// The field changes of table `owner`, by field name in ascending order,
/// then a changed declaration order of the same fields.
pub open spec fn table_field_changes(owner: Seq<char>, baseline: Seq<ResolvedField>, current: Seq<ResolvedField>) -> Seq<ChangeView> {
    ascending_union(field_names(baseline), field_names(current)).map_values(
        table_field_diff_by_name(owner, baseline, current),
    ).flatten() + if fields_reordered(baseline, current) {
        seq![change_at(
            CompatibilitySubjectKind::Table, owner, None, CompatibilityChangeKind::FieldDeclarationReordered,
            "table"@, true, true, GeneratedApiImpact::Unchanged, SourceMigrationImpact::NotRequired, None,
            ArtifactBinaryImpact::RebuildRequired, ExternalContractImpact::NotAssessed,
            "Table field declaration order changed without changing field symbols."@,
            seq!["COMPAT-RELEASED-004"@, "COMPAT-RELEASED-009"@],
        )]
    } else {
        Seq::empty()
    }
}

fn push_table_field_diff(
    changes: &mut Vec<CompatibilityChange>,
    owner: &str,
    name: &str,
    baseline: &Vec<ResolvedField>,
    left: Option<usize>,
    current: &Vec<ResolvedField>,
    right: Option<usize>,
)
    requires
        match left { Some(i) => i < baseline@.len(), None => true },
        match right { Some(i) => i < current@.len(), None => true },
    ensures
        change_views(final(changes)@) == change_views(old(changes)@)
            + table_field_diff(owner@, name@, opt_field(baseline@, left), opt_field(current@, right)),
{
    let ghost start = change_views(changes@);
    match (left, right) {
        (None, Some(_)) => {
            push_at(
                changes, CompatibilitySubjectKind::Field, owner, Some(name), CompatibilityChangeKind::FieldAdded,
                "field", false, true, GeneratedApiImpact::Additive, SourceMigrationImpact::SupportedOperation,
                Some("AddField"), ArtifactBinaryImpact::CrossSchemaInteroperabilityNotGuaranteed,
                ExternalContractImpact::NotAssessed, "Table field was added.",
                requirement_list("COMPAT-RELEASED-004", "COMPAT-RELEASED-007", Some("COMPAT-RELEASED-008")),
            );
        },
        (Some(_), None) => {
            push_at(
                changes, CompatibilitySubjectKind::Field, owner, Some(name), CompatibilityChangeKind::FieldRemoved,
                "field", true, false, GeneratedApiImpact::Breaking, SourceMigrationImpact::DestructiveAuthorizationRequired,
                Some("DropField"), ArtifactBinaryImpact::CrossSchemaInteroperabilityNotGuaranteed,
                ExternalContractImpact::ExternalPolicyRequired, "Table field was removed; no rename lineage is inferred.",
                requirement_list("COMPAT-RELEASED-004", "COMPAT-RELEASED-007", Some("COMPAT-RELEASED-008")),
            );
        },
        (Some(l), Some(r)) => {
            let a = &baseline[l];
            let b = &current[r];
            if !str_eq(a.base_type.as_str(), b.base_type.as_str()) {
                push_at(
                    changes, CompatibilitySubjectKind::Field, owner, Some(name), CompatibilityChangeKind::FieldTypeChanged,
                    "field", true, true, GeneratedApiImpact::Breaking, SourceMigrationImpact::ManualActionRequired, None,
                    ArtifactBinaryImpact::CrossSchemaInteroperabilityNotGuaranteed,
                    ExternalContractImpact::ExternalPolicyRequired, "Table field base type changed.",
                    requirement_list("COMPAT-RELEASED-007", "COMPAT-RELEASED-008", Some("COMPAT-RELEASED-009")),
                );
            }
            if a.modifier != b.modifier {
                push_at(
                    changes, CompatibilitySubjectKind::Field, owner, Some(name), CompatibilityChangeKind::FieldModifierChanged,
                    "field", true, true, GeneratedApiImpact::Breaking, SourceMigrationImpact::ManualActionRequired, None,
                    ArtifactBinaryImpact::CrossSchemaInteroperabilityNotGuaranteed,
                    ExternalContractImpact::ExternalPolicyRequired, "Table field modifier or nullability changed.",
                    requirement_list("COMPAT-RELEASED-007", "COMPAT-RELEASED-008", Some("COMPAT-RELEASED-009")),
                );
            }
            if a.key != b.key {
                push_at(
                    changes, CompatibilitySubjectKind::Field, owner, Some(name), CompatibilityChangeKind::FieldMessagePackKeyChanged,
                    "field", true, true, GeneratedApiImpact::Unchanged, SourceMigrationImpact::NotRequired, None,
                    ArtifactBinaryImpact::CrossSchemaInteroperabilityNotGuaranteed,
                    ExternalContractImpact::ExternalPolicyRequired,
                    "MessagePack field key changed; it is not logical field identity.",
                    requirement_list("COMPAT-RELEASED-004", "COMPAT-RELEASED-005", Some("COMPAT-RELEASED-009")),
                );
            }
            proof {
                assert(change_views(changes@) =~= start + table_field_diff(owner@, name@, opt_field(baseline@, left), opt_field(current@, right)));
            }
        },
        (None, None) => {
            proof {
                assert(change_views(changes@) =~= start + Seq::<ChangeView>::empty());
            }
        },
    }
}

/// Compares the fields of two versions of table `owner`.
pub fn compare_table_fields(
    owner: &str,
    baseline: &Vec<ResolvedField>,
    current: &Vec<ResolvedField>,
    changes: &mut Vec<CompatibilityChange>,
)
    ensures
        change_views(final(changes)@) == change_views(old(changes)@) + table_field_changes(owner@, baseline@, current@),
{
    let left_names = names_of_fields(baseline);
    let right_names = names_of_fields(current);
    let names = union_ascending(&left_names, &right_names);
    let ghost f = table_field_diff_by_name(owner@, baseline@, current@);
    let ghost all = texts(names@);
    let ghost start = change_views(changes@);
    let mut i: usize = 0;
    while i < names.len()
        invariant
            i <= names@.len(),
            all == texts(names@),
            f == table_field_diff_by_name(owner@, baseline@, current@),
            change_views(changes@) == start + all.take(i as int).map_values(f).flatten(),
        decreases names@.len() - i,
    {
        let name = names[i].as_str();
        let left = find_last_field(baseline, name);
        let right = find_last_field(current, name);
        push_table_field_diff(changes, owner, name, baseline, left, current, right);
        proof {
            lemma_texts_deep_view(names);
            assert(name@ == all[i as int]);
            assert(last_field(baseline@, name@) == opt_field(baseline@, left));
            assert(last_field(current@, name@) == opt_field(current@, right));
            assert(all.take(i + 1).map_values(f) =~= all.take(i as int).map_values(f).push(f(all[i as int])));
            lemma_flatten_push(all.take(i as int).map_values(f), f(all[i as int]));
        }
        i = i + 1;
    }
    proof {
        assert(all.take(all.len() as int) =~= all);
    }
    if !same_names(&left_names, &right_names) && baseline.len() == current.len() && same_name_set(&left_names, &right_names) {
        push_at(
            changes, CompatibilitySubjectKind::Table, owner, None, CompatibilityChangeKind::FieldDeclarationReordered,
            "table", true, true, GeneratedApiImpact::Unchanged, SourceMigrationImpact::NotRequired, None,
            ArtifactBinaryImpact::RebuildRequired, ExternalContractImpact::NotAssessed,
            "Table field declaration order changed without changing field symbols.",
            requirement_list("COMPAT-RELEASED-004", "COMPAT-RELEASED-009", None),
        );
        proof {
            assert(change_views(changes@) =~= start + table_field_changes(owner@, baseline@, current@));
        }
    } else {
        proof {
            assert(change_views(changes@) =~= start + table_field_changes(owner@, baseline@, current@));
        }
    }
}

// ---------------------------------------------------------------------------
// Secondary keys

pub open spec fn key_shapes(keys: Seq<ResolvedSecondaryKey>) -> Seq<Seq<Seq<char>>> {
    keys.map_values(|k: ResolvedSecondaryKey| k.fields.deep_view())
}

/// The last secondary key of a shape (a map keyed by shape keeps the last).
pub open spec fn last_key(keys: Seq<ResolvedSecondaryKey>, shape: Seq<Seq<char>>) -> Option<ResolvedSecondaryKey>
    decreases keys.len(),
{
    if keys.len() == 0 {
        None
    } else if keys.last().fields.deep_view() == shape {
        Some(keys.last())
    } else {
        last_key(keys.drop_last(), shape)
    }
}

/// The field names of a shape separated by `,`, in brackets.
pub open spec fn shape_label(shape: Seq<Seq<char>>) -> Seq<char> {
    "["@ + joined(shape, seq![',']) + "]"@
}

/// The changes of the secondary key of shape `shape` of table `owner`.
pub open spec fn key_diff(owner: Seq<char>, shape: Seq<Seq<char>>, baseline: Option<ResolvedSecondaryKey>, current: Option<ResolvedSecondaryKey>) -> Seq<ChangeView> {
    let member = Some(shape_label(shape));
    match (baseline, current) {
        (None, Some(key)) => seq![change_at(
            CompatibilitySubjectKind::SecondaryKey, owner, member, CompatibilityChangeKind::SecondaryKeyAdded,
            "secondary-key"@, false, true, GeneratedApiImpact::Additive, SourceMigrationImpact::ManualActionRequired, None,
            ArtifactBinaryImpact::CrossSchemaInteroperabilityNotGuaranteed, ExternalContractImpact::NotAssessed,
            "Secondary Key ordered field sequence was added ("@ + key.query_name@ + ")."@,
            seq!["COMPAT-RELEASED-005"@, "COMPAT-RELEASED-007"@, "COMPAT-RELEASED-008"@],
        )],
        (Some(key), None) => seq![change_at(
            CompatibilitySubjectKind::SecondaryKey, owner, member, CompatibilityChangeKind::SecondaryKeyRemoved,
            "secondary-key"@, true, false, GeneratedApiImpact::Breaking, SourceMigrationImpact::ManualActionRequired, None,
            ArtifactBinaryImpact::CrossSchemaInteroperabilityNotGuaranteed, ExternalContractImpact::ExternalPolicyRequired,
            "Secondary Key ordered field sequence was removed ("@ + key.query_name@ + ")."@,
            seq!["COMPAT-RELEASED-005"@, "COMPAT-RELEASED-007"@, "COMPAT-RELEASED-008"@],
        )],
        (Some(left), Some(right)) => if left.non_unique != right.non_unique {
            seq![change_at(
                CompatibilitySubjectKind::SecondaryKey, owner, member, CompatibilityChangeKind::SecondaryKeyUniquenessChanged,
                "secondary-key"@, true, true, GeneratedApiImpact::Breaking, SourceMigrationImpact::ManualActionRequired, None,
                ArtifactBinaryImpact::CrossSchemaInteroperabilityNotGuaranteed, ExternalContractImpact::ExternalPolicyRequired,
                "Secondary Key unique/non-unique return contract changed."@,
                seq!["COMPAT-RELEASED-005"@, "COMPAT-RELEASED-007"@, "COMPAT-RELEASED-009"@],
            )]
        } else {
            Seq::empty()
        },
        (None, None) => Seq::empty(),
    }
}

pub open spec fn key_diff_by_shape(owner: Seq<char>, baseline: Seq<ResolvedSecondaryKey>, current: Seq<ResolvedSecondaryKey>) -> spec_fn(Seq<Seq<char>>) -> Seq<ChangeView> {
    |shape: Seq<Seq<char>>| key_diff(owner, shape, last_key(baseline, shape), last_key(current, shape))
}

/// The secondary-key changes of table `owner`, by shape in ascending order,
/// then a changed declaration order of the same shapes.
pub open spec fn secondary_key_changes(owner: Seq<char>, baseline: Seq<ResolvedSecondaryKey>, current: Seq<ResolvedSecondaryKey>) -> Seq<ChangeView> {
    ascending_shapes(key_shapes(baseline), key_shapes(current)).map_values(
        key_diff_by_shape(owner, baseline, current),
    ).flatten() + if key_shapes(baseline) != key_shapes(current) && key_shapes(baseline).to_set() == key_shapes(current).to_set() {
        seq![change_at(
            CompatibilitySubjectKind::SecondaryKey, owner, None, CompatibilityChangeKind::SecondaryKeyDeclarationReordered,
            "secondary-keys"@, true, true, GeneratedApiImpact::Unchanged, SourceMigrationImpact::NotRequired, None,
            ArtifactBinaryImpact::RebuildRequired, ExternalContractImpact::NotAssessed,
            "Secondary Key declaration order changed; backend indexNo is not logical identity."@,
            seq!["COMPAT-RELEASED-004"@, "COMPAT-RELEASED-005"@, "COMPAT-RELEASED-009"@],
        )]
    } else {
        Seq::empty()
    }
}

fn copy_names(names: &Vec<String>) -> (copy: Vec<String>)
    ensures
        copy.deep_view() == names.deep_view(),
{
    let mut copy: Vec<String> = Vec::new();
    let mut i: usize = 0;
    while i < names.len()
        invariant
            i <= names@.len(),
            copy.deep_view() == names.deep_view().take(i as int),
        decreases names@.len() - i,
    {
        let ghost before = copy.deep_view();
        copy.push(names[i].clone());
        proof {
            assert(copy.deep_view() =~= before.push(names@[i as int]@));
            assert(names.deep_view().take(i + 1) =~= names.deep_view().take(i as int).push(names@[i as int]@));
        }
        i = i + 1;
    }
    proof {
        assert(names.deep_view().take(names@.len() as int) =~= names.deep_view());
    }
    copy
}

fn shapes_of_keys(keys: &Vec<ResolvedSecondaryKey>) -> (shapes: Vec<Vec<String>>)
    ensures
        shape_views(shapes@) == key_shapes(keys@),
{
    let mut shapes: Vec<Vec<String>> = Vec::new();
    let mut i: usize = 0;
    while i < keys.len()
        invariant
            i <= keys@.len(),
            shape_views(shapes@) == key_shapes(keys@).take(i as int),
        decreases keys@.len() - i,
    {
        let ghost before = shape_views(shapes@);
        let shape = copy_names(&keys[i].fields);
        shapes.push(shape);
        proof {
            assert(shape_views(shapes@) =~= before.push(keys@[i as int].fields.deep_view()));
            assert(key_shapes(keys@).take(i + 1) =~= key_shapes(keys@).take(i as int).push(keys@[i as int].fields.deep_view()));
        }
        i = i + 1;
    }
    proof {
        assert(key_shapes(keys@).take(keys@.len() as int) =~= key_shapes(keys@));
    }
    shapes
}

fn find_last_key(keys: &Vec<ResolvedSecondaryKey>, shape: &Vec<String>) -> (found: Option<usize>)
    ensures
        match found {
            Some(i) => i < keys@.len() && last_key(keys@, shape_view(*shape)) == Some(keys@[i as int]),
            None => last_key(keys@, shape_view(*shape)) is None,
        },
{
    let mut n: usize = keys.len();
    proof {
        assert(keys@.take(n as int) =~= keys@);
    }
    while n > 0
        invariant
            n <= keys@.len(),
            last_key(keys@, shape_view(*shape)) == last_key(keys@.take(n as int), shape_view(*shape)),
        decreases n,
    {
        proof {
            assert(keys@.take(n as int).drop_last() =~= keys@.take(n - 1));
        }
        if same_shape(&keys[n - 1].fields, shape) {
            return Some(n - 1);
        }
        n = n - 1;
    }
    None
}

fn shape_label_of(shape: &Vec<String>) -> (label: String)
    ensures
        label@ == shape_label(shape_view(*shape)),
{
    let ghost items = shape_view(*shape);
    let mut label = String::from_str("[");
    let ghost lead = label@;
    let mut i: usize = 0;
    while i < shape.len()
        invariant
            i <= shape@.len(),
            items == shape_view(*shape),
            items.len() == shape@.len(),
            lead == "["@,
            label@ == lead + joined(items.take(i as int), seq![',']),
        decreases shape@.len() - i,
    {
        let ghost before = label@;
        if i > 0 {
            label.append(",");
            proof {
                reveal_strlit(",");
            }
        }
        label.append(shape[i].as_str());
        proof {
            assert(items[i as int] == shape@[i as int]@);
            let next = items.take(i + 1);
            assert(next.drop_last() =~= items.take(i as int));
            assert(next.last() == items[i as int]);
            if i == 0 {
                assert(next[0] == items[0]);
                assert(label@ =~= lead + joined(next, seq![',']));
            } else {
                assert(label@ =~= lead + joined(next, seq![',']));
            }
        }
        i = i + 1;
    }
    label.append("]");
    proof {
        assert(items.take(i as int) =~= items);
    }
    label
}

fn bracketed(prefix: &str, middle: &str, suffix: &str) -> (text: String)
    ensures
        text@ == prefix@ + middle@ + suffix@,
{
    let mut text = String::from_str(prefix);
    text.append(middle);
    text.append(suffix);
    text
}

/// Compares the secondary keys of two versions of table `owner`.
pub fn compare_secondary_keys(
    owner: &str,
    baseline: &Vec<ResolvedSecondaryKey>,
    current: &Vec<ResolvedSecondaryKey>,
    changes: &mut Vec<CompatibilityChange>,
)
    ensures
        change_views(final(changes)@) == change_views(old(changes)@) + secondary_key_changes(owner@, baseline@, current@),
{
    let left_shapes = shapes_of_keys(baseline);
    let right_shapes = shapes_of_keys(current);
    let shapes = union_shapes(&left_shapes, &right_shapes);
    let ghost f = key_diff_by_shape(owner@, baseline@, current@);
    let ghost all = shape_views(shapes@);
    let ghost start = change_views(changes@);
    let mut i: usize = 0;
    while i < shapes.len()
        invariant
            i <= shapes@.len(),
            all == shape_views(shapes@),
            f == key_diff_by_shape(owner@, baseline@, current@),
            change_views(changes@) == start + all.take(i as int).map_values(f).flatten(),
        decreases shapes@.len() - i,
    {
        let shape = &shapes[i];
        let left = find_last_key(baseline, shape);
        let right = find_last_key(current, shape);
        let member = shape_label_of(shape);
        let ghost before = change_views(changes@);
        match (left, right) {
            (None, Some(r)) => {
                let reason = bracketed("Secondary Key ordered field sequence was added (", current[r].query_name.as_str(), ").");
                push_at(
                    changes, CompatibilitySubjectKind::SecondaryKey, owner, Some(member.as_str()),
                    CompatibilityChangeKind::SecondaryKeyAdded, "secondary-key", false, true,
                    GeneratedApiImpact::Additive, SourceMigrationImpact::ManualActionRequired, None,
                    ArtifactBinaryImpact::CrossSchemaInteroperabilityNotGuaranteed, ExternalContractImpact::NotAssessed,
                    reason.as_str(),
                    requirement_list("COMPAT-RELEASED-005", "COMPAT-RELEASED-007", Some("COMPAT-RELEASED-008")),
                );
            },
            (Some(l), None) => {
                let reason = bracketed("Secondary Key ordered field sequence was removed (", baseline[l].query_name.as_str(), ").");
                push_at(
                    changes, CompatibilitySubjectKind::SecondaryKey, owner, Some(member.as_str()),
                    CompatibilityChangeKind::SecondaryKeyRemoved, "secondary-key", true, false,
                    GeneratedApiImpact::Breaking, SourceMigrationImpact::ManualActionRequired, None,
                    ArtifactBinaryImpact::CrossSchemaInteroperabilityNotGuaranteed, ExternalContractImpact::ExternalPolicyRequired,
                    reason.as_str(),
                    requirement_list("COMPAT-RELEASED-005", "COMPAT-RELEASED-007", Some("COMPAT-RELEASED-008")),
                );
            },
            (Some(l), Some(r)) => {
                if baseline[l].non_unique != current[r].non_unique {
                    push_at(
                        changes, CompatibilitySubjectKind::SecondaryKey, owner, Some(member.as_str()),
                        CompatibilityChangeKind::SecondaryKeyUniquenessChanged, "secondary-key", true, true,
                        GeneratedApiImpact::Breaking, SourceMigrationImpact::ManualActionRequired, None,
                        ArtifactBinaryImpact::CrossSchemaInteroperabilityNotGuaranteed,
                        ExternalContractImpact::ExternalPolicyRequired,
                        "Secondary Key unique/non-unique return contract changed.",
                        requirement_list("COMPAT-RELEASED-005", "COMPAT-RELEASED-007", Some("COMPAT-RELEASED-009")),
                    );
                }
            },
            (None, None) => {},
        }
        proof {
            assert(shape_view(*shape) == all[i as int]);
            assert(change_views(changes@) =~= before + f(all[i as int]));
            assert(all.take(i + 1).map_values(f) =~= all.take(i as int).map_values(f).push(f(all[i as int])));
            lemma_flatten_push(all.take(i as int).map_values(f), f(all[i as int]));
        }
        i = i + 1;
    }
    proof {
        assert(all.take(all.len() as int) =~= all);
    }
    let ghost mid = change_views(changes@);
    let same_order = same_shape_lists(&left_shapes, &right_shapes);
    if !same_order && same_shape_sets(&left_shapes, &right_shapes) {
        push_at(
            changes, CompatibilitySubjectKind::SecondaryKey, owner, None,
            CompatibilityChangeKind::SecondaryKeyDeclarationReordered, "secondary-keys", true, true,
            GeneratedApiImpact::Unchanged, SourceMigrationImpact::NotRequired, None,
            ArtifactBinaryImpact::RebuildRequired, ExternalContractImpact::NotAssessed,
            "Secondary Key declaration order changed; backend indexNo is not logical identity.",
            requirement_list("COMPAT-RELEASED-004", "COMPAT-RELEASED-005", Some("COMPAT-RELEASED-009")),
        );
    }
    proof {
        assert(change_views(changes@) =~= start + secondary_key_changes(owner@, baseline@, current@));
    }
}

fn same_shape_lists(a: &Vec<Vec<String>>, b: &Vec<Vec<String>>) -> (same: bool)
    ensures
        same == (shape_views(a@) == shape_views(b@)),
{
    if a.len() != b.len() {
        proof {
            assert(shape_views(a@).len() != shape_views(b@).len());
        }
        return false;
    }
    let mut i: usize = 0;
    while i < a.len()
        invariant
            a@.len() == b@.len(),
            i <= a@.len(),
            forall|j: int| 0 <= j < i ==> shape_views(a@)[j] == shape_views(b@)[j],
        decreases a@.len() - i,
    {
        if !same_shape(&a[i], &b[i]) {
            proof {
                assert(shape_views(a@)[i as int] != shape_views(b@)[i as int]);
            }
            return false;
        }
        i = i + 1;
    }
    proof {
        assert(shape_views(a@) =~= shape_views(b@));
    }
    true
}

fn shape_listed(list: &Vec<Vec<String>>, shape: &Vec<String>) -> (found: bool)
    ensures
        found == shape_views(list@).contains(shape_view(*shape)),
{
    let mut i: usize = 0;
    while i < list.len()
        invariant
            i <= list@.len(),
            forall|j: int| 0 <= j < i ==> shape_views(list@)[j] != shape_view(*shape),
        decreases list@.len() - i,
    {
        if same_shape(&list[i], shape) {
            proof {
                assert(shape_views(list@)[i as int] == shape_view(*shape));
            }
            return true;
        }
        i = i + 1;
    }
    false
}

fn same_shape_sets(a: &Vec<Vec<String>>, b: &Vec<Vec<String>>) -> (same: bool)
    ensures
        same == (shape_views(a@).to_set() == shape_views(b@).to_set()),
{
    let mut i: usize = 0;
    while i < a.len()
        invariant
            i <= a@.len(),
            forall|j: int| 0 <= j < i ==> shape_views(b@).contains(#[trigger] shape_views(a@)[j]),
        decreases a@.len() - i,
    {
        if !shape_listed(b, &a[i]) {
            proof {
                assert(shape_views(a@).to_set().contains(shape_views(a@)[i as int]));
            }
            return false;
        }
        i = i + 1;
    }
    let mut k: usize = 0;
    while k < b.len()
        invariant
            k <= b@.len(),
            forall|j: int| 0 <= j < a@.len() ==> shape_views(b@).contains(#[trigger] shape_views(a@)[j]),
            forall|j: int| 0 <= j < k ==> shape_views(a@).contains(#[trigger] shape_views(b@)[j]),
        decreases b@.len() - k,
    {
        if !shape_listed(a, &b[k]) {
            proof {
                assert(shape_views(b@).to_set().contains(shape_views(b@)[k as int]));
            }
            return false;
        }
        k = k + 1;
    }
    proof {
        assert forall|x: Seq<Seq<char>>| shape_views(a@).to_set().contains(x) <==> shape_views(b@).to_set().contains(x) by {
            if shape_views(a@).contains(x) {
                let j = choose|j: int| 0 <= j < shape_views(a@).len() && shape_views(a@)[j] == x;
                assert(shape_views(b@).contains(shape_views(a@)[j]));
            }
            if shape_views(b@).contains(x) {
                let j = choose|j: int| 0 <= j < shape_views(b@).len() && shape_views(b@)[j] == x;
                assert(shape_views(a@).contains(shape_views(b@)[j]));
            }
        }
        assert(shape_views(a@).to_set() =~= shape_views(b@).to_set());
    }
    true
}

// ---------------------------------------------------------------------------
// References

pub open spec fn reference_names(refs: Seq<ResolvedReference>) -> Seq<Seq<char>> {
    refs.map_values(|r: ResolvedReference| r.name@)
}

pub open spec fn last_reference(refs: Seq<ResolvedReference>, name: Seq<char>) -> Option<ResolvedReference>
    decreases refs.len(),
{
    if refs.len() == 0 {
        None
    } else if refs.last().name@ == name {
        Some(refs.last())
    } else {
        last_reference(refs.drop_last(), name)
    }
}

/// A change of reference `name` of table `owner` that edits the reference.
pub open spec fn reference_edit(owner: Seq<char>, name: Seq<char>, kind: CompatibilityChangeKind, generated_api: GeneratedApiImpact, reason: Seq<char>) -> ChangeView {
    change_at(
        CompatibilitySubjectKind::Reference, owner, Some(name), kind, "reference"@, true, true, generated_api,
        SourceMigrationImpact::ManualActionRequired, Some("EditReference"@),
        ArtifactBinaryImpact::CrossSchemaInteroperabilityNotGuaranteed, ExternalContractImpact::NotAssessed, reason,
        seq!["COMPAT-RELEASED-005"@, "COMPAT-RELEASED-007"@, "COMPAT-RELEASED-008"@],
    )
}

/// The changes between two versions of reference `name` of table `owner`.
pub open spec fn reference_changes(owner: Seq<char>, name: Seq<char>, left: ResolvedReference, right: ResolvedReference) -> Seq<ChangeView> {
    (if left.helper_name@ != right.helper_name@ {
        seq![change_at(
            CompatibilitySubjectKind::Reference, owner, Some(name), CompatibilityChangeKind::ReferencePresentationChanged,
            "reference"@, true, true, GeneratedApiImpact::Breaking, SourceMigrationImpact::NotRequired, None,
            ArtifactBinaryImpact::RebuildRequired, ExternalContractImpact::NotAssessed,
            "Reference generated C# helper identifier changed."@,
            seq!["COMPAT-RELEASED-005"@, "COMPAT-RELEASED-007"@],
        )]
    } else {
        Seq::empty()
    }) + (if left.source_fields.deep_view() != right.source_fields.deep_view() {
        seq![reference_edit(owner, name, CompatibilityChangeKind::ReferenceSourceChanged, GeneratedApiImpact::ReviewRequired,
            "Reference source field sequence changed."@)]
    } else {
        Seq::empty()
    }) + (if left.target_table@ != right.target_table@ || left.target_fields.deep_view() != right.target_fields.deep_view()
        || left.target_key_kind@ != right.target_key_kind@ {
        seq![reference_edit(owner, name, CompatibilityChangeKind::ReferenceTargetChanged, GeneratedApiImpact::Breaking,
            "Reference target table or ordered target key changed."@)]
    } else {
        Seq::empty()
    }) + (if left.optionality@ != right.optionality@ {
        seq![reference_edit(owner, name, CompatibilityChangeKind::ReferenceOptionalityChanged, GeneratedApiImpact::Breaking,
            "Reference Required/Nullable contract changed."@)]
    } else {
        Seq::empty()
    }) + (if left.cardinality@ != right.cardinality@ {
        seq![reference_edit(owner, name, CompatibilityChangeKind::ReferenceCardinalityChanged, GeneratedApiImpact::Breaking,
            "Reference single/multi return contract changed."@)]
    } else {
        Seq::empty()
    })
}

/// The changes of reference `name` of table `owner`.
pub open spec fn reference_diff(owner: Seq<char>, name: Seq<char>, baseline: Option<ResolvedReference>, current: Option<ResolvedReference>) -> Seq<ChangeView> {
    match (baseline, current) {
        (None, Some(_)) => seq![change_at(
            CompatibilitySubjectKind::Reference, owner, Some(name), CompatibilityChangeKind::ReferenceAdded,
            "reference"@, false, true, GeneratedApiImpact::Additive, SourceMigrationImpact::SupportedOperation,
            Some("AddReference"@), ArtifactBinaryImpact::CrossSchemaInteroperabilityNotGuaranteed,
            ExternalContractImpact::NotAssessed, "Reference declaration was added."@,
            seq!["COMPAT-RELEASED-004"@, "COMPAT-RELEASED-005"@, "COMPAT-RELEASED-007"@],
        )],
        (Some(_), None) => seq![change_at(
            CompatibilitySubjectKind::Reference, owner, Some(name), CompatibilityChangeKind::ReferenceRemoved,
            "reference"@, true, false, GeneratedApiImpact::Breaking, SourceMigrationImpact::ManualActionRequired,
            Some("RemoveReference"@), ArtifactBinaryImpact::CrossSchemaInteroperabilityNotGuaranteed,
            ExternalContractImpact::NotAssessed, "Reference declaration was removed; no rename lineage is inferred."@,
            seq!["COMPAT-RELEASED-004"@, "COMPAT-RELEASED-007"@, "COMPAT-RELEASED-008"@],
        )],
        (Some(left), Some(right)) => reference_changes(owner, name, left, right),
        (None, None) => Seq::empty(),
    }
}

pub open spec fn reference_diff_by_name(owner: Seq<char>, baseline: Seq<ResolvedReference>, current: Seq<ResolvedReference>) -> spec_fn(Seq<char>) -> Seq<ChangeView> {
    |name: Seq<char>| reference_diff(owner, name, last_reference(baseline, name), last_reference(current, name))
}

/// The reference changes of table `owner`, by reference name in ascending order.
pub open spec fn table_reference_changes(owner: Seq<char>, baseline: Seq<ResolvedReference>, current: Seq<ResolvedReference>) -> Seq<ChangeView> {
    ascending_union(reference_names(baseline), reference_names(current)).map_values(
        reference_diff_by_name(owner, baseline, current),
    ).flatten()
}

fn names_of_references(refs: &Vec<ResolvedReference>) -> (names: Vec<String>)
    ensures
        texts(names@) == reference_names(refs@),
{
    let mut names: Vec<String> = Vec::new();
    let mut i: usize = 0;
    while i < refs.len()
        invariant
            i <= refs@.len(),
            texts(names@) == reference_names(refs@).take(i as int),
        decreases refs@.len() - i,
    {
        let ghost before = names@;
        names.push(refs[i].name.clone());
        proof {
            assert(names@ =~= before.push(refs@[i as int].name));
            assert(texts(names@) =~= texts(before).push(refs@[i as int].name@));
            assert(reference_names(refs@).take(i + 1) =~= reference_names(refs@).take(i as int).push(refs@[i as int].name@));
        }
        i = i + 1;
    }
    proof {
        assert(reference_names(refs@).take(refs@.len() as int) =~= reference_names(refs@));
    }
    names
}

fn find_last_reference(refs: &Vec<ResolvedReference>, name: &str) -> (found: Option<usize>)
    ensures
        match found {
            Some(i) => i < refs@.len() && last_reference(refs@, name@) == Some(refs@[i as int]),
            None => last_reference(refs@, name@) is None,
        },
{
    let mut n: usize = refs.len();
    proof {
        assert(refs@.take(n as int) =~= refs@);
    }
    while n > 0
        invariant
            n <= refs@.len(),
            last_reference(refs@, name@) == last_reference(refs@.take(n as int), name@),
        decreases n,
    {
        proof {
            assert(refs@.take(n as int).drop_last() =~= refs@.take(n - 1));
        }
        if str_eq(refs[n - 1].name.as_str(), name) {
            return Some(n - 1);
        }
        n = n - 1;
    }
    None
}

fn push_reference_edit(
    changes: &mut Vec<CompatibilityChange>,
    owner: &str,
    name: &str,
    kind: CompatibilityChangeKind,
    generated_api: GeneratedApiImpact,
    reason: &str,
)
    ensures
        change_views(final(changes)@) == change_views(old(changes)@).push(reference_edit(owner@, name@, kind, generated_api, reason@)),
{
    push_at(
        changes, CompatibilitySubjectKind::Reference, owner, Some(name), kind, "reference", true, true, generated_api,
        SourceMigrationImpact::ManualActionRequired, Some("EditReference"),
        ArtifactBinaryImpact::CrossSchemaInteroperabilityNotGuaranteed, ExternalContractImpact::NotAssessed, reason,
        requirement_list("COMPAT-RELEASED-005", "COMPAT-RELEASED-007", Some("COMPAT-RELEASED-008")),
    );
}

/// Compares two versions of reference `name` of table `owner`.
pub fn compare_reference(
    owner: &str,
    name: &str,
    baseline: &ResolvedReference,
    current: &ResolvedReference,
    changes: &mut Vec<CompatibilityChange>,
)
    ensures
        change_views(final(changes)@) == change_views(old(changes)@) + reference_changes(owner@, name@, *baseline, *current),
{
    let ghost start = change_views(changes@);
    if !str_eq(baseline.helper_name.as_str(), current.helper_name.as_str()) {
        push_at(
            changes, CompatibilitySubjectKind::Reference, owner, Some(name),
            CompatibilityChangeKind::ReferencePresentationChanged, "reference", true, true,
            GeneratedApiImpact::Breaking, SourceMigrationImpact::NotRequired, None,
            ArtifactBinaryImpact::RebuildRequired, ExternalContractImpact::NotAssessed,
            "Reference generated C# helper identifier changed.",
            requirement_list("COMPAT-RELEASED-005", "COMPAT-RELEASED-007", None),
        );
    }
    proof {
        lemma_texts_deep_view(baseline.source_fields);
        lemma_texts_deep_view(current.source_fields);
        lemma_texts_deep_view(baseline.target_fields);
        lemma_texts_deep_view(current.target_fields);
    }
    if !same_names(&baseline.source_fields, &current.source_fields) {
        push_reference_edit(changes, owner, name, CompatibilityChangeKind::ReferenceSourceChanged,
            GeneratedApiImpact::ReviewRequired, "Reference source field sequence changed.");
    }
    if !str_eq(baseline.target_table.as_str(), current.target_table.as_str())
        || !same_names(&baseline.target_fields, &current.target_fields)
        || !str_eq(baseline.target_key_kind.as_str(), current.target_key_kind.as_str()) {
        push_reference_edit(changes, owner, name, CompatibilityChangeKind::ReferenceTargetChanged,
            GeneratedApiImpact::Breaking, "Reference target table or ordered target key changed.");
    }
    if !str_eq(baseline.optionality.as_str(), current.optionality.as_str()) {
        push_reference_edit(changes, owner, name, CompatibilityChangeKind::ReferenceOptionalityChanged,
            GeneratedApiImpact::Breaking, "Reference Required/Nullable contract changed.");
    }
    if !str_eq(baseline.cardinality.as_str(), current.cardinality.as_str()) {
        push_reference_edit(changes, owner, name, CompatibilityChangeKind::ReferenceCardinalityChanged,
            GeneratedApiImpact::Breaking, "Reference single/multi return contract changed.");
    }
    proof {
        assert(change_views(changes@) =~= start + reference_changes(owner@, name@, *baseline, *current));
    }
}

/// Compares the references of two versions of table `owner`, by name.
pub fn compare_references(
    owner: &str,
    baseline: &Vec<ResolvedReference>,
    current: &Vec<ResolvedReference>,
    changes: &mut Vec<CompatibilityChange>,
)
    ensures
        change_views(final(changes)@) == change_views(old(changes)@) + table_reference_changes(owner@, baseline@, current@),
{
    let left_names = names_of_references(baseline);
    let right_names = names_of_references(current);
    let names = union_ascending(&left_names, &right_names);
    let ghost f = reference_diff_by_name(owner@, baseline@, current@);
    let ghost all = texts(names@);
    let ghost start = change_views(changes@);
    let mut i: usize = 0;
    while i < names.len()
        invariant
            i <= names@.len(),
            all == texts(names@),
            f == reference_diff_by_name(owner@, baseline@, current@),
            change_views(changes@) == start + all.take(i as int).map_values(f).flatten(),
        decreases names@.len() - i,
    {
        let name = names[i].as_str();
        let left = find_last_reference(baseline, name);
        let right = find_last_reference(current, name);
        let ghost before = change_views(changes@);
        match (left, right) {
            (None, Some(_)) => {
                push_at(
                    changes, CompatibilitySubjectKind::Reference, owner, Some(name), CompatibilityChangeKind::ReferenceAdded,
                    "reference", false, true, GeneratedApiImpact::Additive, SourceMigrationImpact::SupportedOperation,
                    Some("AddReference"), ArtifactBinaryImpact::CrossSchemaInteroperabilityNotGuaranteed,
                    ExternalContractImpact::NotAssessed, "Reference declaration was added.",
                    requirement_list("COMPAT-RELEASED-004", "COMPAT-RELEASED-005", Some("COMPAT-RELEASED-007")),
                );
            },
            (Some(_), None) => {
                push_at(
                    changes, CompatibilitySubjectKind::Reference, owner, Some(name), CompatibilityChangeKind::ReferenceRemoved,
                    "reference", true, false, GeneratedApiImpact::Breaking, SourceMigrationImpact::ManualActionRequired,
                    Some("RemoveReference"), ArtifactBinaryImpact::CrossSchemaInteroperabilityNotGuaranteed,
                    ExternalContractImpact::NotAssessed, "Reference declaration was removed; no rename lineage is inferred.",
                    requirement_list("COMPAT-RELEASED-004", "COMPAT-RELEASED-007", Some("COMPAT-RELEASED-008")),
                );
            },
            (Some(l), Some(r)) => {
                compare_reference(owner, name, &baseline[l], &current[r], changes);
            },
            (None, None) => {},
        }
        proof {
            lemma_texts_deep_view(names);
            assert(name@ == all[i as int]);
            assert(change_views(changes@) =~= before + f(all[i as int]));
            assert(all.take(i + 1).map_values(f) =~= all.take(i as int).map_values(f).push(f(all[i as int])));
            lemma_flatten_push(all.take(i as int).map_values(f), f(all[i as int]));
        }
        i = i + 1;
    }
    proof {
        assert(all.take(all.len() as int) =~= all);
    }
}

// ---------------------------------------------------------------------------
// Tables

/// The changes between two versions of a table, reported under the
/// baseline's identity: presentation, fields, primary key, secondary keys,
/// references.
pub open spec fn table_changes(baseline: ResolvedTable, current: ResolvedTable) -> Seq<ChangeView> {
    let owner = baseline.identity@;
    (if baseline.csharp_name@ != current.csharp_name@ {
        seq![change_at(
            CompatibilitySubjectKind::Table, owner, None, CompatibilityChangeKind::TablePresentationChanged,
            "table"@, true, true, GeneratedApiImpact::Breaking, SourceMigrationImpact::NotRequired, None,
            ArtifactBinaryImpact::RebuildRequired, ExternalContractImpact::NotAssessed,
            "Table generated C# type presentation changed."@,
            seq!["COMPAT-RELEASED-004"@, "COMPAT-RELEASED-007"@, "COMPAT-RELEASED-009"@],
        )]
    } else {
        Seq::empty()
    }) + table_field_changes(owner, baseline.fields@, current.fields@) + (if baseline.primary_key.deep_view() != current.primary_key.deep_view() {
        seq![change_at(
            CompatibilitySubjectKind::PrimaryKey, owner, None, CompatibilityChangeKind::PrimaryKeyChanged,
            "primary-key"@, true, true, GeneratedApiImpact::Breaking, SourceMigrationImpact::ManualActionRequired, None,
            ArtifactBinaryImpact::CrossSchemaInteroperabilityNotGuaranteed, ExternalContractImpact::ExternalPolicyRequired,
            "Primary Key ordered field sequence changed ("@ + baseline.primary_key_query_name@ + " -> "@
                + current.primary_key_query_name@ + ")."@,
            seq!["COMPAT-RELEASED-005"@, "COMPAT-RELEASED-007"@, "COMPAT-RELEASED-009"@],
        )]
    } else {
        Seq::empty()
    }) + secondary_key_changes(owner, baseline.secondary_keys@, current.secondary_keys@)
        + table_reference_changes(owner, baseline.references@, current.references@)
}

/// Compares two versions of a table.
pub fn compare_table(baseline: &ResolvedTable, current: &ResolvedTable, changes: &mut Vec<CompatibilityChange>)
    ensures
        change_views(final(changes)@) == change_views(old(changes)@) + table_changes(*baseline, *current),
{
    let ghost start = change_views(changes@);
    let owner = baseline.identity.as_str();
    if !str_eq(baseline.csharp_name.as_str(), current.csharp_name.as_str()) {
        push_at(
            changes, CompatibilitySubjectKind::Table, owner, None, CompatibilityChangeKind::TablePresentationChanged,
            "table", true, true, GeneratedApiImpact::Breaking, SourceMigrationImpact::NotRequired, None,
            ArtifactBinaryImpact::RebuildRequired, ExternalContractImpact::NotAssessed,
            "Table generated C# type presentation changed.",
            requirement_list("COMPAT-RELEASED-004", "COMPAT-RELEASED-007", Some("COMPAT-RELEASED-009")),
        );
    }
    let ghost after_presentation = change_views(changes@);
    compare_table_fields(owner, &baseline.fields, &current.fields, changes);
    let ghost after_fields = change_views(changes@);
    proof {
        lemma_texts_deep_view(baseline.primary_key);
        lemma_texts_deep_view(current.primary_key);
    }
    if !same_names(&baseline.primary_key, &current.primary_key) {
        let mut reason = String::from_str("Primary Key ordered field sequence changed (");
        reason.append(baseline.primary_key_query_name.as_str());
        reason.append(" -> ");
        reason.append(current.primary_key_query_name.as_str());
        reason.append(").");
        push_at(
            changes, CompatibilitySubjectKind::PrimaryKey, owner, None, CompatibilityChangeKind::PrimaryKeyChanged,
            "primary-key", true, true, GeneratedApiImpact::Breaking, SourceMigrationImpact::ManualActionRequired, None,
            ArtifactBinaryImpact::CrossSchemaInteroperabilityNotGuaranteed, ExternalContractImpact::ExternalPolicyRequired,
            reason.as_str(),
            requirement_list("COMPAT-RELEASED-005", "COMPAT-RELEASED-007", Some("COMPAT-RELEASED-009")),
        );
    }
    let ghost after_key = change_views(changes@);
    compare_secondary_keys(owner, &baseline.secondary_keys, &current.secondary_keys, changes);
    let ghost after_secondary = change_views(changes@);
    compare_references(owner, &baseline.references, &current.references, changes);
    proof {
        assert(change_views(changes@) =~= start + table_changes(*baseline, *current));
    }
}

pub open spec fn table_keys(tables: Seq<(String, ResolvedTable)>) -> Seq<Seq<char>> {
    tables.map_values(|t: (String, ResolvedTable)| t.0@)
}

pub open spec fn last_table(tables: Seq<(String, ResolvedTable)>, name: Seq<char>) -> Option<ResolvedTable>
    decreases tables.len(),
{
    if tables.len() == 0 {
        None
    } else if tables.last().0@ == name {
        Some(tables.last().1)
    } else {
        last_table(tables.drop_last(), name)
    }
}

/// The changes of the table named `name`.
pub open spec fn table_diff(name: Seq<char>, baseline: Option<ResolvedTable>, current: Option<ResolvedTable>) -> Seq<ChangeView> {
    match (baseline, current) {
        (None, Some(_)) => seq![change_at(
            CompatibilitySubjectKind::Table, name, None, CompatibilityChangeKind::TableAdded,
            "table"@, false, true, GeneratedApiImpact::Additive, SourceMigrationImpact::ManualActionRequired, None,
            ArtifactBinaryImpact::CrossSchemaInteroperabilityNotGuaranteed, ExternalContractImpact::NotAssessed,
            "Table was added."@,
            seq!["COMPAT-RELEASED-004"@, "COMPAT-RELEASED-007"@, "COMPAT-RELEASED-009"@],
        )],
        (Some(_), None) => seq![change_at(
            CompatibilitySubjectKind::Table, name, None, CompatibilityChangeKind::TableRemoved,
            "table"@, true, false, GeneratedApiImpact::Breaking, SourceMigrationImpact::ManualActionRequired, None,
            ArtifactBinaryImpact::CrossSchemaInteroperabilityNotGuaranteed, ExternalContractImpact::NotAssessed,
            "Table was removed; no rename lineage is inferred."@,
            seq!["COMPAT-RELEASED-004"@, "COMPAT-RELEASED-007"@, "COMPAT-RELEASED-009"@],
        )],
        (Some(left), Some(right)) => table_changes(left, right),
        (None, None) => Seq::empty(),
    }
}

pub open spec fn table_diff_by_name(baseline: Seq<(String, ResolvedTable)>, current: Seq<(String, ResolvedTable)>) -> spec_fn(Seq<char>) -> Seq<ChangeView> {
    |name: Seq<char>| table_diff(name, last_table(baseline, name), last_table(current, name))
}

/// The changes between the tables of two snapshots, by table name in
/// ascending order.
pub open spec fn declared_table_changes(baseline: Seq<(String, ResolvedTable)>, current: Seq<(String, ResolvedTable)>) -> Seq<ChangeView> {
    ascending_union(table_keys(baseline), table_keys(current)).map_values(table_diff_by_name(baseline, current)).flatten()
}

pub(crate) fn keys_of_tables(tables: &Vec<(String, ResolvedTable)>) -> (names: Vec<String>)
    ensures
        texts(names@) == table_keys(tables@),
{
    let mut names: Vec<String> = Vec::new();
    let mut i: usize = 0;
    while i < tables.len()
        invariant
            i <= tables@.len(),
            texts(names@) == table_keys(tables@).take(i as int),
        decreases tables@.len() - i,
    {
        let ghost before = names@;
        names.push(tables[i].0.clone());
        proof {
            assert(names@ =~= before.push(tables@[i as int].0));
            assert(texts(names@) =~= texts(before).push(tables@[i as int].0@));
            assert(table_keys(tables@).take(i + 1) =~= table_keys(tables@).take(i as int).push(tables@[i as int].0@));
        }
        i = i + 1;
    }
    proof {
        assert(table_keys(tables@).take(tables@.len() as int) =~= table_keys(tables@));
    }
    names
}

fn find_last_table(tables: &Vec<(String, ResolvedTable)>, name: &str) -> (found: Option<usize>)
    ensures
        match found {
            Some(i) => i < tables@.len() && last_table(tables@, name@) == Some(tables@[i as int].1),
            None => last_table(tables@, name@) is None,
        },
{
    let mut n: usize = tables.len();
    proof {
        assert(tables@.take(n as int) =~= tables@);
    }
    while n > 0
        invariant
            n <= tables@.len(),
            last_table(tables@, name@) == last_table(tables@.take(n as int), name@),
        decreases n,
    {
        proof {
            assert(tables@.take(n as int).drop_last() =~= tables@.take(n - 1));
        }
        if str_eq(tables[n - 1].0.as_str(), name) {
            return Some(n - 1);
        }
        n = n - 1;
    }
    None
}

/// Compares the tables of two snapshots, by table name in ascending order:
/// added, removed, or changed as `compare_table` says.
pub fn compare_tables(
    baseline: &Vec<(String, ResolvedTable)>,
    current: &Vec<(String, ResolvedTable)>,
    changes: &mut Vec<CompatibilityChange>,
)
    ensures
        change_views(final(changes)@) == change_views(old(changes)@) + declared_table_changes(baseline@, current@),
{
    let left_names = keys_of_tables(baseline);
    let right_names = keys_of_tables(current);
    let names = union_ascending(&left_names, &right_names);
    let ghost f = table_diff_by_name(baseline@, current@);
    let ghost all = texts(names@);
    let ghost start = change_views(changes@);
    let mut i: usize = 0;
    while i < names.len()
        invariant
            i <= names@.len(),
            all == texts(names@),
            f == table_diff_by_name(baseline@, current@),
            change_views(changes@) == start + all.take(i as int).map_values(f).flatten(),
        decreases names@.len() - i,
    {
        let name = names[i].as_str();
        let left = find_last_table(baseline, name);
        let right = find_last_table(current, name);
        let ghost before = change_views(changes@);
        match (left, right) {
            (None, Some(_)) => {
                push_at(
                    changes, CompatibilitySubjectKind::Table, name, None, CompatibilityChangeKind::TableAdded,
                    "table", false, true, GeneratedApiImpact::Additive, SourceMigrationImpact::ManualActionRequired, None,
                    ArtifactBinaryImpact::CrossSchemaInteroperabilityNotGuaranteed, ExternalContractImpact::NotAssessed,
                    "Table was added.",
                    requirement_list("COMPAT-RELEASED-004", "COMPAT-RELEASED-007", Some("COMPAT-RELEASED-009")),
                );
            },
            (Some(_), None) => {
                push_at(
                    changes, CompatibilitySubjectKind::Table, name, None, CompatibilityChangeKind::TableRemoved,
                    "table", true, false, GeneratedApiImpact::Breaking, SourceMigrationImpact::ManualActionRequired, None,
                    ArtifactBinaryImpact::CrossSchemaInteroperabilityNotGuaranteed, ExternalContractImpact::NotAssessed,
                    "Table was removed; no rename lineage is inferred.",
                    requirement_list("COMPAT-RELEASED-004", "COMPAT-RELEASED-007", Some("COMPAT-RELEASED-009")),
                );
            },
            (Some(l), Some(r)) => {
                compare_table(&baseline[l].1, &current[r].1, changes);
            },
            (None, None) => {},
        }
        proof {
            lemma_texts_deep_view(names);
            assert(name@ == all[i as int]);
            assert(change_views(changes@) =~= before + f(all[i as int]));
            assert(all.take(i + 1).map_values(f) =~= all.take(i as int).map_values(f).push(f(all[i as int])));
            lemma_flatten_push(all.take(i as int).map_values(f), f(all[i as int]));
        }
        i = i + 1;
    }
    proof {
        assert(all.take(all.len() as int) =~= all);
    }
}

// ---------------------------------------------------------------------------
// Laws

proof fn lemma_same_table_unchanged(t: ResolvedTable)
    ensures
        table_changes(t, t) == Seq::<ChangeView>::empty(),
{
    let owner = t.identity@;
    let fields = t.fields@;
    let names = ascending_union(field_names(fields), field_names(fields));
    let parts = names.map_values(table_field_diff_by_name(owner, fields, fields));
    assert forall|i: int| 0 <= i < parts.len() implies (#[trigger] parts[i]).len() == 0 by {
        let n = names[i];
        match last_field(fields, n) {
            Some(f) => {
                assert(table_field_diff(owner, n, Some(f), Some(f)) =~= Seq::<ChangeView>::empty());
            },
            None => {},
        }
    }
    lemma_flatten_of_empties(parts);
    assert(table_field_changes(owner, fields, fields) =~= Seq::<ChangeView>::empty());
    let keys = t.secondary_keys@;
    let shapes = ascending_shapes(key_shapes(keys), key_shapes(keys));
    let key_parts = shapes.map_values(key_diff_by_shape(owner, keys, keys));
    assert forall|i: int| 0 <= i < key_parts.len() implies (#[trigger] key_parts[i]).len() == 0 by {
        let s = shapes[i];
        match last_key(keys, s) {
            Some(k) => {
                assert(key_diff(owner, s, Some(k), Some(k)) =~= Seq::<ChangeView>::empty());
            },
            None => {},
        }
    }
    lemma_flatten_of_empties(key_parts);
    assert(secondary_key_changes(owner, keys, keys) =~= Seq::<ChangeView>::empty());
    let refs = t.references@;
    let ref_names = ascending_union(reference_names(refs), reference_names(refs));
    let ref_parts = ref_names.map_values(reference_diff_by_name(owner, refs, refs));
    assert forall|i: int| 0 <= i < ref_parts.len() implies (#[trigger] ref_parts[i]).len() == 0 by {
        let n = ref_names[i];
        match last_reference(refs, n) {
            Some(r) => {
                assert(reference_changes(owner, n, r, r) =~= Seq::<ChangeView>::empty());
            },
            None => {},
        }
    }
    lemma_flatten_of_empties(ref_parts);
    assert(table_changes(t, t) =~= Seq::<ChangeView>::empty());
}

/// Comparing a snapshot's tables with themselves reports no change.
pub proof fn law_identical_tables_report_no_change(tables: Seq<(String, ResolvedTable)>)
    ensures
        declared_table_changes(tables, tables) == Seq::<ChangeView>::empty(),
{
    let names = ascending_union(table_keys(tables), table_keys(tables));
    let parts = names.map_values(table_diff_by_name(tables, tables));
    assert forall|i: int| 0 <= i < parts.len() implies (#[trigger] parts[i]).len() == 0 by {
        let n = names[i];
        match last_table(tables, n) {
            Some(t) => lemma_same_table_unchanged(t),
            None => {},
        }
    }
    lemma_flatten_of_empties(parts);
}

} // verus!
