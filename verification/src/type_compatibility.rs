//! Released-compatibility comparison of the Type System side of two
//! snapshots: declared types, Custom Type fields, Enum / Flags members and
//! canonical record data.  Each comparison walks the names of both sides in
//! ascending order and records the classified changes for each name.

use vstd::prelude::*;
use crate::compatibility::{
    ArtifactBinaryImpact, ChangeView, CompatibilityChange, CompatibilityChangeKind,
    CompatibilitySubject, CompatibilitySubjectKind, ExternalContractImpact, GeneratedApiImpact,
    SourceMigrationImpact, change_views, locator, locator_text, push_change, requirement_list,
};
use crate::text::{str_eq, strings_contain};
use crate::text_order::{ascending_union, texts, union_ascending};
use crate::type_system::{FieldModifier, PrimitiveType};

verus! {

/// A field of a Custom Type, as the comparison reads it.
#[derive(Debug, PartialEq, Eq)]
pub struct ResolvedField {
    pub key: u32,
    pub name: String,
    pub base_type: String,
    pub modifier: FieldModifier,
}

/// A member of an Enum or Flags type.
#[derive(Debug, PartialEq, Eq)]
pub struct ResolvedEnumMember {
    pub name: String,
    pub value: i128,
}

/// The implicit conversions of a Value Object.
#[derive(Debug, Clone, Copy, PartialEq, Eq, Structural)]
pub struct ResolvedConversions {
    pub from_underlying_implicit: bool,
    pub to_underlying_implicit: bool,
}

/// A resolved type declaration.
#[derive(Debug, PartialEq, Eq)]
pub enum ResolvedType {
    ValueObject { name: String, underlying: PrimitiveType, conversions: ResolvedConversions },
    Custom { name: String, fields: Vec<ResolvedField> },
    Enum { name: String, underlying: PrimitiveType, members: Vec<ResolvedEnumMember> },
    Flags { name: String, underlying: PrimitiveType, members: Vec<ResolvedEnumMember> },
}

/// A change whose locators, where present, both name `locator_kind:owner[:member]`.
pub open spec fn change_at(
    subject_kind: CompatibilitySubjectKind,
    owner: Seq<char>,
    member: Option<Seq<char>>,
    kind: CompatibilityChangeKind,
    locator_kind: Seq<char>,
    before: bool,
    after: bool,
    generated_api: GeneratedApiImpact,
    source_migration: SourceMigrationImpact,
    source_operation: Option<Seq<char>>,
    artifact_binary: ArtifactBinaryImpact,
    external_contract: ExternalContractImpact,
    reason: Seq<char>,
    related_requirements: Seq<Seq<char>>,
) -> ChangeView {
    let at = locator_text(locator_kind, owner, member);
    ChangeView {
        subject_kind,
        owner,
        member,
        kind,
        baseline_locator: if before { Some(at) } else { None },
        current_locator: if after { Some(at) } else { None },
        generated_api,
        source_migration,
        source_operation,
        artifact_binary,
        external_contract,
        reason,
        related_requirements,
    }
}

pub open spec fn opt_text(s: Option<&str>) -> Option<Seq<char>> {
    match s {
        Some(t) => Some(t@),
        None => None,
    }
}

/// Records the change `change_at(..)` describes.
pub(crate) fn push_at(
    changes: &mut Vec<CompatibilityChange>,
    subject_kind: CompatibilitySubjectKind,
    owner: &str,
    member: Option<&str>,
    kind: CompatibilityChangeKind,
    locator_kind: &str,
    before: bool,
    after: bool,
    generated_api: GeneratedApiImpact,
    source_migration: SourceMigrationImpact,
    source_operation: Option<&str>,
    artifact_binary: ArtifactBinaryImpact,
    external_contract: ExternalContractImpact,
    reason: &str,
    requirements: Vec<String>,
)
    ensures
        change_views(final(changes)@) == change_views(old(changes)@).push(change_at(
            subject_kind,
            owner@,
            opt_text(member),
            kind,
            locator_kind@,
            before,
            after,
            generated_api,
            source_migration,
            opt_text(source_operation),
            artifact_binary,
            external_contract,
            reason@,
            requirements.deep_view(),
        )),
{
    let subject = CompatibilitySubject {
        kind: subject_kind,
        owner: owner.to_owned(),
        member: match member {
            Some(m) => Some(m.to_owned()),
            None => None,
        },
    };
    let baseline_locator = if before {
        Some(locator(locator_kind, owner, member))
    } else {
        None
    };
    let current_locator = if after {
        Some(locator(locator_kind, owner, member))
    } else {
        None
    };
    push_change(
        changes,
        subject,
        kind,
        baseline_locator,
        current_locator,
        generated_api,
        source_migration,
        source_operation,
        artifact_binary,
        external_contract,
        reason,
        requirements,
    );
}

pub proof fn lemma_flatten_push<A>(s: Seq<Seq<A>>, x: Seq<A>)
    ensures
        s.push(x).flatten() == s.flatten() + x,
{
    s.lemma_flatten_and_flatten_alt_are_equivalent();
    s.push(x).lemma_flatten_and_flatten_alt_are_equivalent();
    assert(s.push(x).drop_last() =~= s);
}

// ---------------------------------------------------------------------------
// Custom Type fields

/// The names of the fields, in declaration order.
pub open spec fn field_names(fields: Seq<ResolvedField>) -> Seq<Seq<char>> {
    fields.map_values(|f: ResolvedField| f.name@)
}

/// The last field called `name` (a map keyed by name keeps the last one).
pub open spec fn last_field(fields: Seq<ResolvedField>, name: Seq<char>) -> Option<ResolvedField>
    decreases fields.len(),
{
    if fields.len() == 0 {
        None
    } else if fields.last().name@ == name {
        Some(fields.last())
    } else {
        last_field(fields.drop_last(), name)
    }
}

/// The changes of the field `name` of Custom Type `owner`.
pub open spec fn field_diff(owner: Seq<char>, name: Seq<char>, baseline: Option<ResolvedField>, current: Option<ResolvedField>) -> Seq<ChangeView> {
    match (baseline, current) {
        (None, Some(_)) => seq![change_at(
            CompatibilitySubjectKind::TypeField, owner, Some(name), CompatibilityChangeKind::TypeFieldAdded,
            "type-field"@, false, true, GeneratedApiImpact::Breaking, SourceMigrationImpact::SupportedOperation,
            Some("AddCustomField"@), ArtifactBinaryImpact::CrossSchemaInteroperabilityNotGuaranteed,
            ExternalContractImpact::NotAssessed,
            "Custom Type field was added; its public constructor shape changes."@,
            seq!["COMPAT-RELEASED-004"@, "COMPAT-RELEASED-007"@, "COMPAT-RELEASED-008"@],
        )],
        (Some(_), None) => seq![change_at(
            CompatibilitySubjectKind::TypeField, owner, Some(name), CompatibilityChangeKind::TypeFieldRemoved,
            "type-field"@, true, false, GeneratedApiImpact::Breaking,
            SourceMigrationImpact::DestructiveAuthorizationRequired, Some("DropCustomField"@),
            ArtifactBinaryImpact::CrossSchemaInteroperabilityNotGuaranteed,
            ExternalContractImpact::ExternalPolicyRequired,
            "Custom Type field was removed; no rename lineage is inferred."@,
            seq!["COMPAT-RELEASED-004"@, "COMPAT-RELEASED-007"@, "COMPAT-RELEASED-008"@],
        )],
        (Some(left), Some(right)) => {
            (if left.base_type@ != right.base_type@ {
                seq![change_at(
                    CompatibilitySubjectKind::TypeField, owner, Some(name), CompatibilityChangeKind::TypeFieldShapeChanged,
                    "type-field"@, true, true, GeneratedApiImpact::Breaking,
                    SourceMigrationImpact::ManualActionRequired, None,
                    ArtifactBinaryImpact::CrossSchemaInteroperabilityNotGuaranteed,
                    ExternalContractImpact::ExternalPolicyRequired,
                    "Custom Type field base type changed."@,
                    seq!["COMPAT-RELEASED-007"@, "COMPAT-RELEASED-008"@, "COMPAT-RELEASED-009"@],
                )]
            } else {
                Seq::empty()
            }) + (if left.modifier != right.modifier {
                seq![change_at(
                    CompatibilitySubjectKind::TypeField, owner, Some(name), CompatibilityChangeKind::TypeFieldShapeChanged,
                    "type-field"@, true, true, GeneratedApiImpact::Breaking,
                    SourceMigrationImpact::ManualActionRequired, None,
                    ArtifactBinaryImpact::CrossSchemaInteroperabilityNotGuaranteed,
                    ExternalContractImpact::ExternalPolicyRequired,
                    "Custom Type field modifier changed."@,
                    seq!["COMPAT-RELEASED-007"@, "COMPAT-RELEASED-008"@, "COMPAT-RELEASED-009"@],
                )]
            } else {
                Seq::empty()
            }) + (if left.key != right.key {
                seq![change_at(
                    CompatibilitySubjectKind::TypeField, owner, Some(name),
                    CompatibilityChangeKind::TypeFieldMessagePackKeyChanged, "type-field"@, true, true,
                    GeneratedApiImpact::Unchanged, SourceMigrationImpact::NotRequired, None,
                    ArtifactBinaryImpact::CrossSchemaInteroperabilityNotGuaranteed,
                    ExternalContractImpact::ExternalPolicyRequired,
                    "Custom Type MessagePack key changed without changing logical field identity."@,
                    seq!["COMPAT-RELEASED-004"@, "COMPAT-RELEASED-005"@, "COMPAT-RELEASED-009"@],
                )]
            } else {
                Seq::empty()
            })
        },
        (None, None) => Seq::empty(),
    }
}

/// Same field names, same count, another declaration order.
pub open spec fn fields_reordered(baseline: Seq<ResolvedField>, current: Seq<ResolvedField>) -> bool {
    &&& field_names(baseline) != field_names(current)
    &&& baseline.len() == current.len()
    &&& field_names(baseline).to_set() == field_names(current).to_set()
}

/// The changes of each field name between the two versions of `owner`.
pub open spec fn field_diff_by_name(owner: Seq<char>, baseline: Seq<ResolvedField>, current: Seq<ResolvedField>) -> spec_fn(Seq<char>) -> Seq<ChangeView> {
    |name: Seq<char>| field_diff(owner, name, last_field(baseline, name), last_field(current, name))
}

/// The changes between the fields of the two versions of Custom Type `owner`.
pub open spec fn type_field_changes(owner: Seq<char>, baseline: Seq<ResolvedField>, current: Seq<ResolvedField>) -> Seq<ChangeView> {
    ascending_union(field_names(baseline), field_names(current)).map_values(
        field_diff_by_name(owner, baseline, current),
    ).flatten() + if fields_reordered(baseline, current) {
        seq![change_at(
            CompatibilitySubjectKind::Type, owner, None, CompatibilityChangeKind::TypeFieldDeclarationReordered,
            "type"@, true, true, GeneratedApiImpact::Breaking, SourceMigrationImpact::NotRequired, None,
            ArtifactBinaryImpact::RebuildRequired, ExternalContractImpact::NotAssessed,
            "Custom Type declaration order changed; public constructor parameter order follows it."@,
            seq!["COMPAT-RELEASED-007"@, "COMPAT-RELEASED-009"@],
        )]
    } else {
        Seq::empty()
    }
}

pub(crate) fn names_of_fields(fields: &Vec<ResolvedField>) -> (names: Vec<String>)
    ensures
        texts(names@) == field_names(fields@),
{
    let mut names: Vec<String> = Vec::new();
    let mut i: usize = 0;
    while i < fields.len()
        invariant
            i <= fields@.len(),
            texts(names@) == field_names(fields@).take(i as int),
        decreases fields@.len() - i,
    {
        let ghost before = names@;
        names.push(fields[i].name.clone());
        proof {
            assert(names@ =~= before.push(fields@[i as int].name));
            assert(texts(names@) =~= texts(before).push(fields@[i as int].name@));
            assert(field_names(fields@).take(i + 1) =~= field_names(fields@).take(i as int).push(fields@[i as int].name@));
        }
        i = i + 1;
    }
    proof {
        assert(field_names(fields@).take(fields@.len() as int) =~= field_names(fields@));
    }
    names
}

/// The position of the last field called `name`.
pub(crate) fn find_last_field(fields: &Vec<ResolvedField>, name: &str) -> (found: Option<usize>)
    ensures
        match found {
            Some(i) => i < fields@.len() && last_field(fields@, name@) == Some(fields@[i as int]),
            None => last_field(fields@, name@) is None,
        },
{
    let mut n: usize = fields.len();
    proof {
        assert(fields@.take(n as int) =~= fields@);
    }
    while n > 0
        invariant
            n <= fields@.len(),
            last_field(fields@, name@) == last_field(fields@.take(n as int), name@),
        decreases n,
    {
        proof {
            assert(fields@.take(n as int).drop_last() =~= fields@.take(n - 1));
        }
        if str_eq(fields[n - 1].name.as_str(), name) {
            return Some(n - 1);
        }
        n = n - 1;
    }
    None
}

pub open spec fn opt_field(fields: Seq<ResolvedField>, at: Option<usize>) -> Option<ResolvedField> {
    match at {
        Some(i) => Some(fields[i as int]),
        None => None,
    }
}

fn push_field_diff(
    changes: &mut Vec<CompatibilityChange>,
    owner: &str,
    name: &str,
    baseline: &Vec<ResolvedField>,
    left: Option<usize>,
    current: &Vec<ResolvedField>,
    right: Option<usize>,
)
    requires
        match left { Some(i) => i < baseline@.len(), None => true },
        match right { Some(i) => i < current@.len(), None => true },
    ensures
        change_views(final(changes)@) == change_views(old(changes)@) + field_diff(
            owner@,
            name@,
            opt_field(baseline@, left),
            opt_field(current@, right),
        ),
{
    let ghost start = change_views(changes@);
    match (left, right) {
        (None, Some(_)) => {
            push_at(
                changes, CompatibilitySubjectKind::TypeField, owner, Some(name),
                CompatibilityChangeKind::TypeFieldAdded, "type-field", false, true,
                GeneratedApiImpact::Breaking, SourceMigrationImpact::SupportedOperation,
                Some("AddCustomField"), ArtifactBinaryImpact::CrossSchemaInteroperabilityNotGuaranteed,
                ExternalContractImpact::NotAssessed,
                "Custom Type field was added; its public constructor shape changes.",
                requirement_list("COMPAT-RELEASED-004", "COMPAT-RELEASED-007", Some("COMPAT-RELEASED-008")),
            );
        },
        (Some(_), None) => {
            push_at(
                changes, CompatibilitySubjectKind::TypeField, owner, Some(name),
                CompatibilityChangeKind::TypeFieldRemoved, "type-field", true, false,
                GeneratedApiImpact::Breaking, SourceMigrationImpact::DestructiveAuthorizationRequired,
                Some("DropCustomField"), ArtifactBinaryImpact::CrossSchemaInteroperabilityNotGuaranteed,
                ExternalContractImpact::ExternalPolicyRequired,
                "Custom Type field was removed; no rename lineage is inferred.",
                requirement_list("COMPAT-RELEASED-004", "COMPAT-RELEASED-007", Some("COMPAT-RELEASED-008")),
            );
        },
        (Some(l), Some(r)) => {
            let a = &baseline[l];
            let b = &current[r];
            let ghost before_base = change_views(changes@);
            if !str_eq(a.base_type.as_str(), b.base_type.as_str()) {
                push_at(
                    changes, CompatibilitySubjectKind::TypeField, owner, Some(name),
                    CompatibilityChangeKind::TypeFieldShapeChanged, "type-field", true, true,
                    GeneratedApiImpact::Breaking, SourceMigrationImpact::ManualActionRequired, None,
                    ArtifactBinaryImpact::CrossSchemaInteroperabilityNotGuaranteed,
                    ExternalContractImpact::ExternalPolicyRequired,
                    "Custom Type field base type changed.",
                    requirement_list("COMPAT-RELEASED-007", "COMPAT-RELEASED-008", Some("COMPAT-RELEASED-009")),
                );
            }
            let ghost before_modifier = change_views(changes@);
            if a.modifier != b.modifier {
                push_at(
                    changes, CompatibilitySubjectKind::TypeField, owner, Some(name),
                    CompatibilityChangeKind::TypeFieldShapeChanged, "type-field", true, true,
                    GeneratedApiImpact::Breaking, SourceMigrationImpact::ManualActionRequired, None,
                    ArtifactBinaryImpact::CrossSchemaInteroperabilityNotGuaranteed,
                    ExternalContractImpact::ExternalPolicyRequired,
                    "Custom Type field modifier changed.",
                    requirement_list("COMPAT-RELEASED-007", "COMPAT-RELEASED-008", Some("COMPAT-RELEASED-009")),
                );
            }
            let ghost before_key = change_views(changes@);
            if a.key != b.key {
                push_at(
                    changes, CompatibilitySubjectKind::TypeField, owner, Some(name),
                    CompatibilityChangeKind::TypeFieldMessagePackKeyChanged, "type-field", true, true,
                    GeneratedApiImpact::Unchanged, SourceMigrationImpact::NotRequired, None,
                    ArtifactBinaryImpact::CrossSchemaInteroperabilityNotGuaranteed,
                    ExternalContractImpact::ExternalPolicyRequired,
                    "Custom Type MessagePack key changed without changing logical field identity.",
                    requirement_list("COMPAT-RELEASED-004", "COMPAT-RELEASED-005", Some("COMPAT-RELEASED-009")),
                );
            }
            proof {
                assert(change_views(changes@) =~= start + field_diff(owner@, name@, opt_field(baseline@, left), opt_field(current@, right)));
            }
        },
        (None, None) => {
            proof {
                assert(change_views(changes@) =~= start + Seq::<ChangeView>::empty());
            }
        },
    }
}

pub proof fn lemma_texts_deep_view(v: Vec<String>)
    ensures
        v.deep_view() == texts(v@),
        texts(v@).len() == v@.len(),
        forall|i: int| 0 <= i < v@.len() ==> #[trigger] texts(v@)[i] == v@[i]@,
{
    assert(v.deep_view() =~= texts(v@));
}

/// Whether both lists hold the same names (as sets).
pub(crate) fn same_name_set(a: &Vec<String>, b: &Vec<String>) -> (same: bool)
    ensures
        same == (texts(a@).to_set() == texts(b@).to_set()),
{
    proof {
        lemma_texts_deep_view(*a);
        lemma_texts_deep_view(*b);
    }
    let mut i: usize = 0;
    while i < a.len()
        invariant
            i <= a@.len(),
            a.deep_view() == texts(a@),
            b.deep_view() == texts(b@),
            forall|j: int| 0 <= j < i ==> texts(b@).contains(#[trigger] texts(a@)[j]),
        decreases a@.len() - i,
    {
        if !strings_contain(b, a[i].as_str()) {
            proof {
                assert(texts(a@).to_set().contains(texts(a@)[i as int]));
            }
            return false;
        }
        i = i + 1;
    }
    let mut k: usize = 0;
    while k < b.len()
        invariant
            k <= b@.len(),
            a.deep_view() == texts(a@),
            b.deep_view() == texts(b@),
            forall|j: int| 0 <= j < a@.len() ==> texts(b@).contains(#[trigger] texts(a@)[j]),
            forall|j: int| 0 <= j < k ==> texts(a@).contains(#[trigger] texts(b@)[j]),
        decreases b@.len() - k,
    {
        if !strings_contain(a, b[k].as_str()) {
            proof {
                assert(texts(b@).to_set().contains(texts(b@)[k as int]));
            }
            return false;
        }
        k = k + 1;
    }
    proof {
        assert forall|x: Seq<char>| texts(a@).to_set().contains(x) <==> texts(b@).to_set().contains(x) by {
            if texts(a@).contains(x) {
                let j = choose|j: int| 0 <= j < texts(a@).len() && texts(a@)[j] == x;
                assert(texts(b@).contains(texts(a@)[j]));
            }
            if texts(b@).contains(x) {
                let j = choose|j: int| 0 <= j < texts(b@).len() && texts(b@)[j] == x;
                assert(texts(a@).contains(texts(b@)[j]));
            }
        }
        assert(texts(a@).to_set() =~= texts(b@).to_set());
    }
    true
}

/// Whether two lists hold the same names in the same order.
pub(crate) fn same_names(a: &Vec<String>, b: &Vec<String>) -> (same: bool)
    ensures
        same == (texts(a@) == texts(b@)),
{
    proof {
        lemma_texts_deep_view(*a);
        lemma_texts_deep_view(*b);
    }
    if a.len() != b.len() {
        return false;
    }
    let mut i: usize = 0;
    while i < a.len()
        invariant
            a@.len() == b@.len(),
            i <= a@.len(),
            forall|j: int| 0 <= j < i ==> texts(a@)[j] == texts(b@)[j],
        decreases a@.len() - i,
    {
        if !str_eq(a[i].as_str(), b[i].as_str()) {
            proof {
                assert(texts(a@)[i as int] != texts(b@)[i as int]);
            }
            return false;
        }
        i = i + 1;
    }
    proof {
        assert(texts(a@) =~= texts(b@));
    }
    true
}

/// Compares the fields of two versions of Custom Type `owner`: by name,
/// in ascending name order, then the declaration order.
pub fn compare_type_fields(
    owner: &str,
    baseline: &Vec<ResolvedField>,
    current: &Vec<ResolvedField>,
    changes: &mut Vec<CompatibilityChange>,
)
    ensures
        change_views(final(changes)@) == change_views(old(changes)@) + type_field_changes(owner@, baseline@, current@),
{
    let left_names = names_of_fields(baseline);
    let right_names = names_of_fields(current);
    let names = union_ascending(&left_names, &right_names);
    let ghost f = field_diff_by_name(owner@, baseline@, current@);
    let ghost all = texts(names@);
    let ghost start = change_views(changes@);
    let mut i: usize = 0;
    while i < names.len()
        invariant
            i <= names@.len(),
            all == texts(names@),
            f == field_diff_by_name(owner@, baseline@, current@),
            change_views(changes@) == start + all.take(i as int).map_values(f).flatten(),
        decreases names@.len() - i,
    {
        let name = names[i].as_str();
        let left = find_last_field(baseline, name);
        let right = find_last_field(current, name);
        push_field_diff(changes, owner, name, baseline, left, current, right);
        proof {
            lemma_texts_deep_view(names);
            assert(name@ == all[i as int]);
            assert(last_field(baseline@, name@) == opt_field(baseline@, left));
            assert(last_field(current@, name@) == opt_field(current@, right));
            assert(f(all[i as int]) == field_diff(owner@, name@, opt_field(baseline@, left), opt_field(current@, right)));
            assert(all.take(i + 1).map_values(f) =~= all.take(i as int).map_values(f).push(f(all[i as int])));
            lemma_flatten_push(all.take(i as int).map_values(f), f(all[i as int]));
        }
        i = i + 1;
    }
    proof {
        assert(all.take(all.len() as int) =~= all);
    }
    let ghost mid = change_views(changes@);
    if !same_names(&left_names, &right_names) && baseline.len() == current.len() && same_name_set(&left_names, &right_names) {
        push_at(
            changes, CompatibilitySubjectKind::Type, owner, None,
            CompatibilityChangeKind::TypeFieldDeclarationReordered, "type", true, true,
            GeneratedApiImpact::Breaking, SourceMigrationImpact::NotRequired, None,
            ArtifactBinaryImpact::RebuildRequired, ExternalContractImpact::NotAssessed,
            "Custom Type declaration order changed; public constructor parameter order follows it.",
            requirement_list("COMPAT-RELEASED-007", "COMPAT-RELEASED-009", None),
        );
        proof {
            assert(change_views(changes@) =~= start + type_field_changes(owner@, baseline@, current@));
        }
    } else {
        proof {
            assert(change_views(changes@) =~= start + type_field_changes(owner@, baseline@, current@));
        }
    }
}

// ---------------------------------------------------------------------------
// Enum and Flags members

pub open spec fn member_names(members: Seq<ResolvedEnumMember>) -> Seq<Seq<char>> {
    members.map_values(|m: ResolvedEnumMember| m.name@)
}

/// The value of the last member called `name`.
pub open spec fn last_member_value(members: Seq<ResolvedEnumMember>, name: Seq<char>) -> Option<i128>
    decreases members.len(),
{
    if members.len() == 0 {
        None
    } else if members.last().name@ == name {
        Some(members.last().value)
    } else {
        last_member_value(members.drop_last(), name)
    }
}

/// The changes of member `name` of Enum / Flags type `owner`.
pub open spec fn member_diff(owner: Seq<char>, name: Seq<char>, baseline: Option<i128>, current: Option<i128>) -> Seq<ChangeView> {
    match (baseline, current) {
        (None, Some(_)) => seq![change_at(
            CompatibilitySubjectKind::Type, owner, Some(name), CompatibilityChangeKind::EnumMemberAdded,
            "enum-member"@, false, true, GeneratedApiImpact::Additive, SourceMigrationImpact::SupportedOperation,
            Some("AddEnumMember"@), ArtifactBinaryImpact::CrossSchemaInteroperabilityNotGuaranteed,
            ExternalContractImpact::ExternalPolicyRequired, "Enum or Flags member was added."@,
            seq!["COMPAT-RELEASED-004"@, "COMPAT-RELEASED-007"@, "COMPAT-RELEASED-010"@],
        )],
        (Some(_), None) => seq![change_at(
            CompatibilitySubjectKind::Type, owner, Some(name), CompatibilityChangeKind::EnumMemberRemoved,
            "enum-member"@, true, false, GeneratedApiImpact::Breaking,
            SourceMigrationImpact::DestructiveAuthorizationRequired, Some("DropEnumMember"@),
            ArtifactBinaryImpact::CrossSchemaInteroperabilityNotGuaranteed,
            ExternalContractImpact::ExternalPolicyRequired, "Enum or Flags member was removed; no rename is inferred."@,
            seq!["COMPAT-RELEASED-004"@, "COMPAT-RELEASED-007"@, "COMPAT-RELEASED-010"@],
        )],
        (Some(left), Some(right)) => if left != right {
            seq![change_at(
                CompatibilitySubjectKind::Type, owner, Some(name), CompatibilityChangeKind::EnumMemberValueChanged,
                "enum-member"@, true, true, GeneratedApiImpact::Breaking, SourceMigrationImpact::ManualActionRequired,
                None, ArtifactBinaryImpact::CrossSchemaInteroperabilityNotGuaranteed,
                ExternalContractImpact::ExternalPolicyRequired, "Enum or Flags member numeric value changed."@,
                seq!["COMPAT-RELEASED-007"@, "COMPAT-RELEASED-009"@, "COMPAT-RELEASED-010"@],
            )]
        } else {
            Seq::empty()
        },
        (None, None) => Seq::empty(),
    }
}

pub open spec fn member_diff_by_name(owner: Seq<char>, baseline: Seq<ResolvedEnumMember>, current: Seq<ResolvedEnumMember>) -> spec_fn(Seq<char>) -> Seq<ChangeView> {
    |name: Seq<char>| member_diff(owner, name, last_member_value(baseline, name), last_member_value(current, name))
}

/// The changes between the members of two versions of `owner`, by member
/// name in ascending order.
pub open spec fn enum_member_changes(owner: Seq<char>, baseline: Seq<ResolvedEnumMember>, current: Seq<ResolvedEnumMember>) -> Seq<ChangeView> {
    ascending_union(member_names(baseline), member_names(current)).map_values(
        member_diff_by_name(owner, baseline, current),
    ).flatten()
}

fn names_of_members(members: &Vec<ResolvedEnumMember>) -> (names: Vec<String>)
    ensures
        texts(names@) == member_names(members@),
{
    let mut names: Vec<String> = Vec::new();
    let mut i: usize = 0;
    while i < members.len()
        invariant
            i <= members@.len(),
            texts(names@) == member_names(members@).take(i as int),
        decreases members@.len() - i,
    {
        let ghost before = names@;
        names.push(members[i].name.clone());
        proof {
            assert(names@ =~= before.push(members@[i as int].name));
            assert(texts(names@) =~= texts(before).push(members@[i as int].name@));
            assert(member_names(members@).take(i + 1) =~= member_names(members@).take(i as int).push(members@[i as int].name@));
        }
        i = i + 1;
    }
    proof {
        assert(member_names(members@).take(members@.len() as int) =~= member_names(members@));
    }
    names
}

/// The value of the last member called `name`.
fn find_member_value(members: &Vec<ResolvedEnumMember>, name: &str) -> (found: Option<i128>)
    ensures
        found == last_member_value(members@, name@),
{
    let mut n: usize = members.len();
    proof {
        assert(members@.take(n as int) =~= members@);
    }
    while n > 0
        invariant
            n <= members@.len(),
            last_member_value(members@, name@) == last_member_value(members@.take(n as int), name@),
        decreases n,
    {
        proof {
            assert(members@.take(n as int).drop_last() =~= members@.take(n - 1));
        }
        if str_eq(members[n - 1].name.as_str(), name) {
            return Some(members[n - 1].value);
        }
        n = n - 1;
    }
    None
}

fn push_member_diff(changes: &mut Vec<CompatibilityChange>, owner: &str, name: &str, left: Option<i128>, right: Option<i128>)
    ensures
        change_views(final(changes)@) == change_views(old(changes)@) + member_diff(owner@, name@, left, right),
{
    let ghost start = change_views(changes@);
    match (left, right) {
        (None, Some(_)) => {
            push_at(
                changes, CompatibilitySubjectKind::Type, owner, Some(name),
                CompatibilityChangeKind::EnumMemberAdded, "enum-member", false, true,
                GeneratedApiImpact::Additive, SourceMigrationImpact::SupportedOperation, Some("AddEnumMember"),
                ArtifactBinaryImpact::CrossSchemaInteroperabilityNotGuaranteed,
                ExternalContractImpact::ExternalPolicyRequired, "Enum or Flags member was added.",
                requirement_list("COMPAT-RELEASED-004", "COMPAT-RELEASED-007", Some("COMPAT-RELEASED-010")),
            );
        },
        (Some(_), None) => {
            push_at(
                changes, CompatibilitySubjectKind::Type, owner, Some(name),
                CompatibilityChangeKind::EnumMemberRemoved, "enum-member", true, false,
                GeneratedApiImpact::Breaking, SourceMigrationImpact::DestructiveAuthorizationRequired,
                Some("DropEnumMember"), ArtifactBinaryImpact::CrossSchemaInteroperabilityNotGuaranteed,
                ExternalContractImpact::ExternalPolicyRequired, "Enum or Flags member was removed; no rename is inferred.",
                requirement_list("COMPAT-RELEASED-004", "COMPAT-RELEASED-007", Some("COMPAT-RELEASED-010")),
            );
        },
        (Some(l), Some(r)) => {
            if l != r {
                push_at(
                    changes, CompatibilitySubjectKind::Type, owner, Some(name),
                    CompatibilityChangeKind::EnumMemberValueChanged, "enum-member", true, true,
                    GeneratedApiImpact::Breaking, SourceMigrationImpact::ManualActionRequired, None,
                    ArtifactBinaryImpact::CrossSchemaInteroperabilityNotGuaranteed,
                    ExternalContractImpact::ExternalPolicyRequired, "Enum or Flags member numeric value changed.",
                    requirement_list("COMPAT-RELEASED-007", "COMPAT-RELEASED-009", Some("COMPAT-RELEASED-010")),
                );
            } else {
                proof {
                    assert(change_views(changes@) =~= start + Seq::<ChangeView>::empty());
                }
            }
        },
        (None, None) => {
            proof {
                assert(change_views(changes@) =~= start + Seq::<ChangeView>::empty());
            }
        },
    }
}

/// Compares the members of two versions of Enum / Flags type `owner`, by
/// member name in ascending order.
pub fn compare_enum_members(
    owner: &str,
    baseline: &Vec<ResolvedEnumMember>,
    current: &Vec<ResolvedEnumMember>,
    changes: &mut Vec<CompatibilityChange>,
)
    ensures
        change_views(final(changes)@) == change_views(old(changes)@) + enum_member_changes(owner@, baseline@, current@),
{
    let left_names = names_of_members(baseline);
    let right_names = names_of_members(current);
    let names = union_ascending(&left_names, &right_names);
    let ghost f = member_diff_by_name(owner@, baseline@, current@);
    let ghost all = texts(names@);
    let ghost start = change_views(changes@);
    let mut i: usize = 0;
    while i < names.len()
        invariant
            i <= names@.len(),
            all == texts(names@),
            f == member_diff_by_name(owner@, baseline@, current@),
            change_views(changes@) == start + all.take(i as int).map_values(f).flatten(),
        decreases names@.len() - i,
    {
        let name = names[i].as_str();
        let left = find_member_value(baseline, name);
        let right = find_member_value(current, name);
        push_member_diff(changes, owner, name, left, right);
        proof {
            lemma_texts_deep_view(names);
            assert(name@ == all[i as int]);
            assert(f(all[i as int]) == member_diff(owner@, name@, left, right));
            assert(all.take(i + 1).map_values(f) =~= all.take(i as int).map_values(f).push(f(all[i as int])));
            lemma_flatten_push(all.take(i as int).map_values(f), f(all[i as int]));
        }
        i = i + 1;
    }
    proof {
        assert(all.take(all.len() as int) =~= all);
    }
}

// ---------------------------------------------------------------------------
// Type declarations

/// The changes between two versions of the type declared as `name`.
pub open spec fn type_changes(name: Seq<char>, baseline: ResolvedType, current: ResolvedType) -> Seq<ChangeView> {
    match (baseline, current) {
        (
            ResolvedType::ValueObject { underlying: lu, conversions: lc, .. },
            ResolvedType::ValueObject { underlying: ru, conversions: rc, .. },
        ) => (if lu != ru {
            seq![change_at(
                CompatibilitySubjectKind::Type, name, None, CompatibilityChangeKind::TypeUnderlyingChanged,
                "type"@, true, true, GeneratedApiImpact::Breaking, SourceMigrationImpact::ManualActionRequired, None,
                ArtifactBinaryImpact::CrossSchemaInteroperabilityNotGuaranteed,
                ExternalContractImpact::ExternalPolicyRequired, "Value Object underlying primitive changed."@,
                seq!["COMPAT-RELEASED-007"@, "COMPAT-RELEASED-009"@, "COMPAT-RELEASED-010"@],
            )]
        } else {
            Seq::empty()
        }) + (if lc != rc {
            seq![change_at(
                CompatibilitySubjectKind::Type, name, None, CompatibilityChangeKind::TypeConversionChanged,
                "type"@, true, true,
                if (!lc.from_underlying_implicit && rc.from_underlying_implicit)
                    || (!lc.to_underlying_implicit && rc.to_underlying_implicit) {
                    GeneratedApiImpact::Additive
                } else {
                    GeneratedApiImpact::Breaking
                },
                SourceMigrationImpact::SupportedOperation, Some("SetValueObjectConversions"@),
                ArtifactBinaryImpact::RebuildRequired, ExternalContractImpact::NotAssessed,
                "Value Object implicit conversion surface changed."@,
                seq!["COMPAT-RELEASED-007"@, "COMPAT-RELEASED-008"@],
            )]
        } else {
            Seq::empty()
        }),
        (ResolvedType::Custom { fields: left, .. }, ResolvedType::Custom { fields: right, .. }) =>
            type_field_changes(name, left@, right@),
        (
            ResolvedType::Enum { underlying: lu, members: lm, .. },
            ResolvedType::Enum { underlying: ru, members: rm, .. },
        ) => enum_changes(name, lu, lm@, ru, rm@),
        (
            ResolvedType::Flags { underlying: lu, members: lm, .. },
            ResolvedType::Flags { underlying: ru, members: rm, .. },
        ) => enum_changes(name, lu, lm@, ru, rm@),
        _ => seq![change_at(
            CompatibilitySubjectKind::Type, name, None, CompatibilityChangeKind::TypeShapeChanged,
            "type"@, true, true, GeneratedApiImpact::Breaking, SourceMigrationImpact::ManualActionRequired, None,
            ArtifactBinaryImpact::CrossSchemaInteroperabilityNotGuaranteed,
            ExternalContractImpact::ExternalPolicyRequired, "Type category or generated type shape changed."@,
            seq!["COMPAT-RELEASED-007"@, "COMPAT-RELEASED-008"@, "COMPAT-RELEASED-009"@],
        )],
    }
}

/// The changes between two versions of an Enum or of a Flags type.
pub open spec fn enum_changes(
    name: Seq<char>,
    left_underlying: PrimitiveType,
    left_members: Seq<ResolvedEnumMember>,
    right_underlying: PrimitiveType,
    right_members: Seq<ResolvedEnumMember>,
) -> Seq<ChangeView> {
    (if left_underlying != right_underlying {
        seq![change_at(
            CompatibilitySubjectKind::Type, name, None, CompatibilityChangeKind::TypeUnderlyingChanged,
            "type"@, true, true, GeneratedApiImpact::Breaking, SourceMigrationImpact::ManualActionRequired, None,
            ArtifactBinaryImpact::CrossSchemaInteroperabilityNotGuaranteed,
            ExternalContractImpact::ExternalPolicyRequired, "Enum or Flags underlying primitive changed."@,
            seq!["COMPAT-RELEASED-007"@, "COMPAT-RELEASED-009"@, "COMPAT-RELEASED-010"@],
        )]
    } else {
        Seq::empty()
    }) + enum_member_changes(name, left_members, right_members)
}

fn compare_enum_type(
    name: &str,
    left_underlying: PrimitiveType,
    left_members: &Vec<ResolvedEnumMember>,
    right_underlying: PrimitiveType,
    right_members: &Vec<ResolvedEnumMember>,
    changes: &mut Vec<CompatibilityChange>,
)
    ensures
        change_views(final(changes)@) == change_views(old(changes)@) + enum_changes(
            name@,
            left_underlying,
            left_members@,
            right_underlying,
            right_members@,
        ),
{
    let ghost start = change_views(changes@);
    if left_underlying != right_underlying {
        push_at(
            changes, CompatibilitySubjectKind::Type, name, None,
            CompatibilityChangeKind::TypeUnderlyingChanged, "type", true, true,
            GeneratedApiImpact::Breaking, SourceMigrationImpact::ManualActionRequired, None,
            ArtifactBinaryImpact::CrossSchemaInteroperabilityNotGuaranteed,
            ExternalContractImpact::ExternalPolicyRequired, "Enum or Flags underlying primitive changed.",
            requirement_list("COMPAT-RELEASED-007", "COMPAT-RELEASED-009", Some("COMPAT-RELEASED-010")),
        );
    }
    let ghost mid = change_views(changes@);
    compare_enum_members(name, left_members, right_members, changes);
    proof {
        assert(change_views(changes@) =~= start + enum_changes(name@, left_underlying, left_members@, right_underlying, right_members@));
    }
}

/// Compares two versions of the type declared as `name`.
pub fn compare_type(name: &str, baseline: &ResolvedType, current: &ResolvedType, changes: &mut Vec<CompatibilityChange>)
    ensures
        change_views(final(changes)@) == change_views(old(changes)@) + type_changes(name@, *baseline, *current),
{
    let ghost start = change_views(changes@);
    match (baseline, current) {
        (
            ResolvedType::ValueObject { underlying: lu, conversions: lc, .. },
            ResolvedType::ValueObject { underlying: ru, conversions: rc, .. },
        ) => {
            if *lu != *ru {
                push_at(
                    changes, CompatibilitySubjectKind::Type, name, None,
                    CompatibilityChangeKind::TypeUnderlyingChanged, "type", true, true,
                    GeneratedApiImpact::Breaking, SourceMigrationImpact::ManualActionRequired, None,
                    ArtifactBinaryImpact::CrossSchemaInteroperabilityNotGuaranteed,
                    ExternalContractImpact::ExternalPolicyRequired, "Value Object underlying primitive changed.",
                    requirement_list("COMPAT-RELEASED-007", "COMPAT-RELEASED-009", Some("COMPAT-RELEASED-010")),
                );
            }
            let ghost mid = change_views(changes@);
            if *lc != *rc {
                let impact = if (!lc.from_underlying_implicit && rc.from_underlying_implicit)
                    || (!lc.to_underlying_implicit && rc.to_underlying_implicit) {
                    GeneratedApiImpact::Additive
                } else {
                    GeneratedApiImpact::Breaking
                };
                push_at(
                    changes, CompatibilitySubjectKind::Type, name, None,
                    CompatibilityChangeKind::TypeConversionChanged, "type", true, true, impact,
                    SourceMigrationImpact::SupportedOperation, Some("SetValueObjectConversions"),
                    ArtifactBinaryImpact::RebuildRequired, ExternalContractImpact::NotAssessed,
                    "Value Object implicit conversion surface changed.",
                    requirement_list("COMPAT-RELEASED-007", "COMPAT-RELEASED-008", None),
                );
            }
            proof {
                assert(change_views(changes@) =~= start + type_changes(name@, *baseline, *current));
            }
        },
        (ResolvedType::Custom { fields: left, .. }, ResolvedType::Custom { fields: right, .. }) => {
            compare_type_fields(name, left, right, changes);
        },
        (
            ResolvedType::Enum { underlying: lu, members: lm, .. },
            ResolvedType::Enum { underlying: ru, members: rm, .. },
        ) => {
            compare_enum_type(name, *lu, lm, *ru, rm, changes);
        },
        (
            ResolvedType::Flags { underlying: lu, members: lm, .. },
            ResolvedType::Flags { underlying: ru, members: rm, .. },
        ) => {
            compare_enum_type(name, *lu, lm, *ru, rm, changes);
        },
        _ => {
            push_at(
                changes, CompatibilitySubjectKind::Type, name, None,
                CompatibilityChangeKind::TypeShapeChanged, "type", true, true,
                GeneratedApiImpact::Breaking, SourceMigrationImpact::ManualActionRequired, None,
                ArtifactBinaryImpact::CrossSchemaInteroperabilityNotGuaranteed,
                ExternalContractImpact::ExternalPolicyRequired, "Type category or generated type shape changed.",
                requirement_list("COMPAT-RELEASED-007", "COMPAT-RELEASED-008", Some("COMPAT-RELEASED-009")),
            );
        },
    }
}

/// The declared names of a type list.
pub open spec fn type_keys(types: Seq<(String, ResolvedType)>) -> Seq<Seq<char>> {
    types.map_values(|t: (String, ResolvedType)| t.0@)
}

/// The last type declared as `name` (a map keyed by name keeps the last one).
pub open spec fn last_type(types: Seq<(String, ResolvedType)>, name: Seq<char>) -> Option<ResolvedType>
    decreases types.len(),
{
    if types.len() == 0 {
        None
    } else if types.last().0@ == name {
        Some(types.last().1)
    } else {
        last_type(types.drop_last(), name)
    }
}

/// The changes of the type declared as `name`.
pub open spec fn type_diff(name: Seq<char>, baseline: Option<ResolvedType>, current: Option<ResolvedType>) -> Seq<ChangeView> {
    match (baseline, current) {
        (None, Some(_)) => seq![change_at(
            CompatibilitySubjectKind::Type, name, None, CompatibilityChangeKind::TypeAdded,
            "type"@, false, true, GeneratedApiImpact::Additive, SourceMigrationImpact::ManualActionRequired, None,
            ArtifactBinaryImpact::CrossSchemaInteroperabilityNotGuaranteed, ExternalContractImpact::NotAssessed,
            "Type declaration was added."@,
            seq!["COMPAT-RELEASED-004"@, "COMPAT-RELEASED-007"@, "COMPAT-RELEASED-008"@],
        )],
        (Some(_), None) => seq![change_at(
            CompatibilitySubjectKind::Type, name, None, CompatibilityChangeKind::TypeRemoved,
            "type"@, true, false, GeneratedApiImpact::Breaking, SourceMigrationImpact::ManualActionRequired, None,
            ArtifactBinaryImpact::CrossSchemaInteroperabilityNotGuaranteed, ExternalContractImpact::NotAssessed,
            "Type declaration was removed; no rename lineage is inferred."@,
            seq!["COMPAT-RELEASED-004"@, "COMPAT-RELEASED-007"@, "COMPAT-RELEASED-009"@],
        )],
        (Some(left), Some(right)) => type_changes(name, left, right),
        (None, None) => Seq::empty(),
    }
}

pub open spec fn type_diff_by_name(baseline: Seq<(String, ResolvedType)>, current: Seq<(String, ResolvedType)>) -> spec_fn(Seq<char>) -> Seq<ChangeView> {
    |name: Seq<char>| type_diff(name, last_type(baseline, name), last_type(current, name))
}

/// The changes between the declared types of two snapshots, by type name in
/// ascending order.
pub open spec fn declared_type_changes(baseline: Seq<(String, ResolvedType)>, current: Seq<(String, ResolvedType)>) -> Seq<ChangeView> {
    ascending_union(type_keys(baseline), type_keys(current)).map_values(type_diff_by_name(baseline, current)).flatten()
}

fn keys_of_types(types: &Vec<(String, ResolvedType)>) -> (names: Vec<String>)
    ensures
        texts(names@) == type_keys(types@),
{
    let mut names: Vec<String> = Vec::new();
    let mut i: usize = 0;
    while i < types.len()
        invariant
            i <= types@.len(),
            texts(names@) == type_keys(types@).take(i as int),
        decreases types@.len() - i,
    {
        let ghost before = names@;
        names.push(types[i].0.clone());
        proof {
            assert(names@ =~= before.push(types@[i as int].0));
            assert(texts(names@) =~= texts(before).push(types@[i as int].0@));
            assert(type_keys(types@).take(i + 1) =~= type_keys(types@).take(i as int).push(types@[i as int].0@));
        }
        i = i + 1;
    }
    proof {
        assert(type_keys(types@).take(types@.len() as int) =~= type_keys(types@));
    }
    names
}

fn find_last_type(types: &Vec<(String, ResolvedType)>, name: &str) -> (found: Option<usize>)
    ensures
        match found {
            Some(i) => i < types@.len() && last_type(types@, name@) == Some(types@[i as int].1),
            None => last_type(types@, name@) is None,
        },
{
    let mut n: usize = types.len();
    proof {
        assert(types@.take(n as int) =~= types@);
    }
    while n > 0
        invariant
            n <= types@.len(),
            last_type(types@, name@) == last_type(types@.take(n as int), name@),
        decreases n,
    {
        proof {
            assert(types@.take(n as int).drop_last() =~= types@.take(n - 1));
        }
        if str_eq(types[n - 1].0.as_str(), name) {
            return Some(n - 1);
        }
        n = n - 1;
    }
    None
}

/// Compares the declared types of two snapshots, by type name in ascending
/// order: added, removed, or changed as `compare_type` says.
pub fn compare_types(
    baseline: &Vec<(String, ResolvedType)>,
    current: &Vec<(String, ResolvedType)>,
    changes: &mut Vec<CompatibilityChange>,
)
    ensures
        change_views(final(changes)@) == change_views(old(changes)@) + declared_type_changes(baseline@, current@),
{
    let left_names = keys_of_types(baseline);
    let right_names = keys_of_types(current);
    let names = union_ascending(&left_names, &right_names);
    let ghost f = type_diff_by_name(baseline@, current@);
    let ghost all = texts(names@);
    let ghost start = change_views(changes@);
    let mut i: usize = 0;
    while i < names.len()
        invariant
            i <= names@.len(),
            all == texts(names@),
            f == type_diff_by_name(baseline@, current@),
            change_views(changes@) == start + all.take(i as int).map_values(f).flatten(),
        decreases names@.len() - i,
    {
        let name = names[i].as_str();
        let left = find_last_type(baseline, name);
        let right = find_last_type(current, name);
        let ghost before = change_views(changes@);
        match (left, right) {
            (None, Some(_)) => {
                push_at(
                    changes, CompatibilitySubjectKind::Type, name, None, CompatibilityChangeKind::TypeAdded,
                    "type", false, true, GeneratedApiImpact::Additive, SourceMigrationImpact::ManualActionRequired,
                    None, ArtifactBinaryImpact::CrossSchemaInteroperabilityNotGuaranteed,
                    ExternalContractImpact::NotAssessed, "Type declaration was added.",
                    requirement_list("COMPAT-RELEASED-004", "COMPAT-RELEASED-007", Some("COMPAT-RELEASED-008")),
                );
            },
            (Some(_), None) => {
                push_at(
                    changes, CompatibilitySubjectKind::Type, name, None, CompatibilityChangeKind::TypeRemoved,
                    "type", true, false, GeneratedApiImpact::Breaking, SourceMigrationImpact::ManualActionRequired,
                    None, ArtifactBinaryImpact::CrossSchemaInteroperabilityNotGuaranteed,
                    ExternalContractImpact::NotAssessed, "Type declaration was removed; no rename lineage is inferred.",
                    requirement_list("COMPAT-RELEASED-004", "COMPAT-RELEASED-007", Some("COMPAT-RELEASED-009")),
                );
            },
            (Some(l), Some(r)) => {
                compare_type(name, &baseline[l].1, &current[r].1, changes);
            },
            (None, None) => {},
        }
        proof {
            lemma_texts_deep_view(names);
            assert(name@ == all[i as int]);
            assert(change_views(changes@) =~= before + type_diff(name@, last_type(baseline@, name@), last_type(current@, name@)));
            assert(all.take(i + 1).map_values(f) =~= all.take(i as int).map_values(f).push(f(all[i as int])));
            lemma_flatten_push(all.take(i as int).map_values(f), f(all[i as int]));
        }
        i = i + 1;
    }
    proof {
        assert(all.take(all.len() as int) =~= all);
    }
}

// ---------------------------------------------------------------------------
// Canonical record data

/// The table names that own data.
pub open spec fn data_keys(data: Seq<(String, Vec<String>)>) -> Seq<Seq<char>> {
    data.map_values(|d: (String, Vec<String>)| d.0@)
}

/// The canonical records of the last entry for `table`.
pub open spec fn last_data(data: Seq<(String, Vec<String>)>, table: Seq<char>) -> Option<Seq<Seq<char>>>
    decreases data.len(),
{
    if data.len() == 0 {
        None
    } else if data.last().0@ == table {
        Some(data.last().1.deep_view())
    } else {
        last_data(data.drop_last(), table)
    }
}

/// The data change of `table`: only for a table that both snapshots declare.
pub open spec fn data_diff(
    table: Seq<char>,
    declared_in_both: bool,
    baseline: Option<Seq<Seq<char>>>,
    current: Option<Seq<Seq<char>>>,
) -> Seq<ChangeView> {
    if declared_in_both && baseline != current {
        seq![change_at(
            CompatibilitySubjectKind::Data, table, None, CompatibilityChangeKind::DataChanged,
            "data"@, true, true, GeneratedApiImpact::Unchanged, SourceMigrationImpact::NotRequired, None,
            ArtifactBinaryImpact::RebuildRequired, ExternalContractImpact::NotAssessed,
            "Canonical record values changed without a schema/API change."@,
            seq!["COMPAT-RELEASED-003"@, "COMPAT-RELEASED-009"@],
        )]
    } else {
        Seq::empty()
    }
}

pub open spec fn data_diff_by_table(
    baseline_tables: Seq<Seq<char>>,
    baseline: Seq<(String, Vec<String>)>,
    current_tables: Seq<Seq<char>>,
    current: Seq<(String, Vec<String>)>,
) -> spec_fn(Seq<char>) -> Seq<ChangeView> {
    |table: Seq<char>| data_diff(
        table,
        baseline_tables.contains(table) && current_tables.contains(table),
        last_data(baseline, table),
        last_data(current, table),
    )
}

/// The data changes between two snapshots, by table name in ascending order.
pub open spec fn data_changes(
    baseline_tables: Seq<Seq<char>>,
    baseline: Seq<(String, Vec<String>)>,
    current_tables: Seq<Seq<char>>,
    current: Seq<(String, Vec<String>)>,
) -> Seq<ChangeView> {
    ascending_union(data_keys(baseline), data_keys(current)).map_values(
        data_diff_by_table(baseline_tables, baseline, current_tables, current),
    ).flatten()
}

fn keys_of_data(data: &Vec<(String, Vec<String>)>) -> (names: Vec<String>)
    ensures
        texts(names@) == data_keys(data@),
{
    let mut names: Vec<String> = Vec::new();
    let mut i: usize = 0;
    while i < data.len()
        invariant
            i <= data@.len(),
            texts(names@) == data_keys(data@).take(i as int),
        decreases data@.len() - i,
    {
        let ghost before = names@;
        names.push(data[i].0.clone());
        proof {
            assert(names@ =~= before.push(data@[i as int].0));
            assert(texts(names@) =~= texts(before).push(data@[i as int].0@));
            assert(data_keys(data@).take(i + 1) =~= data_keys(data@).take(i as int).push(data@[i as int].0@));
        }
        i = i + 1;
    }
    proof {
        assert(data_keys(data@).take(data@.len() as int) =~= data_keys(data@));
    }
    names
}

fn find_last_data(data: &Vec<(String, Vec<String>)>, table: &str) -> (found: Option<usize>)
    ensures
        match found {
            Some(i) => i < data@.len() && last_data(data@, table@) == Some(data@[i as int].1.deep_view()),
            None => last_data(data@, table@) is None,
        },
{
    let mut n: usize = data.len();
    proof {
        assert(data@.take(n as int) =~= data@);
    }
    while n > 0
        invariant
            n <= data@.len(),
            last_data(data@, table@) == last_data(data@.take(n as int), table@),
        decreases n,
    {
        proof {
            assert(data@.take(n as int).drop_last() =~= data@.take(n - 1));
        }
        if str_eq(data[n - 1].0.as_str(), table) {
            return Some(n - 1);
        }
        n = n - 1;
    }
    None
}

/// Compares the canonical records of the tables that both snapshots declare,
/// by table name in ascending order.
pub fn compare_data(
    baseline_tables: &Vec<String>,
    baseline: &Vec<(String, Vec<String>)>,
    current_tables: &Vec<String>,
    current: &Vec<(String, Vec<String>)>,
    changes: &mut Vec<CompatibilityChange>,
)
    ensures
        change_views(final(changes)@) == change_views(old(changes)@) + data_changes(
            baseline_tables.deep_view(),
            baseline@,
            current_tables.deep_view(),
            current@,
        ),
{
    let left_names = keys_of_data(baseline);
    let right_names = keys_of_data(current);
    let names = union_ascending(&left_names, &right_names);
    let ghost f = data_diff_by_table(baseline_tables.deep_view(), baseline@, current_tables.deep_view(), current@);
    let ghost all = texts(names@);
    let ghost start = change_views(changes@);
    let mut i: usize = 0;
    while i < names.len()
        invariant
            i <= names@.len(),
            all == texts(names@),
            f == data_diff_by_table(baseline_tables.deep_view(), baseline@, current_tables.deep_view(), current@),
            change_views(changes@) == start + all.take(i as int).map_values(f).flatten(),
        decreases names@.len() - i,
    {
        let table = names[i].as_str();
        let ghost before = change_views(changes@);
        let declared = strings_contain(baseline_tables, table) && strings_contain(current_tables, table);
        if declared {
            let left = find_last_data(baseline, table);
            let right = find_last_data(current, table);
            let differs = match (left, right) {
                (Some(l), Some(r)) => {
                    proof {
                        lemma_texts_deep_view(baseline@[l as int].1);
                        lemma_texts_deep_view(current@[r as int].1);
                    }
                    !same_names(&baseline[l].1, &current[r].1)
                },
                (None, None) => false,
                _ => true,
            };
            if differs {
                push_at(
                    changes, CompatibilitySubjectKind::Data, table, None, CompatibilityChangeKind::DataChanged,
                    "data", true, true, GeneratedApiImpact::Unchanged, SourceMigrationImpact::NotRequired, None,
                    ArtifactBinaryImpact::RebuildRequired, ExternalContractImpact::NotAssessed,
                    "Canonical record values changed without a schema/API change.",
                    requirement_list("COMPAT-RELEASED-003", "COMPAT-RELEASED-009", None),
                );
            }
        }
        proof {
            lemma_texts_deep_view(names);
            assert(table@ == all[i as int]);
            assert(change_views(changes@) =~= before + f(all[i as int]));
            assert(all.take(i + 1).map_values(f) =~= all.take(i as int).map_values(f).push(f(all[i as int])));
            lemma_flatten_push(all.take(i as int).map_values(f), f(all[i as int]));
        }
        i = i + 1;
    }
    proof {
        assert(all.take(all.len() as int) =~= all);
    }
}

// ---------------------------------------------------------------------------
// Laws

pub proof fn lemma_flatten_of_empties<A>(s: Seq<Seq<A>>)
    requires
        forall|i: int| 0 <= i < s.len() ==> (#[trigger] s[i]).len() == 0,
    ensures
        s.flatten() == Seq::<A>::empty(),
    decreases s.len(),
{
    if s.len() > 0 {
        assert(s.drop_first().len() == s.len() - 1);
        assert forall|i: int| 0 <= i < s.drop_first().len() implies (#[trigger] s.drop_first()[i]).len() == 0 by {
            assert(s.drop_first()[i] == s[i + 1]);
        }
        lemma_flatten_of_empties(s.drop_first());
        assert(s[0].len() == 0);
        assert(s.flatten() =~= s.first() + s.drop_first().flatten());
        assert(s.flatten() =~= Seq::<A>::empty());
    }
}

proof fn lemma_same_fields_unchanged(owner: Seq<char>, fields: Seq<ResolvedField>)
    ensures
        type_field_changes(owner, fields, fields) == Seq::<ChangeView>::empty(),
{
    let names = ascending_union(field_names(fields), field_names(fields));
    let parts = names.map_values(field_diff_by_name(owner, fields, fields));
    assert forall|i: int| 0 <= i < parts.len() implies (#[trigger] parts[i]).len() == 0 by {
        let n = names[i];
        match last_field(fields, n) {
            Some(f) => {
                assert(field_diff(owner, n, Some(f), Some(f)) =~= Seq::<ChangeView>::empty());
            },
            None => {},
        }
    }
    lemma_flatten_of_empties(parts);
    assert(type_field_changes(owner, fields, fields) =~= Seq::<ChangeView>::empty());
}

proof fn lemma_same_members_unchanged(owner: Seq<char>, members: Seq<ResolvedEnumMember>)
    ensures
        enum_member_changes(owner, members, members) == Seq::<ChangeView>::empty(),
{
    let names = ascending_union(member_names(members), member_names(members));
    let parts = names.map_values(member_diff_by_name(owner, members, members));
    assert forall|i: int| 0 <= i < parts.len() implies (#[trigger] parts[i]).len() == 0 by {
        let n = names[i];
        assert(member_diff(owner, n, last_member_value(members, n), last_member_value(members, n)).len() == 0);
    }
    lemma_flatten_of_empties(parts);
}

proof fn lemma_same_type_unchanged(name: Seq<char>, t: ResolvedType)
    ensures
        type_changes(name, t, t) == Seq::<ChangeView>::empty(),
{
    match t {
        ResolvedType::ValueObject { .. } => {
            assert(type_changes(name, t, t) =~= Seq::<ChangeView>::empty());
        },
        ResolvedType::Custom { fields, .. } => {
            lemma_same_fields_unchanged(name, fields@);
        },
        ResolvedType::Enum { members, .. } => {
            lemma_same_members_unchanged(name, members@);
            assert(type_changes(name, t, t) =~= Seq::<ChangeView>::empty());
        },
        ResolvedType::Flags { members, .. } => {
            lemma_same_members_unchanged(name, members@);
            assert(type_changes(name, t, t) =~= Seq::<ChangeView>::empty());
        },
    }
}

/// Comparing a snapshot's declared types and canonical records with
/// themselves reports no change.
pub proof fn law_identical_snapshot_reports_no_change(
    types: Seq<(String, ResolvedType)>,
    tables: Seq<Seq<char>>,
    data: Seq<(String, Vec<String>)>,
)
    ensures
        declared_type_changes(types, types) == Seq::<ChangeView>::empty(),
        data_changes(tables, data, tables, data) == Seq::<ChangeView>::empty(),
{
    let names = ascending_union(type_keys(types), type_keys(types));
    let parts = names.map_values(type_diff_by_name(types, types));
    assert forall|i: int| 0 <= i < parts.len() implies (#[trigger] parts[i]).len() == 0 by {
        let n = names[i];
        match last_type(types, n) {
            Some(t) => lemma_same_type_unchanged(n, t),
            None => {},
        }
    }
    lemma_flatten_of_empties(parts);
    let tables_seen = ascending_union(data_keys(data), data_keys(data));
    let data_parts = tables_seen.map_values(data_diff_by_table(tables, data, tables, data));
    assert forall|i: int| 0 <= i < data_parts.len() implies (#[trigger] data_parts[i]).len() == 0 by {
        let n = tables_seen[i];
        assert(data_diff(n, tables.contains(n) && tables.contains(n), last_data(data, n), last_data(data, n)).len() == 0);
    }
    lemma_flatten_of_empties(data_parts);
}

} // verus!
