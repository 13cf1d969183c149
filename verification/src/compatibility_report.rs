//! The released-compatibility report of two resolved snapshots: the
//! changes of types, tables and data in one list, stably ordered by subject
//! kind, owner, member and change kind, with the summary of their
//! classifications.

use vstd::prelude::*;
use crate::authoring_query::{int_order, reversed, Comparison};
use crate::compatibility::{
    change_views, summarize, ChangeView, CompatibilityChange, CompatibilityChangeKind, CompatibilityProjectSnapshot,
    CompatibilityReport, CompatibilitySubject, CompatibilitySubjectKind, CompatibilitySummary,
};
use crate::config::ProjectMetadata;
use crate::error::{fresh_diagnostic, DiagnosticView, ErrorKind, MasterdataError};
use crate::table_compatibility::{compare_tables, declared_table_changes, table_keys, ResolvedTable};
use crate::text::str_eq;
use crate::text_order::{lemma_text_cmp_properties, text_cmp, text_compare};
use crate::type_compatibility::{
    compare_data, compare_types, data_changes, declared_type_changes, lemma_texts_deep_view, ResolvedType,
};

verus! {

/// The position of a subject kind in its declaration order.
pub open spec fn subject_rank(kind: CompatibilitySubjectKind) -> int {
    match kind {
        CompatibilitySubjectKind::Type => 0,
        CompatibilitySubjectKind::TypeField => 1,
        CompatibilitySubjectKind::Table => 2,
        CompatibilitySubjectKind::Field => 3,
        CompatibilitySubjectKind::PrimaryKey => 4,
        CompatibilitySubjectKind::SecondaryKey => 5,
        CompatibilitySubjectKind::Reference => 6,
        CompatibilitySubjectKind::Data => 7,
    }
}

/// The position of a change kind in its declaration order.
pub open spec fn change_rank(kind: CompatibilityChangeKind) -> int {
    match kind {
        CompatibilityChangeKind::TypeAdded => 0,
        CompatibilityChangeKind::TypeRemoved => 1,
        CompatibilityChangeKind::TypeShapeChanged => 2,
        CompatibilityChangeKind::TypeUnderlyingChanged => 3,
        CompatibilityChangeKind::TypeConversionChanged => 4,
        CompatibilityChangeKind::TypeFieldAdded => 5,
        CompatibilityChangeKind::TypeFieldRemoved => 6,
        CompatibilityChangeKind::TypeFieldShapeChanged => 7,
        CompatibilityChangeKind::TypeFieldMessagePackKeyChanged => 8,
        CompatibilityChangeKind::TypeFieldDeclarationReordered => 9,
        CompatibilityChangeKind::EnumMemberAdded => 10,
        CompatibilityChangeKind::EnumMemberRemoved => 11,
        CompatibilityChangeKind::EnumMemberValueChanged => 12,
        CompatibilityChangeKind::TableAdded => 13,
        CompatibilityChangeKind::TableRemoved => 14,
        CompatibilityChangeKind::TablePresentationChanged => 15,
        CompatibilityChangeKind::FieldAdded => 16,
        CompatibilityChangeKind::FieldRemoved => 17,
        CompatibilityChangeKind::FieldTypeChanged => 18,
        CompatibilityChangeKind::FieldModifierChanged => 19,
        CompatibilityChangeKind::FieldMessagePackKeyChanged => 20,
        CompatibilityChangeKind::FieldDeclarationReordered => 21,
        CompatibilityChangeKind::PrimaryKeyChanged => 22,
        CompatibilityChangeKind::SecondaryKeyAdded => 23,
        CompatibilityChangeKind::SecondaryKeyRemoved => 24,
        CompatibilityChangeKind::SecondaryKeyUniquenessChanged => 25,
        CompatibilityChangeKind::SecondaryKeyDeclarationReordered => 26,
        CompatibilityChangeKind::ReferenceAdded => 27,
        CompatibilityChangeKind::ReferenceRemoved => 28,
        CompatibilityChangeKind::ReferencePresentationChanged => 29,
        CompatibilityChangeKind::ReferenceSourceChanged => 30,
        CompatibilityChangeKind::ReferenceTargetChanged => 31,
        CompatibilityChangeKind::ReferenceOptionalityChanged => 32,
        CompatibilityChangeKind::ReferenceCardinalityChanged => 33,
        CompatibilityChangeKind::DataChanged => 34,
    }
}

fn subject_rank_of(kind: CompatibilitySubjectKind) -> (rank: u8)
    ensures
        rank as int == subject_rank(kind),
{
    match kind {
        CompatibilitySubjectKind::Type => 0,
        CompatibilitySubjectKind::TypeField => 1,
        CompatibilitySubjectKind::Table => 2,
        CompatibilitySubjectKind::Field => 3,
        CompatibilitySubjectKind::PrimaryKey => 4,
        CompatibilitySubjectKind::SecondaryKey => 5,
        CompatibilitySubjectKind::Reference => 6,
        CompatibilitySubjectKind::Data => 7,
    }
}

fn change_rank_of(kind: CompatibilityChangeKind) -> (rank: u8)
    ensures
        rank as int == change_rank(kind),
{
    match kind {
        CompatibilityChangeKind::TypeAdded => 0,
        CompatibilityChangeKind::TypeRemoved => 1,
        CompatibilityChangeKind::TypeShapeChanged => 2,
        CompatibilityChangeKind::TypeUnderlyingChanged => 3,
        CompatibilityChangeKind::TypeConversionChanged => 4,
        CompatibilityChangeKind::TypeFieldAdded => 5,
        CompatibilityChangeKind::TypeFieldRemoved => 6,
        CompatibilityChangeKind::TypeFieldShapeChanged => 7,
        CompatibilityChangeKind::TypeFieldMessagePackKeyChanged => 8,
        CompatibilityChangeKind::TypeFieldDeclarationReordered => 9,
        CompatibilityChangeKind::EnumMemberAdded => 10,
        CompatibilityChangeKind::EnumMemberRemoved => 11,
        CompatibilityChangeKind::EnumMemberValueChanged => 12,
        CompatibilityChangeKind::TableAdded => 13,
        CompatibilityChangeKind::TableRemoved => 14,
        CompatibilityChangeKind::TablePresentationChanged => 15,
        CompatibilityChangeKind::FieldAdded => 16,
        CompatibilityChangeKind::FieldRemoved => 17,
        CompatibilityChangeKind::FieldTypeChanged => 18,
        CompatibilityChangeKind::FieldModifierChanged => 19,
        CompatibilityChangeKind::FieldMessagePackKeyChanged => 20,
        CompatibilityChangeKind::FieldDeclarationReordered => 21,
        CompatibilityChangeKind::PrimaryKeyChanged => 22,
        CompatibilityChangeKind::SecondaryKeyAdded => 23,
        CompatibilityChangeKind::SecondaryKeyRemoved => 24,
        CompatibilityChangeKind::SecondaryKeyUniquenessChanged => 25,
        CompatibilityChangeKind::SecondaryKeyDeclarationReordered => 26,
        CompatibilityChangeKind::ReferenceAdded => 27,
        CompatibilityChangeKind::ReferenceRemoved => 28,
        CompatibilityChangeKind::ReferencePresentationChanged => 29,
        CompatibilityChangeKind::ReferenceSourceChanged => 30,
        CompatibilityChangeKind::ReferenceTargetChanged => 31,
        CompatibilityChangeKind::ReferenceOptionalityChanged => 32,
        CompatibilityChangeKind::ReferenceCardinalityChanged => 33,
        CompatibilityChangeKind::DataChanged => 34,
    }
}

/// `None` before any member, members by text.
pub open spec fn member_cmp(a: Option<Seq<char>>, b: Option<Seq<char>>) -> Comparison {
    match (a, b) {
        (None, None) => Comparison::Equal,
        (None, Some(_)) => Comparison::Less,
        (Some(_), None) => Comparison::Greater,
        (Some(x), Some(y)) => text_cmp(x, y),
    }
}

/// The report order: subject kind, owner, member, then change kind.
pub open spec fn change_order(a: ChangeView, b: ChangeView) -> Comparison {
    let by_subject = int_order(subject_rank(a.subject_kind), subject_rank(b.subject_kind));
    let by_owner = text_cmp(a.owner, b.owner);
    let by_member = member_cmp(a.member, b.member);
    if by_subject != Comparison::Equal {
        by_subject
    } else if by_owner != Comparison::Equal {
        by_owner
    } else if by_member != Comparison::Equal {
        by_member
    } else {
        int_order(change_rank(a.kind), change_rank(b.kind))
    }
}

proof fn lemma_member_cmp_properties(a: Option<Seq<char>>, b: Option<Seq<char>>, c: Option<Seq<char>>)
    ensures
        member_cmp(b, a) == reversed(member_cmp(a, b)),
        member_cmp(a, b) == Comparison::Equal <==> a == b,
        member_cmp(a, b) != Comparison::Greater && member_cmp(b, c) != Comparison::Greater
            ==> member_cmp(a, c) != Comparison::Greater,
        member_cmp(a, b) == Comparison::Less && member_cmp(b, c) != Comparison::Greater
            ==> member_cmp(a, c) == Comparison::Less,
        member_cmp(a, b) != Comparison::Greater && member_cmp(b, c) == Comparison::Less
            ==> member_cmp(a, c) == Comparison::Less,
{
    match (a, b, c) {
        (Some(x), Some(y), Some(z)) => {
            lemma_text_cmp_properties(x, y, z);
            lemma_text_cmp_properties(y, x, z);
            lemma_text_cmp_properties(x, z, y);
        },
        (Some(x), Some(y), None) => {
            lemma_text_cmp_properties(x, y, y);
            lemma_text_cmp_properties(y, x, x);
        },
        (None, Some(y), Some(z)) => {
            lemma_text_cmp_properties(y, z, z);
            lemma_text_cmp_properties(z, y, y);
        },
        (Some(x), None, Some(z)) => {
            lemma_text_cmp_properties(x, z, z);
            lemma_text_cmp_properties(z, x, x);
        },
        _ => {},
    }
}

proof fn lemma_text_cmp_chain(a: Seq<char>, b: Seq<char>, c: Seq<char>)
    ensures
        text_cmp(b, a) == reversed(text_cmp(a, b)),
        text_cmp(a, b) != Comparison::Greater && text_cmp(b, c) != Comparison::Greater ==> text_cmp(a, c) != Comparison::Greater,
        text_cmp(a, b) == Comparison::Less && text_cmp(b, c) != Comparison::Greater ==> text_cmp(a, c) == Comparison::Less,
        text_cmp(a, b) != Comparison::Greater && text_cmp(b, c) == Comparison::Less ==> text_cmp(a, c) == Comparison::Less,
{
    lemma_text_cmp_properties(a, b, c);
    lemma_text_cmp_properties(b, a, c);
    lemma_text_cmp_properties(a, c, b);
    lemma_text_cmp_properties(b, c, a);
    lemma_text_cmp_properties(c, a, b);
    lemma_text_cmp_properties(c, b, a);
}

/// The report order is a total preorder.
pub proof fn lemma_change_order_preorder(a: ChangeView, b: ChangeView, c: ChangeView)
    ensures
        change_order(b, a) == reversed(change_order(a, b)),
        change_order(a, b) != Comparison::Greater && change_order(b, c) != Comparison::Greater
            ==> change_order(a, c) != Comparison::Greater,
{
    lemma_text_cmp_chain(a.owner, b.owner, c.owner);
    lemma_member_cmp_properties(a.member, b.member, c.member);
    lemma_member_cmp_properties(b.member, a.member, c.member);
    lemma_text_cmp_properties(a.owner, b.owner, c.owner);
    lemma_text_cmp_properties(b.owner, c.owner, a.owner);
}

/// Change `a` of `input` goes before change `b`: by the report order, ties
/// in list position.
pub open spec fn change_before(input: Seq<ChangeView>, a: usize, b: usize) -> bool {
    let order = change_order(input[a as int], input[b as int]);
    order == Comparison::Less || (order == Comparison::Equal && a < b)
}

/// `output` is `input` in the stable report order.
pub open spec fn stably_ordered(input: Seq<ChangeView>, output: Seq<ChangeView>) -> bool {
    exists|perm: Seq<usize>| {
        &&& perm.len() == input.len()
        &&& output.len() == input.len()
        &&& (forall|x: usize| perm.contains(x) <==> x < input.len())
        &&& (forall|i: int| 0 <= i < perm.len() ==> output[i] == input[#[trigger] perm[i] as int])
        &&& (forall|i: int, j: int| 0 <= i < j < perm.len() ==> change_before(input, #[trigger] perm[i], #[trigger] perm[j]))
    }
}

fn member_compare(a: &Option<String>, b: &Option<String>) -> (order: Comparison)
    ensures
        order == member_cmp(a.deep_view(), b.deep_view()),
{
    match (a, b) {
        (None, None) => Comparison::Equal,
        (None, Some(_)) => Comparison::Less,
        (Some(_), None) => Comparison::Greater,
        (Some(x), Some(y)) => text_compare(x.as_str(), y.as_str()),
    }
}

fn rank_order(x: u8, y: u8) -> (order: Comparison)
    ensures
        order == int_order(x as int, y as int),
{
    if x < y {
        Comparison::Less
    } else if x == y {
        Comparison::Equal
    } else {
        Comparison::Greater
    }
}

/// The report order of two changes.
pub fn change_compare(a: &CompatibilityChange, b: &CompatibilityChange) -> (order: Comparison)
    ensures
        order == change_order(a@, b@),
{
    let by_subject = rank_order(subject_rank_of(a.subject.kind), subject_rank_of(b.subject.kind));
    if by_subject != Comparison::Equal {
        return by_subject;
    }
    let by_owner = text_compare(a.subject.owner.as_str(), b.subject.owner.as_str());
    if by_owner != Comparison::Equal {
        return by_owner;
    }
    let by_member = member_compare(&a.subject.member, &b.subject.member);
    if by_member != Comparison::Equal {
        return by_member;
    }
    rank_order(change_rank_of(a.kind), change_rank_of(b.kind))
}

fn copy_text_option(value: &Option<String>) -> (copy: Option<String>)
    ensures
        copy.deep_view() == value.deep_view(),
{
    match value {
        Some(s) => Some(s.clone()),
        None => None,
    }
}

fn copy_texts(values: &Vec<String>) -> (copy: Vec<String>)
    ensures
        copy.deep_view() == values.deep_view(),
{
    let mut copy: Vec<String> = Vec::new();
    let mut i: usize = 0;
    while i < values.len()
        invariant
            i <= values@.len(),
            copy.deep_view() == values.deep_view().take(i as int),
        decreases values@.len() - i,
    {
        let ghost before = copy.deep_view();
        copy.push(values[i].clone());
        proof {
            assert(copy.deep_view() =~= before.push(values@[i as int]@));
            assert(values.deep_view().take(i + 1) =~= values.deep_view().take(i as int).push(values@[i as int]@));
        }
        i = i + 1;
    }
    proof {
        assert(values.deep_view().take(values@.len() as int) =~= values.deep_view());
    }
    copy
}

/// A copy of a change.
pub fn copy_change(change: &CompatibilityChange) -> (copy: CompatibilityChange)
    ensures
        copy@ == change@,
{
    CompatibilityChange {
        subject: CompatibilitySubject {
            kind: change.subject.kind,
            owner: change.subject.owner.clone(),
            member: copy_text_option(&change.subject.member),
        },
        kind: change.kind,
        baseline_locator: copy_text_option(&change.baseline_locator),
        current_locator: copy_text_option(&change.current_locator),
        generated_api: change.generated_api,
        source_migration: change.source_migration,
        source_operation: copy_text_option(&change.source_operation),
        artifact_binary: change.artifact_binary,
        external_contract: change.external_contract,
        reason: change.reason.clone(),
        related_requirements: copy_texts(&change.related_requirements),
    }
}

pub open spec fn positions_ordered(input: Seq<ChangeView>, out: Seq<usize>) -> bool {
    forall|i: int, j: int| 0 <= i < j < out.len() ==> change_before(input, #[trigger] out[i], #[trigger] out[j])
}

proof fn lemma_insert_ordered(input: Seq<ChangeView>, out: Seq<usize>, k: int, x: usize)
    requires
        positions_ordered(input, out),
        0 <= k <= out.len(),
        x < input.len(),
        forall|m: int| 0 <= m < out.len() ==> out[m] < x,
        forall|m: int| k <= m < out.len() ==> change_order(input[x as int], input[out[m] as int]) == Comparison::Less,
        k > 0 ==> change_order(input[x as int], input[out[k - 1] as int]) != Comparison::Less,
    ensures
        positions_ordered(input, out.insert(k, x)),
{
    let next = out.insert(k, x);
    assert forall|i: int, j: int| 0 <= i < j < next.len() implies change_before(input, #[trigger] next[i], #[trigger] next[j]) by {
        if j < k {
            assert(next[i] == out[i] && next[j] == out[j]);
        } else if i > k {
            assert(next[i] == out[i - 1] && next[j] == out[j - 1]);
        } else if i < k && j > k {
            assert(next[i] == out[i] && next[j] == out[j - 1]);
        } else if i == k {
            assert(next[i] == x && next[j] == out[j - 1]);
        } else {
            assert(next[i] == out[i] && next[j] == x);
            let vi = input[out[i] as int];
            let vk = input[out[k - 1] as int];
            let vx = input[x as int];
            lemma_change_order_preorder(vk, vx, vx);
            if i < k - 1 {
                assert(change_before(input, out[i], out[k - 1]));
                lemma_change_order_preorder(vi, vk, vx);
                lemma_change_order_preorder(vx, vi, vk);
            }
        }
    }
}

/// The changes in the stable report order.
pub fn order_changes(changes: &Vec<CompatibilityChange>) -> (ordered: Vec<CompatibilityChange>)
    ensures
        stably_ordered(change_views(changes@), change_views(ordered@)),
{
    let ghost input = change_views(changes@);
    let mut out: Vec<usize> = Vec::new();
    let mut t: usize = 0;
    while t < changes.len()
        invariant
            input == change_views(changes@),
            t <= changes@.len(),
            out@.len() == t,
            forall|x: usize| out@.contains(x) <==> x < t,
            positions_ordered(input, out@),
        decreases changes@.len() - t,
    {
        let x = t;
        proof {
            assert forall|m: int| 0 <= m < out@.len() implies out@[m] < x by {
                assert(out@.contains(out@[m]));
            }
        }
        let mut k: usize = out.len();
        while k > 0
            invariant
                input == change_views(changes@),
                k <= out@.len(),
                x < changes@.len(),
                forall|m: int| 0 <= m < out@.len() ==> out@[m] < x,
                forall|m: int| k <= m < out@.len() ==> change_order(input[x as int], input[out@[m] as int]) == Comparison::Less,
            ensures
                k <= out@.len(),
                forall|m: int| k <= m < out@.len() ==> change_order(input[x as int], input[out@[m] as int]) == Comparison::Less,
                k > 0 ==> change_order(input[x as int], input[out@[k - 1] as int]) != Comparison::Less,
            decreases k,
        {
            let previous = out[k - 1];
            if change_compare(&changes[x], &changes[previous]) != Comparison::Less {
                break;
            }
            k = k - 1;
        }
        proof {
            lemma_insert_ordered(input, out@, k as int, x);
        }
        let ghost before = out@;
        out.insert(k, x);
        proof {
            assert forall|y: usize| out@.contains(y) <==> y < t + 1 by {
                if out@.contains(y) {
                    let w = choose|w: int| 0 <= w < out@.len() && out@[w] == y;
                    if w < k {
                        assert(before[w] == y);
                        assert(before.contains(y));
                    } else if w > k {
                        assert(before[w - 1] == y);
                        assert(before.contains(y));
                    }
                }
                if y < t + 1 {
                    if y < t {
                        assert(before.contains(y));
                        let w = choose|w: int| 0 <= w < before.len() && before[w] == y;
                        if w < k {
                            assert(out@[w] == y);
                        } else {
                            assert(out@[w + 1] == y);
                        }
                    } else {
                        assert(out@[k as int] == y);
                    }
                }
            }
        }
        t = t + 1;
    }
    let mut ordered: Vec<CompatibilityChange> = Vec::new();
    let mut i: usize = 0;
    while i < out.len()
        invariant
            input == change_views(changes@),
            out@.len() == changes@.len(),
            forall|x: usize| out@.contains(x) <==> x < changes@.len(),
            i <= out@.len(),
            ordered@.len() == i,
            forall|m: int| 0 <= m < i ==> ordered@[m]@ == input[#[trigger] out@[m] as int],
        decreases out@.len() - i,
    {
        let p = out[i];
        proof {
            assert(out@.contains(p));
        }
        ordered.push(copy_change(&changes[p]));
        i = i + 1;
    }
    proof {
        let output = change_views(ordered@);
        assert(output.len() == input.len());
        assert forall|m: int| 0 <= m < out@.len() implies output[m] == input[#[trigger] out@[m] as int] by {}
        assert(stably_ordered(input, output));
    }
    ordered
}

/// A snapshot resolved to its declared types, tables and canonical data.
#[derive(Debug)]
pub struct ResolvedCompatibilitySnapshot {
    pub project: ProjectMetadata,
    pub types: Vec<(String, ResolvedType)>,
    pub tables: Vec<(String, ResolvedTable)>,
    pub data: Vec<(String, Vec<String>)>,
}

/// The refusal of two snapshots of different projects.
pub open spec fn project_mismatch(baseline: Seq<char>, current: Seq<char>) -> DiagnosticView {
    DiagnosticView {
        related_requirements: seq!["COMPAT-RELEASED-002"@],
        ..fresh_diagnostic(
            "E-COMPAT-PROJECT-MISMATCH"@,
            ErrorKind::Validation,
            "baseline project.id `"@ + baseline + "` does not match current project.id `"@ + current + "`"@,
        )
    }
}

/// The changes of types, then tables, then data, before ordering.
pub open spec fn snapshot_changes(baseline: ResolvedCompatibilitySnapshot, current: ResolvedCompatibilitySnapshot) -> Seq<ChangeView> {
    declared_type_changes(baseline.types@, current.types@)
        + declared_table_changes(baseline.tables@, current.tables@)
        + data_changes(table_keys(baseline.tables@), baseline.data@, table_keys(current.tables@), current.data@)
}

/// The summary of a list of changes.
pub open spec fn summary_of(changes: Seq<CompatibilityChange>, summary: CompatibilitySummary) -> bool {
    &&& summary.change_count == changes.len()
    &&& crate::compatibility::counts_view(summary.generated_api@) == crate::compatibility::generated_api_counts(changes)
    &&& crate::compatibility::counts_view(summary.source_migration@) == crate::compatibility::source_migration_counts(changes)
    &&& crate::compatibility::counts_view(summary.artifact_binary@) == crate::compatibility::artifact_binary_counts(changes)
    &&& crate::compatibility::counts_view(summary.external_contract@) == crate::compatibility::external_contract_counts(changes)
}

pub open spec fn project_snapshot_of(project: ProjectMetadata, snapshot: CompatibilityProjectSnapshot) -> bool {
    snapshot.project_id@ == project.id@ && snapshot.name@ == project.name@ && snapshot.version@ == project.version@
}

fn project_snapshot(project: &ProjectMetadata) -> (snapshot: CompatibilityProjectSnapshot)
    ensures
        project_snapshot_of(*project, snapshot),
{
    CompatibilityProjectSnapshot {
        project_id: project.id.clone(),
        name: project.name.clone(),
        version: project.version.clone(),
    }
}

/// Compares two resolved snapshots of one project: the classified changes
/// of types, tables and data in the stable report order, and their summary.
pub fn compare_resolved_snapshots(
    baseline: &ResolvedCompatibilitySnapshot,
    current: &ResolvedCompatibilitySnapshot,
) -> (result: Result<CompatibilityReport, MasterdataError>)
    ensures
        match result {
            Err(e) => baseline.project.id@ != current.project.id@
                && e@ == project_mismatch(baseline.project.id@, current.project.id@),
            Ok(report) => {
                &&& baseline.project.id@ == current.project.id@
                &&& project_snapshot_of(baseline.project, report.baseline)
                &&& project_snapshot_of(current.project, report.current)
                &&& stably_ordered(snapshot_changes(*baseline, *current), change_views(report.changes@))
                &&& summary_of(report.changes@, report.summary)
            },
        },
{
    if !str_eq(baseline.project.id.as_str(), current.project.id.as_str()) {
        let mut message = String::from_str("baseline project.id `");
        message.append(baseline.project.id.as_str());
        message.append("` does not match current project.id `");
        message.append(current.project.id.as_str());
        message.append("`");
        let error = MasterdataError::new("E-COMPAT-PROJECT-MISMATCH", ErrorKind::Validation, message.as_str())
            .with_related_requirement("COMPAT-RELEASED-002");
        proof {
            assert(error@.related_requirements =~= seq!["COMPAT-RELEASED-002"@]);
        }
        return Err(error);
    }
    let mut changes: Vec<CompatibilityChange> = Vec::new();
    compare_types(&baseline.types, &current.types, &mut changes);
    compare_tables(&baseline.tables, &current.tables, &mut changes);
    let baseline_tables = crate::table_compatibility::keys_of_tables(&baseline.tables);
    let current_tables = crate::table_compatibility::keys_of_tables(&current.tables);
    proof {
        lemma_texts_deep_view(baseline_tables);
        lemma_texts_deep_view(current_tables);
    }
    compare_data(&baseline_tables, &baseline.data, &current_tables, &current.data, &mut changes);
    proof {
        assert(change_views(changes@) =~= snapshot_changes(*baseline, *current));
    }
    let ordered = order_changes(&changes);
    let summary = summarize(&ordered);
    Ok(CompatibilityReport {
        baseline: project_snapshot(&baseline.project),
        current: project_snapshot(&current.project),
        changes: ordered,
        summary,
    })
}

/// Comparing a snapshot with itself reports no change.
pub proof fn law_self_comparison_reports_no_change(snapshot: ResolvedCompatibilitySnapshot)
    ensures
        snapshot_changes(snapshot, snapshot) == Seq::<ChangeView>::empty(),
{
    crate::type_compatibility::law_identical_snapshot_reports_no_change(
        snapshot.types@,
        table_keys(snapshot.tables@),
        snapshot.data@,
    );
    crate::table_compatibility::law_identical_tables_report_no_change(snapshot.tables@);
    assert(snapshot_changes(snapshot, snapshot) =~= Seq::<ChangeView>::empty());
}

/// A report without changes has a summary without any classification count.
pub proof fn law_unchanged_summary_is_empty(summary: CompatibilitySummary)
    requires
        summary_of(Seq::empty(), summary),
    ensures
        summary.change_count == 0,
        summary.generated_api@.len() == 0,
        summary.source_migration@.len() == 0,
        summary.artifact_binary@.len() == 0,
        summary.external_contract@.len() == 0,
{
    let none = Seq::<CompatibilityChange>::empty();
    let g = crate::compatibility::generated_api_counts(none);
    let s = crate::compatibility::source_migration_counts(none);
    let a = crate::compatibility::artifact_binary_counts(none);
    let x = crate::compatibility::external_contract_counts(none);
    reveal_with_fuel(crate::compatibility::nonzero_counts, 6);
    assert(g.len() == 0);
    assert(s.len() == 0);
    assert(a.len() == 0);
    assert(x.len() == 0);
    assert(crate::compatibility::counts_view(summary.generated_api@).len() == summary.generated_api@.len());
    assert(crate::compatibility::counts_view(summary.source_migration@).len() == summary.source_migration@.len());
    assert(crate::compatibility::counts_view(summary.artifact_binary@).len() == summary.artifact_binary@.len());
    assert(crate::compatibility::counts_view(summary.external_contract@).len() == summary.external_contract@.len());
}

/// A report lists its changes in the report order: by subject kind, owner,
/// member and change kind, none after a change that it should follow, and
/// each of them a change of the comparison.
pub proof fn law_report_changes_follow_report_order(input: Seq<ChangeView>, output: Seq<ChangeView>)
    requires
        stably_ordered(input, output),
    ensures
        output.len() == input.len(),
        forall|i: int, j: int| 0 <= i < j < output.len() ==> change_order(output[i], output[j]) != Comparison::Greater,
        forall|i: int| 0 <= i < output.len() ==> input.contains(#[trigger] output[i]),
{
    let perm = choose|perm: Seq<usize>| {
        &&& perm.len() == input.len()
        &&& output.len() == input.len()
        &&& (forall|x: usize| perm.contains(x) <==> x < input.len())
        &&& (forall|i: int| 0 <= i < perm.len() ==> output[i] == input[#[trigger] perm[i] as int])
        &&& (forall|i: int, j: int| 0 <= i < j < perm.len() ==> change_before(input, #[trigger] perm[i], #[trigger] perm[j]))
    };
    assert forall|i: int, j: int| 0 <= i < j < output.len() implies change_order(output[i], output[j]) != Comparison::Greater by {
        assert(change_before(input, perm[i], perm[j]));
        assert(output[i] == input[perm[i] as int]);
        assert(output[j] == input[perm[j] as int]);
    }
    assert forall|i: int| 0 <= i < output.len() implies input.contains(#[trigger] output[i]) by {
        assert(perm.contains(perm[i]));
        assert(output[i] == input[perm[i] as int]);
    }
}

} // verus!
