//! The report model of released-compatibility analysis and its summary:
//! how many changes fall in each classification of each impact dimension.

use vstd::prelude::*;

verus! {

/// Identity of one side of a comparison.
#[derive(Debug, Clone, PartialEq, Eq)]
pub struct CompatibilityProjectSnapshot {
    pub project_id: String,
    pub name: String,
    pub version: String,
}

#[derive(Debug, Clone, Copy, PartialEq, Eq, Structural, PartialOrd, Ord)]
pub enum GeneratedApiImpact {
    Unchanged,
    Additive,
    Breaking,
    ReviewRequired,
}

#[derive(Debug, Clone, Copy, PartialEq, Eq, Structural, PartialOrd, Ord)]
pub enum SourceMigrationImpact {
    NotRequired,
    SupportedOperation,
    DestructiveAuthorizationRequired,
    ManualActionRequired,
    ReviewRequired,
}

#[derive(Debug, Clone, Copy, PartialEq, Eq, Structural, PartialOrd, Ord)]
pub enum ArtifactBinaryImpact {
    Unchanged,
    RebuildRequired,
    CrossSchemaInteroperabilityNotGuaranteed,
}

#[derive(Debug, Clone, Copy, PartialEq, Eq, Structural, PartialOrd, Ord)]
pub enum ExternalContractImpact {
    NotAssessed,
    ExternalPolicyRequired,
}

#[derive(Debug, Clone, Copy, PartialEq, Eq, Structural, PartialOrd, Ord)]
pub enum CompatibilitySubjectKind {
    Type,
    TypeField,
    Table,
    Field,
    PrimaryKey,
    SecondaryKey,
    Reference,
    Data,
}

/// What a change is about: a declaration and, for members, the member.
#[derive(Debug, Clone, PartialEq, Eq)]
pub struct CompatibilitySubject {
    pub kind: CompatibilitySubjectKind,
    pub owner: String,
    pub member: Option<String>,
}

#[derive(Debug, Clone, Copy, PartialEq, Eq, Structural, PartialOrd, Ord)]
pub enum CompatibilityChangeKind {
    TypeAdded,
    TypeRemoved,
    TypeShapeChanged,
    TypeUnderlyingChanged,
    TypeConversionChanged,
    TypeFieldAdded,
    TypeFieldRemoved,
    TypeFieldShapeChanged,
    TypeFieldMessagePackKeyChanged,
    TypeFieldDeclarationReordered,
    EnumMemberAdded,
    EnumMemberRemoved,
    EnumMemberValueChanged,
    TableAdded,
    TableRemoved,
    TablePresentationChanged,
    FieldAdded,
    FieldRemoved,
    FieldTypeChanged,
    FieldModifierChanged,
    FieldMessagePackKeyChanged,
    FieldDeclarationReordered,
    PrimaryKeyChanged,
    SecondaryKeyAdded,
    SecondaryKeyRemoved,
    SecondaryKeyUniquenessChanged,
    SecondaryKeyDeclarationReordered,
    ReferenceAdded,
    ReferenceRemoved,
    ReferencePresentationChanged,
    ReferenceSourceChanged,
    ReferenceTargetChanged,
    ReferenceOptionalityChanged,
    ReferenceCardinalityChanged,
    DataChanged,
}

/// One classified difference between the baseline and the current source.
#[derive(Debug, Clone, PartialEq, Eq)]
pub struct CompatibilityChange {
    pub subject: CompatibilitySubject,
    pub kind: CompatibilityChangeKind,
    pub baseline_locator: Option<String>,
    pub current_locator: Option<String>,
    pub generated_api: GeneratedApiImpact,
    pub source_migration: SourceMigrationImpact,
    pub source_operation: Option<String>,
    pub artifact_binary: ArtifactBinaryImpact,
    pub external_contract: ExternalContractImpact,
    pub reason: String,
    pub related_requirements: Vec<String>,
}

/// How many changes carry one classification.
#[derive(Debug, Clone, PartialEq, Eq)]
pub struct CompatibilityClassificationCount {
    pub classification: String,
    pub count: usize,
}

#[derive(Debug, Clone, PartialEq, Eq)]
pub struct CompatibilitySummary {
    pub change_count: usize,
    pub generated_api: Vec<CompatibilityClassificationCount>,
    pub source_migration: Vec<CompatibilityClassificationCount>,
    pub artifact_binary: Vec<CompatibilityClassificationCount>,
    pub external_contract: Vec<CompatibilityClassificationCount>,
}

#[derive(Debug, Clone, PartialEq, Eq)]
pub struct CompatibilityReport {
    pub baseline: CompatibilityProjectSnapshot,
    pub current: CompatibilityProjectSnapshot,
    pub changes: Vec<CompatibilityChange>,
    pub summary: CompatibilitySummary,
}

/// A change as plain values.
pub struct ChangeView {
    pub subject_kind: CompatibilitySubjectKind,
    pub owner: Seq<char>,
    pub member: Option<Seq<char>>,
    pub kind: CompatibilityChangeKind,
    pub baseline_locator: Option<Seq<char>>,
    pub current_locator: Option<Seq<char>>,
    pub generated_api: GeneratedApiImpact,
    pub source_migration: SourceMigrationImpact,
    pub source_operation: Option<Seq<char>>,
    pub artifact_binary: ArtifactBinaryImpact,
    pub external_contract: ExternalContractImpact,
    pub reason: Seq<char>,
    pub related_requirements: Seq<Seq<char>>,
}

impl View for CompatibilityChange {
    type V = ChangeView;

    open spec fn view(&self) -> ChangeView {
        ChangeView {
            subject_kind: self.subject.kind,
            owner: self.subject.owner@,
            member: self.subject.member.deep_view(),
            kind: self.kind,
            baseline_locator: self.baseline_locator.deep_view(),
            current_locator: self.current_locator.deep_view(),
            generated_api: self.generated_api,
            source_migration: self.source_migration,
            source_operation: self.source_operation.deep_view(),
            artifact_binary: self.artifact_binary,
            external_contract: self.external_contract,
            reason: self.reason@,
            related_requirements: self.related_requirements.deep_view(),
        }
    }
}

/// The views of a list of changes.
pub open spec fn change_views(changes: Seq<CompatibilityChange>) -> Seq<ChangeView> {
    changes.map_values(|c: CompatibilityChange| c@)
}

/// `kind:owner` or `kind:owner:member`.
pub open spec fn locator_text(kind: Seq<char>, owner: Seq<char>, member: Option<Seq<char>>) -> Seq<char> {
    match member {
        Some(m) => kind + seq![':'] + owner + seq![':'] + m,
        None => kind + seq![':'] + owner,
    }
}

/// The locator of a declaration or of one of its members.
pub fn locator(kind: &str, owner: &str, member: Option<&str>) -> (text: String)
    ensures
        text@ == locator_text(kind@, owner@, match member { Some(m) => Some(m@), None => None }),
{
    let mut text = String::from_str(kind);
    text.append(":");
    text.append(owner);
    proof {
        reveal_strlit(":");
    }
    match member {
        Some(m) => {
            text.append(":");
            text.append(m);
        },
        None => {},
    }
    text
}

/// Records one change.
pub fn push_change(
    changes: &mut Vec<CompatibilityChange>,
    subject: CompatibilitySubject,
    kind: CompatibilityChangeKind,
    baseline_locator: Option<String>,
    current_locator: Option<String>,
    generated_api: GeneratedApiImpact,
    source_migration: SourceMigrationImpact,
    source_operation: Option<&str>,
    artifact_binary: ArtifactBinaryImpact,
    external_contract: ExternalContractImpact,
    reason: &str,
    requirements: Vec<String>,
)
    ensures
        change_views(final(changes)@) == change_views(old(changes)@).push(ChangeView {
            subject_kind: subject.kind,
            owner: subject.owner@,
            member: subject.member.deep_view(),
            kind,
            baseline_locator: baseline_locator.deep_view(),
            current_locator: current_locator.deep_view(),
            generated_api,
            source_migration,
            source_operation: match source_operation { Some(s) => Some(s@), None => None },
            artifact_binary,
            external_contract,
            reason: reason@,
            related_requirements: requirements.deep_view(),
        }),
{
    let operation = match source_operation {
        Some(s) => Some(s.to_owned()),
        None => None,
    };
    let change = CompatibilityChange {
        subject,
        kind,
        baseline_locator,
        current_locator,
        generated_api,
        source_migration,
        source_operation: operation,
        artifact_binary,
        external_contract,
        reason: reason.to_owned(),
        related_requirements: requirements,
    };
    changes.push(change);
    proof {
        assert(change_views(final(changes)@) =~= change_views(old(changes)@).push(change@));
    }
}

/// A list of requirement identifiers.
pub fn requirement_list(first: &str, second: &str, third: Option<&str>) -> (list: Vec<String>)
    ensures
        list.deep_view() == match third {
            Some(t) => seq![first@, second@, t@],
            None => seq![first@, second@],
        },
{
    let mut list: Vec<String> = Vec::new();
    list.push(first.to_owned());
    list.push(second.to_owned());
    match third {
        Some(t) => list.push(t.to_owned()),
        None => {},
    }
    proof {
        match third {
            Some(t) => assert(list.deep_view() =~= seq![first@, second@, t@]),
            None => assert(list.deep_view() =~= seq![first@, second@]),
        }
    }
    list
}

/// The number of changes that satisfy `p`.
pub open spec fn count_where(changes: Seq<CompatibilityChange>, p: spec_fn(CompatibilityChange) -> bool) -> nat
    decreases changes.len(),
{
    if changes.len() == 0 {
        0
    } else {
        count_where(changes.drop_last(), p) + if p(changes.last()) { 1nat } else { 0nat }
    }
}

/// The entries with a positive count, in order.
pub open spec fn nonzero_counts(entries: Seq<(Seq<char>, nat)>) -> Seq<(Seq<char>, nat)>
    decreases entries.len(),
{
    if entries.len() == 0 {
        Seq::empty()
    } else if entries[0].1 > 0 {
        seq![entries[0]] + nonzero_counts(entries.drop_first())
    } else {
        nonzero_counts(entries.drop_first())
    }
}

pub open spec fn counts_view(counts: Seq<CompatibilityClassificationCount>) -> Seq<(Seq<char>, nat)> {
    counts.map_values(|c: CompatibilityClassificationCount| (c.classification@, c.count as nat))
}

/// Generated-API classifications, labels in ascending order.
pub open spec fn generated_api_counts(changes: Seq<CompatibilityChange>) -> Seq<(Seq<char>, nat)> {
    nonzero_counts(seq![
        ("additive"@, count_where(changes, |c: CompatibilityChange| c.generated_api == GeneratedApiImpact::Additive)),
        ("breaking"@, count_where(changes, |c: CompatibilityChange| c.generated_api == GeneratedApiImpact::Breaking)),
        ("review_required"@, count_where(changes, |c: CompatibilityChange| c.generated_api == GeneratedApiImpact::ReviewRequired)),
        ("unchanged"@, count_where(changes, |c: CompatibilityChange| c.generated_api == GeneratedApiImpact::Unchanged)),
    ])
}

/// Source-migration classifications, labels in ascending order.
pub open spec fn source_migration_counts(changes: Seq<CompatibilityChange>) -> Seq<(Seq<char>, nat)> {
    nonzero_counts(seq![
        ("destructive_authorization_required"@, count_where(changes, |c: CompatibilityChange| c.source_migration == SourceMigrationImpact::DestructiveAuthorizationRequired)),
        ("manual_action_required"@, count_where(changes, |c: CompatibilityChange| c.source_migration == SourceMigrationImpact::ManualActionRequired)),
        ("not_required"@, count_where(changes, |c: CompatibilityChange| c.source_migration == SourceMigrationImpact::NotRequired)),
        ("review_required"@, count_where(changes, |c: CompatibilityChange| c.source_migration == SourceMigrationImpact::ReviewRequired)),
        ("supported_operation"@, count_where(changes, |c: CompatibilityChange| c.source_migration == SourceMigrationImpact::SupportedOperation)),
    ])
}

/// Artifact-binary classifications, labels in ascending order.
pub open spec fn artifact_binary_counts(changes: Seq<CompatibilityChange>) -> Seq<(Seq<char>, nat)> {
    nonzero_counts(seq![
        ("cross_schema_interoperability_not_guaranteed"@, count_where(changes, |c: CompatibilityChange| c.artifact_binary == ArtifactBinaryImpact::CrossSchemaInteroperabilityNotGuaranteed)),
        ("rebuild_required"@, count_where(changes, |c: CompatibilityChange| c.artifact_binary == ArtifactBinaryImpact::RebuildRequired)),
        ("unchanged"@, count_where(changes, |c: CompatibilityChange| c.artifact_binary == ArtifactBinaryImpact::Unchanged)),
    ])
}

/// External-contract classifications, labels in ascending order.
pub open spec fn external_contract_counts(changes: Seq<CompatibilityChange>) -> Seq<(Seq<char>, nat)> {
    nonzero_counts(seq![
        ("external_policy_required"@, count_where(changes, |c: CompatibilityChange| c.external_contract == ExternalContractImpact::ExternalPolicyRequired)),
        ("not_assessed"@, count_where(changes, |c: CompatibilityChange| c.external_contract == ExternalContractImpact::NotAssessed)),
    ])
}

proof fn lemma_count_bound(changes: Seq<CompatibilityChange>, p: spec_fn(CompatibilityChange) -> bool)
    ensures
        count_where(changes, p) <= changes.len(),
    decreases changes.len(),
{
    if changes.len() > 0 {
        lemma_count_bound(changes.drop_last(), p);
    }
}

#[verifier::loop_isolation(false)]
fn count_generated_api(changes: &Vec<CompatibilityChange>, v: GeneratedApiImpact) -> (n: usize)
    ensures
        n == count_where(changes@, |c: CompatibilityChange| c.generated_api == v),
{
    let ghost p = |c: CompatibilityChange| c.generated_api == v;
    let mut n: usize = 0;
    let mut i: usize = 0;
    proof {
        assert(changes@.take(0) =~= Seq::<CompatibilityChange>::empty());
    }
    while i < changes.len()
        invariant
            i <= changes@.len(),
            n <= i,
            n == count_where(changes@.take(i as int), p),
        decreases changes@.len() - i,
    {
        proof {
            assert(changes@.take(i + 1).drop_last() =~= changes@.take(i as int));
            assert(changes@.take(i + 1).last() == changes@[i as int]);
        }
        if changes[i].generated_api == v {
            n = n + 1;
        }
        i = i + 1;
    }
    proof {
        assert(changes@.take(i as int) =~= changes@);
    }
    n
}

#[verifier::loop_isolation(false)]
fn count_source_migration(changes: &Vec<CompatibilityChange>, v: SourceMigrationImpact) -> (n: usize)
    ensures
        n == count_where(changes@, |c: CompatibilityChange| c.source_migration == v),
{
    let ghost p = |c: CompatibilityChange| c.source_migration == v;
    let mut n: usize = 0;
    let mut i: usize = 0;
    proof {
        assert(changes@.take(0) =~= Seq::<CompatibilityChange>::empty());
    }
    while i < changes.len()
        invariant
            i <= changes@.len(),
            n <= i,
            n == count_where(changes@.take(i as int), p),
        decreases changes@.len() - i,
    {
        proof {
            assert(changes@.take(i + 1).drop_last() =~= changes@.take(i as int));
            assert(changes@.take(i + 1).last() == changes@[i as int]);
        }
        if changes[i].source_migration == v {
            n = n + 1;
        }
        i = i + 1;
    }
    proof {
        assert(changes@.take(i as int) =~= changes@);
    }
    n
}

#[verifier::loop_isolation(false)]
fn count_artifact_binary(changes: &Vec<CompatibilityChange>, v: ArtifactBinaryImpact) -> (n: usize)
    ensures
        n == count_where(changes@, |c: CompatibilityChange| c.artifact_binary == v),
{
    let ghost p = |c: CompatibilityChange| c.artifact_binary == v;
    let mut n: usize = 0;
    let mut i: usize = 0;
    proof {
        assert(changes@.take(0) =~= Seq::<CompatibilityChange>::empty());
    }
    while i < changes.len()
        invariant
            i <= changes@.len(),
            n <= i,
            n == count_where(changes@.take(i as int), p),
        decreases changes@.len() - i,
    {
        proof {
            assert(changes@.take(i + 1).drop_last() =~= changes@.take(i as int));
            assert(changes@.take(i + 1).last() == changes@[i as int]);
        }
        if changes[i].artifact_binary == v {
            n = n + 1;
        }
        i = i + 1;
    }
    proof {
        assert(changes@.take(i as int) =~= changes@);
    }
    n
}

#[verifier::loop_isolation(false)]
fn count_external_contract(changes: &Vec<CompatibilityChange>, v: ExternalContractImpact) -> (n: usize)
    ensures
        n == count_where(changes@, |c: CompatibilityChange| c.external_contract == v),
{
    let ghost p = |c: CompatibilityChange| c.external_contract == v;
    let mut n: usize = 0;
    let mut i: usize = 0;
    proof {
        assert(changes@.take(0) =~= Seq::<CompatibilityChange>::empty());
    }
    while i < changes.len()
        invariant
            i <= changes@.len(),
            n <= i,
            n == count_where(changes@.take(i as int), p),
        decreases changes@.len() - i,
    {
        proof {
            assert(changes@.take(i + 1).drop_last() =~= changes@.take(i as int));
            assert(changes@.take(i + 1).last() == changes@[i as int]);
        }
        if changes[i].external_contract == v {
            n = n + 1;
        }
        i = i + 1;
    }
    proof {
        assert(changes@.take(i as int) =~= changes@);
    }
    n
}

/// Append `(label, n)` when `n > 0`.
fn push_count(counts: &mut Vec<CompatibilityClassificationCount>, label: &str, n: usize)
    ensures
        counts_view(final(counts)@) == counts_view(old(counts)@) + nonzero_counts(seq![(label@, n as nat)]),
{
    let ghost before = counts_view(counts@);
    let ghost one = seq![(label@, n as nat)];
    proof {
        assert(one.drop_first() =~= Seq::<(Seq<char>, nat)>::empty());
        assert(nonzero_counts(one.drop_first()) =~= Seq::<(Seq<char>, nat)>::empty());
        assert(one[0] == (label@, n as nat));
    }
    if n > 0 {
        counts.push(CompatibilityClassificationCount { classification: String::from_str(label), count: n });
        proof {
            assert(counts_view(counts@) =~= before.push((label@, n as nat)));
            assert(nonzero_counts(one) =~= one);
            assert(before.push((label@, n as nat)) =~= before + one);
        }
    } else {
        proof {
            assert(nonzero_counts(one) =~= Seq::<(Seq<char>, nat)>::empty());
            assert(counts_view(counts@) =~= before + nonzero_counts(one));
        }
    }
}

proof fn lemma_nonzero_counts_append(a: Seq<(Seq<char>, nat)>, b: Seq<(Seq<char>, nat)>)
    ensures
        nonzero_counts(a + b) == nonzero_counts(a) + nonzero_counts(b),
    decreases a.len(),
{
    if a.len() == 0 {
        assert(a + b =~= b);
        assert(nonzero_counts(a) =~= Seq::<(Seq<char>, nat)>::empty());
        assert(nonzero_counts(a) + nonzero_counts(b) =~= nonzero_counts(b));
    } else {
        assert((a + b).drop_first() =~= a.drop_first() + b);
        assert((a + b)[0] == a[0]);
        lemma_nonzero_counts_append(a.drop_first(), b);
        if a[0].1 > 0 {
            assert(seq![a[0]] + (nonzero_counts(a.drop_first()) + nonzero_counts(b))
                =~= (seq![a[0]] + nonzero_counts(a.drop_first())) + nonzero_counts(b));
        }
    }
}

/// The change count and, per impact dimension, the number of changes in each
/// classification, labels in ascending order, absent classifications left out.
pub fn summarize(changes: &Vec<CompatibilityChange>) -> (summary: CompatibilitySummary)
    ensures
        summary.change_count == changes@.len(),
        counts_view(summary.generated_api@) == generated_api_counts(changes@),
        counts_view(summary.source_migration@) == source_migration_counts(changes@),
        counts_view(summary.artifact_binary@) == artifact_binary_counts(changes@),
        counts_view(summary.external_contract@) == external_contract_counts(changes@),
{
    let ghost c = changes@;
    let mut generated_api: Vec<CompatibilityClassificationCount> = Vec::new();
    proof {
        assert(counts_view(generated_api@) =~= Seq::<(Seq<char>, nat)>::empty());
    }
    let n = count_generated_api(changes, GeneratedApiImpact::Additive);
    push_count(&mut generated_api, "additive", n);
    let n = count_generated_api(changes, GeneratedApiImpact::Breaking);
    push_count(&mut generated_api, "breaking", n);
    let n = count_generated_api(changes, GeneratedApiImpact::ReviewRequired);
    push_count(&mut generated_api, "review_required", n);
    let n = count_generated_api(changes, GeneratedApiImpact::Unchanged);
    push_count(&mut generated_api, "unchanged", n);
    proof {
        let e = seq![
            ("additive"@, count_where(c, |x: CompatibilityChange| x.generated_api == GeneratedApiImpact::Additive)),
            ("breaking"@, count_where(c, |x: CompatibilityChange| x.generated_api == GeneratedApiImpact::Breaking)),
            ("review_required"@, count_where(c, |x: CompatibilityChange| x.generated_api == GeneratedApiImpact::ReviewRequired)),
            ("unchanged"@, count_where(c, |x: CompatibilityChange| x.generated_api == GeneratedApiImpact::Unchanged)),
        ];
        lemma_nonzero_counts_append(seq![e[0]], seq![e[1], e[2], e[3]]);
        lemma_nonzero_counts_append(seq![e[1]], seq![e[2], e[3]]);
        lemma_nonzero_counts_append(seq![e[2]], seq![e[3]]);
        assert(e =~= seq![e[0]] + seq![e[1], e[2], e[3]]);
        assert(seq![e[1], e[2], e[3]] =~= seq![e[1]] + seq![e[2], e[3]]);
        assert(seq![e[2], e[3]] =~= seq![e[2]] + seq![e[3]]);
    }

    let mut source_migration: Vec<CompatibilityClassificationCount> = Vec::new();
    proof {
        assert(counts_view(source_migration@) =~= Seq::<(Seq<char>, nat)>::empty());
    }
    let n = count_source_migration(changes, SourceMigrationImpact::DestructiveAuthorizationRequired);
    push_count(&mut source_migration, "destructive_authorization_required", n);
    let n = count_source_migration(changes, SourceMigrationImpact::ManualActionRequired);
    push_count(&mut source_migration, "manual_action_required", n);
    let n = count_source_migration(changes, SourceMigrationImpact::NotRequired);
    push_count(&mut source_migration, "not_required", n);
    let n = count_source_migration(changes, SourceMigrationImpact::ReviewRequired);
    push_count(&mut source_migration, "review_required", n);
    let n = count_source_migration(changes, SourceMigrationImpact::SupportedOperation);
    push_count(&mut source_migration, "supported_operation", n);
    proof {
        let e = seq![
            ("destructive_authorization_required"@, count_where(c, |x: CompatibilityChange| x.source_migration == SourceMigrationImpact::DestructiveAuthorizationRequired)),
            ("manual_action_required"@, count_where(c, |x: CompatibilityChange| x.source_migration == SourceMigrationImpact::ManualActionRequired)),
            ("not_required"@, count_where(c, |x: CompatibilityChange| x.source_migration == SourceMigrationImpact::NotRequired)),
            ("review_required"@, count_where(c, |x: CompatibilityChange| x.source_migration == SourceMigrationImpact::ReviewRequired)),
            ("supported_operation"@, count_where(c, |x: CompatibilityChange| x.source_migration == SourceMigrationImpact::SupportedOperation)),
        ];
        lemma_nonzero_counts_append(seq![e[0]], seq![e[1], e[2], e[3], e[4]]);
        lemma_nonzero_counts_append(seq![e[1]], seq![e[2], e[3], e[4]]);
        lemma_nonzero_counts_append(seq![e[2]], seq![e[3], e[4]]);
        lemma_nonzero_counts_append(seq![e[3]], seq![e[4]]);
        assert(e =~= seq![e[0]] + seq![e[1], e[2], e[3], e[4]]);
        assert(seq![e[1], e[2], e[3], e[4]] =~= seq![e[1]] + seq![e[2], e[3], e[4]]);
        assert(seq![e[2], e[3], e[4]] =~= seq![e[2]] + seq![e[3], e[4]]);
        assert(seq![e[3], e[4]] =~= seq![e[3]] + seq![e[4]]);
    }

    let mut artifact_binary: Vec<CompatibilityClassificationCount> = Vec::new();
    proof {
        assert(counts_view(artifact_binary@) =~= Seq::<(Seq<char>, nat)>::empty());
    }
    let n = count_artifact_binary(changes, ArtifactBinaryImpact::CrossSchemaInteroperabilityNotGuaranteed);
    push_count(&mut artifact_binary, "cross_schema_interoperability_not_guaranteed", n);
    let n = count_artifact_binary(changes, ArtifactBinaryImpact::RebuildRequired);
    push_count(&mut artifact_binary, "rebuild_required", n);
    let n = count_artifact_binary(changes, ArtifactBinaryImpact::Unchanged);
    push_count(&mut artifact_binary, "unchanged", n);
    proof {
        let e = seq![
            ("cross_schema_interoperability_not_guaranteed"@, count_where(c, |x: CompatibilityChange| x.artifact_binary == ArtifactBinaryImpact::CrossSchemaInteroperabilityNotGuaranteed)),
            ("rebuild_required"@, count_where(c, |x: CompatibilityChange| x.artifact_binary == ArtifactBinaryImpact::RebuildRequired)),
            ("unchanged"@, count_where(c, |x: CompatibilityChange| x.artifact_binary == ArtifactBinaryImpact::Unchanged)),
        ];
        lemma_nonzero_counts_append(seq![e[0]], seq![e[1], e[2]]);
        lemma_nonzero_counts_append(seq![e[1]], seq![e[2]]);
        assert(e =~= seq![e[0]] + seq![e[1], e[2]]);
        assert(seq![e[1], e[2]] =~= seq![e[1]] + seq![e[2]]);
    }

    let mut external_contract: Vec<CompatibilityClassificationCount> = Vec::new();
    proof {
        assert(counts_view(external_contract@) =~= Seq::<(Seq<char>, nat)>::empty());
    }
    let n = count_external_contract(changes, ExternalContractImpact::ExternalPolicyRequired);
    push_count(&mut external_contract, "external_policy_required", n);
    let n = count_external_contract(changes, ExternalContractImpact::NotAssessed);
    push_count(&mut external_contract, "not_assessed", n);
    proof {
        let e = seq![
            ("external_policy_required"@, count_where(c, |x: CompatibilityChange| x.external_contract == ExternalContractImpact::ExternalPolicyRequired)),
            ("not_assessed"@, count_where(c, |x: CompatibilityChange| x.external_contract == ExternalContractImpact::NotAssessed)),
        ];
        lemma_nonzero_counts_append(seq![e[0]], seq![e[1]]);
        assert(e =~= seq![e[0]] + seq![e[1]]);
    }

    CompatibilitySummary {
        change_count: changes.len(),
        generated_api,
        source_migration,
        artifact_binary,
        external_contract,
    }
}

} // verus!
