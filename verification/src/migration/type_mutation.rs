//! Type migrations: the operations on a value object, enum or custom type.

use vstd::prelude::*;

use crate::computed_view::quoted_message;
use crate::document::{types_in, ConversionDefinition, CustomTypeDefinition, DataValue, EnumDefinition, EnumMember, FlagsDefinition,
    LoadedDocument, ProjectDocuments, SourceDocument, TypeDocument, TypeFieldDefinition, ValueObjectDefinition};
use crate::error::{fresh_diagnostic, DiagnosticView, ErrorKind, MasterdataError};
use crate::migration::SourceCommitCandidate;
use crate::text::str_eq;
use crate::text::strings_contain;
use crate::text_order::{strictly_ascending, texts, union_ascending};

verus! {

/// One operation on the type named by the command's target.
#[derive(Debug, Clone, PartialEq)]
pub struct TypeMigrationCommand {
    pub target: String,
    pub operation: TypeMigrationOperation,
}

#[derive(Debug, Clone, PartialEq)]
pub enum TypeMigrationOperation {
    SetValueObjectConversions(ConversionDefinition),
    AddEnumMember(EnumMember),
    RenameEnumMember { member: String, new_name: String },
    DropEnumMember { member: String },
    AddCustomField { field: TypeFieldDefinition, initializer: Option<DataValue> },
    RenameCustomField { field: String, new_name: String },
    DropCustomField { field: String },
}

impl TypeMigrationOperation {
    /// The operation's name, as reported to the user.
    pub fn name(&self) -> (name: &'static str)
        ensures
            name@ == match self {
                TypeMigrationOperation::SetValueObjectConversions(_) => "SetValueObjectConversions"@,
                TypeMigrationOperation::AddEnumMember(_) => "AddEnumMember"@,
                TypeMigrationOperation::RenameEnumMember { .. } => "RenameEnumMember"@,
                TypeMigrationOperation::DropEnumMember { .. } => "DropEnumMember"@,
                TypeMigrationOperation::AddCustomField { .. } => "AddCustomField"@,
                TypeMigrationOperation::RenameCustomField { .. } => "RenameCustomField"@,
                TypeMigrationOperation::DropCustomField { .. } => "DropCustomField"@,
            },
    {
        match self {
            TypeMigrationOperation::SetValueObjectConversions(_) => "SetValueObjectConversions",
            TypeMigrationOperation::AddEnumMember(_) => "AddEnumMember",
            TypeMigrationOperation::RenameEnumMember { .. } => "RenameEnumMember",
            TypeMigrationOperation::DropEnumMember { .. } => "DropEnumMember",
            TypeMigrationOperation::AddCustomField { .. } => "AddCustomField",
            TypeMigrationOperation::RenameCustomField { .. } => "RenameCustomField",
            TypeMigrationOperation::DropCustomField { .. } => "DropCustomField",
        }
    }

    /// What the operation selects inside the type: `conversions`, or the
    /// member or field it names.
    pub fn selector(&self) -> (selector: &str)
        ensures
            selector@ == match self {
                TypeMigrationOperation::SetValueObjectConversions(_) => "conversions"@,
                TypeMigrationOperation::AddEnumMember(member) => member.name@,
                TypeMigrationOperation::RenameEnumMember { member, .. } => member@,
                TypeMigrationOperation::DropEnumMember { member } => member@,
                TypeMigrationOperation::AddCustomField { field, .. } => field.name@,
                TypeMigrationOperation::RenameCustomField { field, .. } => field@,
                TypeMigrationOperation::DropCustomField { field } => field@,
            },
    {
        match self {
            TypeMigrationOperation::SetValueObjectConversions(_) => "conversions",
            TypeMigrationOperation::AddEnumMember(member) => member.name.as_str(),
            TypeMigrationOperation::RenameEnumMember { member, .. } => member.as_str(),
            TypeMigrationOperation::DropEnumMember { member } => member.as_str(),
            TypeMigrationOperation::AddCustomField { field, .. } => field.name.as_str(),
            TypeMigrationOperation::RenameCustomField { field, .. } => field.as_str(),
            TypeMigrationOperation::DropCustomField { field } => field.as_str(),
        }
    }

    /// Whether the operation drops a member or field.
    pub fn destructive(&self) -> (destructive: bool)
        ensures
            destructive == (self is DropEnumMember || self is DropCustomField),
    {
        match self {
            TypeMigrationOperation::DropEnumMember { .. } => true,
            TypeMigrationOperation::DropCustomField { .. } => true,
            _ => false,
        }
    }
}

/// Whether `declaration` is a custom type with a field whose type is named
/// in `names`.
pub open spec fn uses_any(declaration: TypeDocument, names: Seq<Seq<char>>) -> bool {
    declaration.custom matches Some(custom) && exists|k: int| 0 <= k < custom.fields@.len()
        && names.contains((#[trigger] custom.fields@[k]).declared_type@)
}

/// Whether `declaration` is a custom type with a field whose type is in `names`.
pub open spec fn uses_set(declaration: TypeDocument, names: Set<Seq<char>>) -> bool {
    declaration.custom matches Some(custom) && exists|k: int| 0 <= k < custom.fields@.len()
        && names.contains((#[trigger] custom.fields@[k]).declared_type@)
}

/// The types that reach `target` through at most `n` custom-type fields.
pub open spec fn dependents_within(declarations: Seq<(String, TypeDocument)>, target: Seq<char>, n: nat) -> Set<Seq<char>>
    decreases n,
{
    if n == 0 {
        set![target]
    } else {
        let before = dependents_within(declarations, target, (n - 1) as nat);
        before.union(Set::new(|x: Seq<char>| exists|i: int| 0 <= i < declarations.len()
            && (#[trigger] declarations[i]).1.name@ == x && uses_set(declarations[i].1, before)))
    }
}

/// Whether the type `name` depends on `target`: it is the target, or a
/// custom type with a field of a type that depends on it.
pub open spec fn depends_on(declarations: Seq<(String, TypeDocument)>, target: Seq<char>, name: Seq<char>) -> bool {
    exists|n: nat| #[trigger] dependents_within(declarations, target, n).contains(name)
}

/// How many declarations have a name outside `names`.
pub open spec fn names_outside(declarations: Seq<(String, TypeDocument)>, names: Seq<Seq<char>>) -> nat
    decreases declarations.len(),
{
    if declarations.len() == 0 {
        0
    } else {
        names_outside(declarations.drop_last(), names)
            + if names.contains(declarations.last().1.name@) { 0nat } else { 1nat }
    }
}

proof fn lemma_names_outside_shrinks(declarations: Seq<(String, TypeDocument)>, a: Seq<Seq<char>>, b: Seq<Seq<char>>)
    requires
        forall|x: Seq<char>| a.contains(x) ==> b.contains(x),
    ensures
        names_outside(declarations, b) <= names_outside(declarations, a),
        (exists|i: int| 0 <= i < declarations.len() && !a.contains((#[trigger] declarations[i]).1.name@)
            && b.contains(declarations[i].1.name@))
            ==> names_outside(declarations, b) < names_outside(declarations, a),
    decreases declarations.len(),
{
    if declarations.len() > 0 {
        let rest = declarations.drop_last();
        lemma_names_outside_shrinks(rest, a, b);
        if exists|i: int| 0 <= i < declarations.len() && !a.contains((#[trigger] declarations[i]).1.name@)
            && b.contains(declarations[i].1.name@) {
            let i = choose|i: int| 0 <= i < declarations.len() && !a.contains((#[trigger] declarations[i]).1.name@)
                && b.contains(declarations[i].1.name@);
            if i < declarations.len() - 1 {
                assert(rest[i] == declarations[i]);
            }
        }
    }
}

proof fn lemma_dependents_grow(declarations: Seq<(String, TypeDocument)>, target: Seq<char>, m: nat, n: nat)
    requires
        m <= n,
    ensures
        dependents_within(declarations, target, m).subset_of(dependents_within(declarations, target, n)),
    decreases n,
{
    if m < n {
        lemma_dependents_grow(declarations, target, m, (n - 1) as nat);
    }
}

proof fn lemma_closed_holds_dependents(declarations: Seq<(String, TypeDocument)>, target: Seq<char>, names: Seq<Seq<char>>, n: nat)
    requires
        names.contains(target),
        forall|i: int| 0 <= i < declarations.len() && uses_any((#[trigger] declarations[i]).1, names)
            ==> names.contains(declarations[i].1.name@),
    ensures
        forall|x: Seq<char>| dependents_within(declarations, target, n).contains(x) ==> names.contains(x),
    decreases n,
{
    if n > 0 {
        let before = dependents_within(declarations, target, (n - 1) as nat);
        lemma_closed_holds_dependents(declarations, target, names, (n - 1) as nat);
        assert forall|x: Seq<char>| dependents_within(declarations, target, n).contains(x) implies names.contains(x) by {
            if !before.contains(x) {
                let i = choose|i: int| 0 <= i < declarations.len()
                    && (#[trigger] declarations[i]).1.name@ == x && uses_set(declarations[i].1, before);
                let custom = declarations[i].1.custom->0;
                let k = choose|k: int| 0 <= k < custom.fields@.len()
                    && before.contains((#[trigger] custom.fields@[k]).declared_type@);
                assert(names.contains(custom.fields@[k].declared_type@));
                assert(uses_any(declarations[i].1, names));
            }
        }
    }
}

fn uses_dependent(declaration: &TypeDocument, names: &Vec<String>) -> (uses: bool)
    ensures
        uses == uses_any(*declaration, names.deep_view()),
{
    match &declaration.custom {
        None => false,
        Some(custom) => {
            let mut k: usize = 0;
            while k < custom.fields.len()
                invariant
                    k <= custom.fields@.len(),
                    declaration.custom == Some(*custom),
                    forall|j: int| 0 <= j < k ==> !names.deep_view().contains((#[trigger] custom.fields@[j]).declared_type@),
                decreases custom.fields@.len() - k,
            {
                if strings_contain(names, custom.fields[k].declared_type.as_str()) {
                    proof {
                        let c = declaration.custom->0;
                        assert(c == *custom);
                        assert(names.deep_view().contains(c.fields@[k as int].declared_type@));
                    }
                    return true;
                }
                k = k + 1;
            }
            false
        },
    }
}

/// The types that depend on `target` through custom-type fields, the
/// target among them, each once in ascending order. Their occurrences are
/// the ones a migration of the target touches.
pub fn dependent_types(documents: &ProjectDocuments, target: &str) -> (names: Vec<String>)
    ensures
        strictly_ascending(texts(names@)),
        forall|x: Seq<char>| texts(names@).contains(x) <==> depends_on(types_in(documents.files@), target@, x),
{
    let declarations = documents.types();
    let ghost decls = types_in(documents.files@);
    let mut dependent: Vec<String> = Vec::new();
    dependent.push(target.to_owned());
    proof {
        assert(dependent.deep_view() =~= seq![target@]);
        assert(dependent.deep_view()[0] == target@);
        assert(dependents_within(decls, target@, 0).contains(target@));
        assert forall|x: Seq<char>| dependent.deep_view().contains(x) implies depends_on(decls, target@, x) by {
            assert(dependents_within(decls, target@, 0).contains(x));
        }
    }
    loop
        invariant
            declarations@.len() == decls.len(),
            forall|i: int| 0 <= i < declarations@.len() ==> (#[trigger] declarations@[i]).1 == decls[i].1,
            dependent.deep_view().contains(target@),
            forall|x: Seq<char>| dependent.deep_view().contains(x) ==> depends_on(decls, target@, x),
        ensures
            forall|x: Seq<char>| dependent.deep_view().contains(x) <==> depends_on(decls, target@, x),
        decreases names_outside(decls, dependent.deep_view()),
    {
        let ghost start = dependent.deep_view();
        let mut changed = false;
        let mut i: usize = 0;
        while i < declarations.len()
            invariant
                i <= declarations@.len() == decls.len(),
                forall|j: int| 0 <= j < declarations@.len() ==> (#[trigger] declarations@[j]).1 == decls[j].1,
                dependent.deep_view().contains(target@),
                forall|x: Seq<char>| dependent.deep_view().contains(x) ==> depends_on(decls, target@, x),
                forall|x: Seq<char>| start.contains(x) ==> dependent.deep_view().contains(x),
                changed ==> names_outside(decls, dependent.deep_view()) < names_outside(decls, start),
                !changed ==> dependent.deep_view() == start,
                !changed ==> forall|j: int| 0 <= j < i && uses_any((#[trigger] decls[j]).1, start)
                    ==> start.contains(decls[j].1.name@),
            decreases declarations@.len() - i,
        {
            let declaration = declarations[i].1;
            if uses_dependent(declaration, &dependent) && !strings_contain(&dependent, declaration.name.as_str()) {
                let ghost before = dependent.deep_view();
                proof {
                    let custom = declaration.custom->0;
                    let k = choose|k: int| 0 <= k < custom.fields@.len()
                        && before.contains((#[trigger] custom.fields@[k]).declared_type@);
                    let f = custom.fields@[k].declared_type@;
                    assert(depends_on(decls, target@, f));
                    let n = choose|n: nat| #[trigger] dependents_within(decls, target@, n).contains(f);
                    assert(uses_set(decls[i as int].1, dependents_within(decls, target@, n)));
                    assert(dependents_within(decls, target@, n + 1).contains(declaration.name@));
                    assert(depends_on(decls, target@, declaration.name@));
                }
                dependent.push(declaration.name.clone());
                proof {
                    assert(dependent.deep_view() =~= before.push(declaration.name@));
                    assert(decls[i as int].1.name@ == declaration.name@);
                    assert(dependent.deep_view()[before.len() as int] == declaration.name@);
                    assert forall|x: Seq<char>| before.contains(x) implies dependent.deep_view().contains(x) by {
                        let j = choose|j: int| 0 <= j < before.len() && before[j] == x;
                        assert(dependent.deep_view()[j] == x);
                    }
                    assert forall|x: Seq<char>| dependent.deep_view().contains(x) implies depends_on(decls, target@, x) by {
                        if x != declaration.name@ {
                            let j = choose|j: int| 0 <= j < dependent.deep_view().len() && dependent.deep_view()[j] == x;
                            assert(j < before.len());
                            assert(before[j] == x);
                            assert(before.contains(x));
                        }
                    }
                    lemma_names_outside_shrinks(decls, before, dependent.deep_view());
                    lemma_names_outside_shrinks(decls, start, before);
                    if !changed {
                        assert(!start.contains(decls[i as int].1.name@));
                        assert(dependent.deep_view().contains(decls[i as int].1.name@));
                    }
                }
                changed = true;
            }
            i = i + 1;
        }
        if !changed {
            proof {
                assert forall|x: Seq<char>| depends_on(decls, target@, x) implies dependent.deep_view().contains(x) by {
                    let n = choose|n: nat| #[trigger] dependents_within(decls, target@, n).contains(x);
                    lemma_closed_holds_dependents(decls, target@, start, n);
                }
            }
            break;
        }
    }
    let empty: Vec<String> = Vec::new();
    let names = union_ascending(&empty, &dependent);
    proof {
        assert(texts(dependent@) =~= dependent.deep_view());
        assert(texts(empty@) =~= Seq::<Seq<char>>::empty());
    }
    names
}

/// A type migration checked against the project: the command, how many
/// occurrences it rewrites, and the candidate to commit.
#[derive(Debug, Clone, PartialEq)]
pub struct TypeMigrationDryRun {
    pub command: TypeMigrationCommand,
    pub affected_occurrence_count: usize,
    pub candidate: SourceCommitCandidate,
}

/// A refused type migration.
pub open spec fn type_migration_failure(message: Seq<char>) -> DiagnosticView {
    DiagnosticView {
        related_requirements: seq!["TYPE-MIGRATION-014"@],
        ..fresh_diagnostic("E-TYPE-MIGRATION"@, ErrorKind::Validation, message)
    }
}

fn type_failure(message: &str) -> (error: MasterdataError)
    ensures
        error@ == type_migration_failure(message@),
{
    let error = MasterdataError::new("E-TYPE-MIGRATION", ErrorKind::Validation, message)
        .with_related_requirement("TYPE-MIGRATION-014");
    proof {
        assert(error@.related_requirements =~= seq!["TYPE-MIGRATION-014"@]);
    }
    error
}

/// The position of the first type document that declares `target`.
pub open spec fn target_position(files: Seq<LoadedDocument>, target: Seq<char>) -> Option<int> {
    if exists|i: int| 0 <= i < files.len() && ((#[trigger] files[i]).document matches SourceDocument::Type(t) && t.name@ == target) {
        Some(choose|i: int| 0 <= i < files.len() && ((#[trigger] files[i]).document matches SourceDocument::Type(t) && t.name@ == target)
            && forall|j: int| 0 <= j < i ==> !((#[trigger] files[j]).document matches SourceDocument::Type(t) && t.name@ == target))
    } else {
        None
    }
}

/// How many type documents declare `target`.
pub open spec fn declaration_count(files: Seq<LoadedDocument>, target: Seq<char>) -> nat
    decreases files.len(),
{
    if files.len() == 0 {
        0
    } else {
        declaration_count(files.drop_last(), target) + if files.last().document matches SourceDocument::Type(t)
            && t.name@ == target { 1nat } else { 0nat }
    }
}

/// The message of a migration whose target is not declared exactly once.
pub open spec fn unresolved_type(target: Seq<char>) -> Seq<char> {
    "type `"@ + target + "` cannot be resolved uniquely"@
}

/// Whether the document at `i` declares `target`.
pub open spec fn declares_type(files: Seq<LoadedDocument>, i: int, target: Seq<char>) -> bool {
    files[i].document matches SourceDocument::Type(t) && t.name@ == target
}

proof fn lemma_declared_at(files: Seq<LoadedDocument>, target: Seq<char>) -> (i: int)
    requires
        declaration_count(files, target) > 0,
    ensures
        0 <= i < files.len(),
        declares_type(files, i, target),
    decreases files.len(),
{
    if declaration_count(files.drop_last(), target) > 0 {
        let i = lemma_declared_at(files.drop_last(), target);
        assert(files.drop_last()[i] == files[i]);
        i
    } else {
        assert(files.last() == files[files.len() - 1]);
        files.len() - 1
    }
}

proof fn lemma_declared_somewhere(files: Seq<LoadedDocument>, target: Seq<char>)
    requires
        declaration_count(files, target) > 0,
    ensures
        target_position(files, target) is Some,
{
    let i = lemma_declared_at(files, target);
    assert(files[i].document matches SourceDocument::Type(t) && t.name@ == target);
}

fn count_declarations(documents: &ProjectDocuments, target: &str) -> (count: usize)
    ensures
        count == declaration_count(documents.files@, target@),
{
    let files = &documents.files;
    let mut count: usize = 0;
    let mut i: usize = 0;
    proof {
        assert(files@.take(0) =~= Seq::<LoadedDocument>::empty());
    }
    while i < files.len()
        invariant
            i <= files@.len(),
            count <= i,
            count == declaration_count(files@.take(i as int), target@),
        decreases files@.len() - i,
    {
        proof {
            assert(files@.take(i + 1).drop_last() =~= files@.take(i as int));
            assert(files@.take(i + 1).last() == files@[i as int]);
        }
        match &files[i].document {
            SourceDocument::Type(declaration) => {
                if str_eq(declaration.name.as_str(), target) {
                    count = count + 1;
                }
            },
            _ => {},
        }
        i = i + 1;
    }
    proof {
        assert(files@.take(i as int) =~= files@);
    }
    count
}

/// Refuses a target that is not declared by exactly one type document.
fn check_unique_target(documents: &ProjectDocuments, target: &str) -> (result: Result<(), MasterdataError>)
    ensures
        declaration_count(documents.files@, target@) == 1 ==> result is Ok
            && target_position(documents.files@, target@) is Some,
        declaration_count(documents.files@, target@) != 1 ==> (result matches Err(e)
            && e@ == type_migration_failure(unresolved_type(target@))),
{
    if count_declarations(documents, target) != 1 {
        let message = quoted_message("type `", target, "` cannot be resolved uniquely");
        return Err(type_failure(message.as_str()));
    }
    proof {
        lemma_declared_somewhere(documents.files@, target@);
    }
    Ok(())
}

/// The type document that a migration of `target` changes: the one that
/// declares it; a target that no type document or several declare is
/// refused.
pub fn migration_type_declaration<'a>(documents: &'a ProjectDocuments, target: &str) -> (result: Result<&'a TypeDocument, MasterdataError>)
    ensures
        declaration_count(documents.files@, target@) == 1 ==> target_position(documents.files@, target@) is Some,
        if declaration_count(documents.files@, target@) == 1 {
            result matches Ok(t) && documents.files@[target_position(documents.files@, target@)->Some_0].document
                == SourceDocument::Type(*t)
        } else {
            result matches Err(e) && e@ == type_migration_failure(unresolved_type(target@))
        },
{
    match check_unique_target(documents, target) {
        Err(e) => return Err(e),
        Ok(()) => {},
    }
    let mut i: usize = 0;
    while i < documents.files.len()
        invariant
            i <= documents.files@.len(),
            declaration_count(documents.files@, target@) == 1,
            target_position(documents.files@, target@) is Some,
            forall|j: int| 0 <= j < i ==> !((#[trigger] documents.files@[j]).document matches SourceDocument::Type(t) && t.name@ == target@),
        decreases documents.files@.len() - i,
    {
        match &documents.files[i].document {
            SourceDocument::Type(declaration) => {
                if str_eq(declaration.name.as_str(), target) {
                    proof {
                        let files = documents.files@;
                        assert(files[i as int].document matches SourceDocument::Type(t) && t.name@ == target@);
                        let k = choose|k: int| 0 <= k < files.len() && ((#[trigger] files[k]).document matches SourceDocument::Type(t) && t.name@ == target@)
                            && forall|j: int| 0 <= j < k ==> !((#[trigger] files[j]).document matches SourceDocument::Type(t) && t.name@ == target@);
                        if k < i {
                            assert(!(files[k].document matches SourceDocument::Type(t) && t.name@ == target@));
                        }
                        if k > i {
                            assert(!(files[i as int].document matches SourceDocument::Type(t) && t.name@ == target@));
                        }
                    }
                    return Ok(declaration);
                }
            },
            _ => {},
        }
        i = i + 1;
    }
    proof {
        let files = documents.files@;
        let k = target_position(files, target@)->Some_0;
        assert(files[k].document matches SourceDocument::Type(t) && t.name@ == target@);
    }
    Err(type_failure("type not found"))
}

/// The position of the first member named `name`.
pub open spec fn member_position(members: Seq<EnumMember>, name: Seq<char>) -> Option<int> {
    if exists|i: int| 0 <= i < members.len() && (#[trigger] members[i]).name@ == name {
        Some(choose|i: int| 0 <= i < members.len() && (#[trigger] members[i]).name@ == name
            && forall|j: int| 0 <= j < i ==> (#[trigger] members[j]).name@ != name)
    } else {
        None
    }
}

/// The position of the first field named `name`.
pub open spec fn field_position(fields: Seq<TypeFieldDefinition>, name: Seq<char>) -> Option<int> {
    if exists|i: int| 0 <= i < fields.len() && (#[trigger] fields[i]).name@ == name {
        Some(choose|i: int| 0 <= i < fields.len() && (#[trigger] fields[i]).name@ == name
            && forall|j: int| 0 <= j < i ==> (#[trigger] fields[j]).name@ != name)
    } else {
        None
    }
}

fn find_member(members: &Vec<EnumMember>, name: &str) -> (found: Option<usize>)
    ensures
        match member_position(members@, name@) {
            Some(i) => found matches Some(j) && j as int == i,
            None => found is None,
        },
        found matches Some(i) ==> i < members@.len(),
{
    let mut i: usize = 0;
    while i < members.len()
        invariant
            i <= members@.len(),
            forall|j: int| 0 <= j < i ==> (#[trigger] members@[j]).name@ != name@,
        decreases members@.len() - i,
    {
        if str_eq(members[i].name.as_str(), name) {
            proof {
                let k = choose|k: int| 0 <= k < members@.len() && (#[trigger] members@[k]).name@ == name@
                    && forall|j: int| 0 <= j < k ==> (#[trigger] members@[j]).name@ != name@;
                if k < i {
                    assert(members@[k].name@ != name@);
                }
                if k > i {
                    assert(members@[i as int].name@ != name@);
                }
            }
            return Some(i);
        }
        i = i + 1;
    }
    None
}

fn find_field(fields: &Vec<TypeFieldDefinition>, name: &str) -> (found: Option<usize>)
    ensures
        match field_position(fields@, name@) {
            Some(i) => found matches Some(j) && j as int == i,
            None => found is None,
        },
        found matches Some(i) ==> i < fields@.len(),
{
    let mut i: usize = 0;
    while i < fields.len()
        invariant
            i <= fields@.len(),
            forall|j: int| 0 <= j < i ==> (#[trigger] fields@[j]).name@ != name@,
        decreases fields@.len() - i,
    {
        if str_eq(fields[i].name.as_str(), name) {
            proof {
                let k = choose|k: int| 0 <= k < fields@.len() && (#[trigger] fields@[k]).name@ == name@
                    && forall|j: int| 0 <= j < k ==> (#[trigger] fields@[j]).name@ != name@;
                if k < i {
                    assert(fields@[k].name@ != name@);
                }
                if k > i {
                    assert(fields@[i as int].name@ != name@);
                }
            }
            return Some(i);
        }
        i = i + 1;
    }
    None
}

/// The members of an enum or flags type after a member operation; `None`
/// where the member it names does not exist.
pub open spec fn members_after(operation: TypeMigrationOperation, members: Seq<EnumMember>) -> Option<Seq<EnumMember>> {
    match operation {
        TypeMigrationOperation::AddEnumMember(member) => Some(members.push(member)),
        TypeMigrationOperation::RenameEnumMember { member, new_name } => match member_position(members, member@) {
            Some(i) => Some(members.update(i, EnumMember { name: new_name, value: members[i].value })),
            None => None,
        },
        TypeMigrationOperation::DropEnumMember { member } => match member_position(members, member@) {
            Some(i) => Some(members.remove(i)),
            None => None,
        },
        _ => None,
    }
}

/// The fields of a custom type after a field operation; `None` where the
/// field it names does not exist.
pub open spec fn fields_after(operation: TypeMigrationOperation, fields: Seq<TypeFieldDefinition>) -> Option<Seq<TypeFieldDefinition>> {
    match operation {
        TypeMigrationOperation::AddCustomField { field, .. } => Some(fields.push(field)),
        TypeMigrationOperation::RenameCustomField { field, new_name } => match field_position(fields, field@) {
            Some(i) => Some(fields.update(i, TypeFieldDefinition { name: new_name, ..fields[i] })),
            None => None,
        },
        TypeMigrationOperation::DropCustomField { field } => match field_position(fields, field@) {
            Some(i) => Some(fields.remove(i)),
            None => None,
        },
        _ => None,
    }
}

/// The members that a member operation works on: an enum's, else a flags
/// type's.
pub open spec fn enumerated_members(declaration: TypeDocument) -> Option<Seq<EnumMember>> {
    match declaration.enum_definition {
        Some(definition) => Some(definition.members@),
        None => match declaration.flags {
            Some(definition) => Some(definition.members@),
            None => None,
        },
    }
}

/// Why an operation cannot apply to the declaration, if it cannot.
pub open spec fn type_migration_refusal(declaration: TypeDocument, operation: TypeMigrationOperation) -> Option<Seq<char>> {
    match operation {
        TypeMigrationOperation::SetValueObjectConversions(_) => if declaration.value_object is None {
            Some("target is not a Value Object"@)
        } else {
            None
        },
        TypeMigrationOperation::AddEnumMember(_) => if enumerated_members(declaration) is None {
            Some("target is not Enum or Flags"@)
        } else {
            None
        },
        TypeMigrationOperation::RenameEnumMember { member, .. } | TypeMigrationOperation::DropEnumMember { member } =>
            if declaration.flags is Some && member@ == "None"@ {
                Some("Flags None = 0 cannot be renamed or dropped"@)
            } else if enumerated_members(declaration) is None {
                Some("target is not Enum or Flags"@)
            } else if members_after(operation, enumerated_members(declaration)->0) is None {
                Some("member not found"@)
            } else {
                None
            },
        _ => match declaration.custom {
            None => Some("target is not Custom Type"@),
            Some(custom) => if fields_after(operation, custom.fields@) is None {
                Some("field not found"@)
            } else {
                None
            },
        },
    }
}

/// The declaration after the operation, where it applies.
pub open spec fn migrated(declaration: TypeDocument, operation: TypeMigrationOperation, after: TypeDocument) -> bool {
    &&& after.kind == declaration.kind
    &&& after.name == declaration.name
    &&& match operation {
        TypeMigrationOperation::SetValueObjectConversions(conversions) => {
            &&& after.value_object == Some(ValueObjectDefinition {
                underlying: declaration.value_object->0.underlying,
                conversions,
            })
            &&& after.custom == declaration.custom
            &&& after.enum_definition == declaration.enum_definition
            &&& after.flags == declaration.flags
        },
        TypeMigrationOperation::AddEnumMember(_) | TypeMigrationOperation::RenameEnumMember { .. }
        | TypeMigrationOperation::DropEnumMember { .. } => {
            &&& after.value_object == declaration.value_object
            &&& after.custom == declaration.custom
            &&& match declaration.enum_definition {
                Some(definition) => after.flags == declaration.flags && (after.enum_definition matches Some(d)
                    && d.underlying == definition.underlying
                    && Some(d.members@) == members_after(operation, definition.members@)),
                None => after.enum_definition is None && (after.flags matches Some(d)
                    && d.underlying == declaration.flags->0.underlying
                    && Some(d.members@) == members_after(operation, declaration.flags->0.members@)),
            }
        },
        _ => {
            &&& after.value_object == declaration.value_object
            &&& after.enum_definition == declaration.enum_definition
            &&& after.flags == declaration.flags
            &&& after.custom matches Some(c) && Some(c.fields@) == fields_after(operation, declaration.custom->0.fields@)
        },
    }
}

fn rename_member(members: &mut Vec<EnumMember>, member: &str, new_name: String) -> (applied: bool)
    ensures
        match member_position(old(members)@, member@) {
            Some(i) => applied && final(members)@ == old(members)@.update(i,
                EnumMember { name: new_name, value: old(members)@[i].value }),
            None => !applied,
        },
{
    match find_member(members, member) {
        Some(i) => {
            let old_member = members.remove(i);
            members.insert(i, EnumMember { name: new_name, value: old_member.value });
            proof {
                assert(members@ =~= old(members)@.update(i as int,
                    EnumMember { name: new_name, value: old(members)@[i as int].value }));
            }
            true
        },
        None => false,
    }
}

fn drop_member(members: &mut Vec<EnumMember>, member: &str) -> (applied: bool)
    ensures
        match member_position(old(members)@, member@) {
            Some(i) => applied && final(members)@ == old(members)@.remove(i),
            None => !applied,
        },
{
    match find_member(members, member) {
        Some(i) => {
            members.remove(i);
            true
        },
        None => false,
    }
}

fn rename_field(fields: &mut Vec<TypeFieldDefinition>, field: &str, new_name: String) -> (applied: bool)
    ensures
        match field_position(old(fields)@, field@) {
            Some(i) => applied && final(fields)@ == old(fields)@.update(i,
                TypeFieldDefinition { name: new_name, ..old(fields)@[i] }),
            None => !applied,
        },
{
    match find_field(fields, field) {
        Some(i) => {
            let old_field = fields.remove(i);
            fields.insert(i, TypeFieldDefinition { name: new_name, ..old_field });
            proof {
                assert(fields@ =~= old(fields)@.update(i as int,
                    TypeFieldDefinition { name: new_name, ..old(fields)@[i as int] }));
            }
            true
        },
        None => false,
    }
}

fn drop_field(fields: &mut Vec<TypeFieldDefinition>, field: &str) -> (applied: bool)
    ensures
        match field_position(old(fields)@, field@) {
            Some(i) => applied && final(fields)@ == old(fields)@.remove(i),
            None => !applied,
        },
{
    match find_field(fields, field) {
        Some(i) => {
            fields.remove(i);
            true
        },
        None => false,
    }
}

fn apply_member_operation(members: &mut Vec<EnumMember>, operation: TypeMigrationOperation) -> (applied: bool)
    requires
        operation is AddEnumMember || operation is RenameEnumMember || operation is DropEnumMember,
    ensures
        applied == members_after(operation, old(members)@) is Some,
        applied ==> Some(final(members)@) == members_after(operation, old(members)@),
{
    match operation {
        TypeMigrationOperation::AddEnumMember(member) => {
            members.push(member);
            true
        },
        TypeMigrationOperation::RenameEnumMember { member, new_name } => rename_member(members, member.as_str(), new_name),
        TypeMigrationOperation::DropEnumMember { member } => drop_member(members, member.as_str()),
        _ => false,
    }
}

fn apply_field_operation(fields: &mut Vec<TypeFieldDefinition>, operation: TypeMigrationOperation) -> (applied: bool)
    requires
        operation is AddCustomField || operation is RenameCustomField || operation is DropCustomField,
    ensures
        applied == fields_after(operation, old(fields)@) is Some,
        applied ==> Some(final(fields)@) == fields_after(operation, old(fields)@),
{
    match operation {
        TypeMigrationOperation::AddCustomField { field, .. } => {
            fields.push(field);
            true
        },
        TypeMigrationOperation::RenameCustomField { field, new_name } => rename_field(fields, field.as_str(), new_name),
        TypeMigrationOperation::DropCustomField { field } => drop_field(fields, field.as_str()),
        _ => false,
    }
}

/// The declaration that a type migration expects: the operation applied
/// to the target type, or why it cannot apply. Flags keep their `None = 0`
/// member.
pub fn migrate_type_declaration(declaration: TypeDocument, operation: TypeMigrationOperation)
    -> (result: Result<TypeDocument, MasterdataError>)
    ensures
        match type_migration_refusal(declaration, operation) {
            Some(message) => result matches Err(e) && e@ == type_migration_failure(message),
            None => result matches Ok(after) && migrated(declaration, operation, after),
        },
{
    let ghost original = declaration;
    let TypeDocument { kind, name, value_object, custom, enum_definition, flags } = declaration;
    match operation {
        TypeMigrationOperation::SetValueObjectConversions(conversions) => match value_object {
            Some(definition) => Ok(TypeDocument {
                kind,
                name,
                value_object: Some(ValueObjectDefinition { underlying: definition.underlying, conversions }),
                custom,
                enum_definition,
                flags,
            }),
            None => Err(type_failure("target is not a Value Object")),
        },
        TypeMigrationOperation::AddEnumMember(_) | TypeMigrationOperation::RenameEnumMember { .. }
        | TypeMigrationOperation::DropEnumMember { .. } => {
            let protected = match &operation {
                TypeMigrationOperation::RenameEnumMember { member, .. } => flags.is_some() && str_eq(member.as_str(), "None"),
                TypeMigrationOperation::DropEnumMember { member } => flags.is_some() && str_eq(member.as_str(), "None"),
                _ => false,
            };
            if protected {
                return Err(type_failure("Flags None = 0 cannot be renamed or dropped"));
            }
            match enum_definition {
                Some(definition) => {
                    let EnumDefinition { underlying, members } = definition;
                    let mut members = members;
                    if !apply_member_operation(&mut members, operation) {
                        return Err(type_failure("member not found"));
                    }
                    Ok(TypeDocument {
                        kind,
                        name,
                        value_object,
                        custom,
                        enum_definition: Some(EnumDefinition { underlying, members }),
                        flags,
                    })
                },
                None => match flags {
                    Some(definition) => {
                        let FlagsDefinition { underlying, members } = definition;
                        let mut members = members;
                        if !apply_member_operation(&mut members, operation) {
                            return Err(type_failure("member not found"));
                        }
                        Ok(TypeDocument {
                            kind,
                            name,
                            value_object,
                            custom,
                            enum_definition: None,
                            flags: Some(FlagsDefinition { underlying, members }),
                        })
                    },
                    None => Err(type_failure("target is not Enum or Flags")),
                },
            }
        },
        _ => match custom {
            Some(definition) => {
                let mut fields = definition.fields;
                if !apply_field_operation(&mut fields, operation) {
                    return Err(type_failure("field not found"));
                }
                Ok(TypeDocument {
                    kind,
                    name,
                    value_object,
                    custom: Some(CustomTypeDefinition { fields }),
                    enum_definition,
                    flags,
                })
            },
            None => Err(type_failure("target is not Custom Type")),
        },
    }
}

fn target_index(documents: &ProjectDocuments, target: &str) -> (found: Option<usize>)
    ensures
        match target_position(documents.files@, target@) {
            Some(i) => found matches Some(j) && j as int == i,
            None => found is None,
        },
        found matches Some(j) ==> j < documents.files@.len()
            && (documents.files@[j as int].document matches SourceDocument::Type(t) && t.name@ == target@),
{
    let mut i: usize = 0;
    while i < documents.files.len()
        invariant
            i <= documents.files@.len(),
            forall|j: int| 0 <= j < i ==> !((#[trigger] documents.files@[j]).document matches SourceDocument::Type(t) && t.name@ == target@),
        decreases documents.files@.len() - i,
    {
        match &documents.files[i].document {
            SourceDocument::Type(declaration) => {
                if str_eq(declaration.name.as_str(), target) {
                    proof {
                        let files = documents.files@;
                        assert(files[i as int].document matches SourceDocument::Type(t) && t.name@ == target@);
                        let k = choose|k: int| 0 <= k < files.len() && ((#[trigger] files[k]).document matches SourceDocument::Type(t) && t.name@ == target@)
                            && forall|j: int| 0 <= j < k ==> !((#[trigger] files[j]).document matches SourceDocument::Type(t) && t.name@ == target@);
                        if k < i {
                            assert(!(files[k].document matches SourceDocument::Type(t) && t.name@ == target@));
                        }
                        if k > i {
                            assert(!(files[i as int].document matches SourceDocument::Type(t) && t.name@ == target@));
                        }
                    }
                    return Some(i);
                }
            },
            _ => {},
        }
        i = i + 1;
    }
    None
}

/// The documents that a type migration expects: the one type document
/// that declares the command's target, with the operation applied to it,
/// every other document unchanged; or why the migration is refused (a
/// target that no type document or several declare, or an operation that
/// the declaration does not admit).
#[verifier::spinoff_prover]
#[verifier::rlimit(40)]
pub fn expected_type_migration(documents: ProjectDocuments, command: TypeMigrationCommand)
    -> (result: Result<ProjectDocuments, MasterdataError>)
    ensures
        declaration_count(documents.files@, command.target@) == 1 ==> target_position(documents.files@, command.target@) is Some,
        match target_position(documents.files@, command.target@) {
            Some(i) if declaration_count(documents.files@, command.target@) == 1 => {
                let declaration = documents.files@[i].document->Type_0;
                match type_migration_refusal(declaration, command.operation) {
                    Some(message) => result matches Err(e) && e@ == type_migration_failure(message),
                    None => result matches Ok(expected) && {
                        &&& expected.files@.len() == documents.files@.len()
                        &&& forall|j: int| 0 <= j < documents.files@.len() && j != i
                            ==> #[trigger] expected.files@[j] == documents.files@[j]
                        &&& expected.files@[i].path == documents.files@[i].path
                        &&& expected.files@[i].source == documents.files@[i].source
                        &&& expected.files@[i].document matches SourceDocument::Type(after)
                            && migrated(declaration, command.operation, after)
                    },
                }
            },
            _ => result matches Err(e) && e@ == type_migration_failure(unresolved_type(command.target@)),
        },
{
    match check_unique_target(&documents, command.target.as_str()) {
        Err(e) => return Err(e),
        Ok(()) => {},
    }
    let index = match target_index(&documents, command.target.as_str()) {
        Some(index) => index,
        None => return Err(type_failure("type not found")),
    };
    let ghost original = documents.files@;
    let TypeMigrationCommand { target: _, operation } = command;
    let mut files = documents.files;
    let LoadedDocument { path, source, document } = files.remove(index);
    proof {
        assert(document == original[index as int].document);
    }
    match document {
        SourceDocument::Type(declaration) => {
            match migrate_type_declaration(declaration, operation) {
                Ok(after) => {
                    files.insert(index, LoadedDocument { path, source, document: SourceDocument::Type(after) });
                    proof {
                        assert forall|j: int| 0 <= j < original.len() && j != index implies #[trigger] files@[j] == original[j] by {
                            if j < index {
                                assert(files@[j] == original.remove(index as int)[j]);
                            } else {
                                assert(files@[j] == original.remove(index as int)[j - 1]);
                            }
                        }
                    }
                    Ok(ProjectDocuments { files })
                },
                Err(e) => Err(e),
            }
        },
        _ => Err(type_failure("type not found")),
    }
}

} // verus!
