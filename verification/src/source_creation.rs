//! Typed source creation: the declaration that a creation request asks
//! for, with starter defaults expanded from the file's name. The host owns
//! the files.

use vstd::prelude::*;

use crate::data_authoring::is_normal_component;
use crate::document::{
    table_schemas, schemas_of_table, ConversionDefinition, CustomTypeDefinition, DataDocument, EnumDefinition,
    EnumMember, FieldDefinition, FlagsDefinition, IntegerLiteral, LoadedDocument, PrimaryKeyDefinition,
    ProjectDocuments, SchemaDocument, SecondaryKeyDefinition, SourceDocument, TypeDocument, TypeFieldDefinition,
    ValueObjectDefinition,
};
use crate::error::{DiagnosticView, ErrorKind, MasterdataError};
use crate::numeric::{decimal_text, decimal_u128, i128_text_value, is_digit, parse_i128};
use crate::project::{char_lists, components_of, path_components};
use crate::text::{chars_of, push_char, str_eq};
use crate::text_order::texts;
use crate::yaml_subset::{ascii_lower, ascii_lower_of};

verus! {

/// What to create.
#[derive(Debug)]
pub enum SourceCreation {
    Folder,
    /// A starter declaration named after the new file; its defaults are
    /// expanded here so that every host creates the same declaration.
    Starter { kind: StarterKind, table: Option<String> },
    Table {
        table: String,
        inline_records: bool,
        csharp_name: Option<String>,
        fields: Vec<FieldDefinition>,
        primary_key: PrimaryKeyDefinition,
        secondary_keys: Vec<SecondaryKeyDefinition>,
    },
    Data { table: String },
    ValueObject { name: String, underlying: String, conversions: ConversionDefinition },
    Enum { name: String, underlying: String, members: Vec<CreationMember> },
    Flags { name: String, underlying: String, members: Vec<CreationMember> },
    CustomType { name: String, fields: Vec<TypeFieldDefinition> },
}

#[derive(Debug, Clone, Copy, PartialEq, Eq, Structural)]
pub enum StarterKind {
    Table,
    Data,
    ValueObject,
    Enum,
    Flags,
    CustomType,
}

/// An enum or flags member as requested: its value is still text.
#[derive(Debug, Clone, PartialEq, Eq)]
pub struct CreationMember {
    pub name: String,
    pub value: String,
}

/// The choices that a creation form offers.
#[derive(Debug, Clone, PartialEq, Eq)]
pub struct CreationChoices {
    pub field_types: Vec<String>,
    pub tables: Vec<String>,
    pub value_object_underlyings: Vec<String>,
    pub enum_underlyings: Vec<String>,
}

/// A creation error about the file at `path`.
pub open spec fn creation_failure(code: Seq<char>, message: Seq<char>, path: Seq<char>, schema_path: Option<Seq<char>>)
    -> DiagnosticView {
    DiagnosticView {
        code,
        kind: ErrorKind::Validation,
        message,
        source: Some(path),
        line: None,
        column: None,
        schema_path,
        record_identity: None,
        suggestion: None,
        related_requirements: seq!["SOURCE-CREATE-010"@],
    }
}

pub(crate) fn creation_error(code: &str, message: &str, path: &str) -> (error: MasterdataError)
    ensures
        error@ == creation_failure(code@, message@, path@, None),
{
    let error = MasterdataError::new(code, ErrorKind::Validation, message)
        .with_source(path)
        .with_related_requirement("SOURCE-CREATE-010");
    proof {
        assert(error@.related_requirements =~= seq!["SOURCE-CREATE-010"@]);
    }
    error
}

/// The position of the last `.` in `name`, or -1.
pub open spec fn last_dot(name: Seq<char>) -> int
    decreases name.len(),
{
    if name.len() == 0 {
        -1
    } else if name.last() == '.' {
        name.len() - 1
    } else {
        last_dot(name.drop_last())
    }
}

/// `Path::file_stem`: the last component when it names a file, without
/// its extension; a name whose only dot leads keeps it.
pub open spec fn file_stem(path: Seq<char>) -> Option<Seq<char>> {
    let components = path_components(path);
    if components.len() > 0 && is_normal_component(components.last()) {
        let name = components.last();
        if last_dot(name) <= 0 {
            Some(name)
        } else {
            Some(name.take(last_dot(name)))
        }
    } else {
        None
    }
}

proof fn lemma_last_dot(name: Seq<char>)
    ensures
        -1 <= last_dot(name) < name.len(),
        last_dot(name) >= 0 ==> name[last_dot(name)] == '.',
        forall|k: int| last_dot(name) < k < name.len() ==> name[k] != '.',
    decreases name.len(),
{
    if name.len() > 0 && name.last() != '.' {
        lemma_last_dot(name.drop_last());
        assert forall|k: int| last_dot(name) < k < name.len() implies name[k] != '.' by {
            if k < name.len() - 1 {
                assert(name[k] == name.drop_last()[k]);
            }
        }
    }
}

/// The identity stem of the file at `path`, if it has a non-empty one.
pub fn starter_stem(path: &str) -> (stem: Option<Vec<char>>)
    ensures
        match stem {
            Some(s) => file_stem(path@) == Some(s@) && s@.len() > 0,
            None => file_stem(path@) is None || file_stem(path@) == Some(Seq::<char>::empty()),
        },
{
    let components = components_of(path);
    let n = components.len();
    proof {
        assert(char_lists(components@).len() == components@.len());
    }
    if n == 0 {
        return None;
    }
    let name = &components[n - 1];
    proof {
        assert(char_lists(components@).last() == name@);
    }
    if (name.len() == 1 && name[0] == '/') || (name.len() == 1 && name[0] == '.')
        || (name.len() == 2 && name[0] == '.' && name[1] == '.') {
        proof {
            if name@.len() == 1 {
                if name@[0] == '/' {
                    assert(name@ =~= seq!['/']);
                } else {
                    assert(name@ =~= seq!['.']);
                }
            } else {
                assert(name@ =~= seq!['.', '.']);
            }
        }
        return None;
    }
    proof {
        assert(is_normal_component(name@));
        lemma_last_dot(name@);
    }
    let mut end: usize = name.len();
    while end > 0 && name[end - 1] != '.'
        invariant
            end <= name@.len(),
            forall|k: int| end <= k < name@.len() ==> name@[k] != '.',
        decreases end,
    {
        end = end - 1;
    }
    let mut stem: Vec<char> = Vec::new();
    let cut = if end <= 1 { name.len() } else { end - 1 };
    proof {
        if end > 0 {
            assert(name@[end - 1] == '.');
            assert(last_dot(name@) == end - 1) by {
                if last_dot(name@) > end - 1 {
                    assert(name@[last_dot(name@)] == '.');
                }
                if last_dot(name@) < end - 1 {
                    assert(name@[end - 1] != '.');
                }
            }
        } else {
            assert(last_dot(name@) == -1) by {
                if last_dot(name@) >= 0 {
                    assert(name@[last_dot(name@)] == '.');
                }
            }
        }
    }
    let mut i: usize = 0;
    while i < cut
        invariant
            cut <= name@.len(),
            i <= cut,
            stem@ == name@.take(i as int),
        decreases cut - i,
    {
        stem.push(name[i]);
        proof {
            assert(name@.take(i + 1) =~= name@.take(i as int).push(name@[i as int]));
        }
        i = i + 1;
    }
    proof {
        if cut == name@.len() {
            assert(name@.take(cut as int) =~= name@);
        }
    }
    if stem.len() == 0 {
        return None;
    }
    Some(stem)
}

pub open spec fn is_ascii_alphanumeric(c: char) -> bool {
    ('a' <= c && c <= 'z') || ('A' <= c && c <= 'Z') || ('0' <= c && c <= '9')
}

/// `parts` with the open segment closed, unless it is empty.
pub open spec fn close_segment(parts: Seq<Seq<char>>, open: Seq<char>) -> Seq<Seq<char>> {
    if open.len() == 0 {
        parts
    } else {
        parts.push(open)
    }
}

/// The closed lowercase segments of `stem` and the open one at its end.
pub open spec fn segment_scan(stem: Seq<char>) -> (Seq<Seq<char>>, Seq<char>)
    decreases stem.len(),
{
    if stem.len() == 0 {
        (Seq::empty(), Seq::empty())
    } else {
        let (parts, open) = segment_scan(stem.drop_last());
        if is_ascii_alphanumeric(stem.last()) {
            (parts, open.push(ascii_lower(stem.last())))
        } else {
            (close_segment(parts, open), Seq::empty())
        }
    }
}

/// The ASCII alphanumeric runs of `stem`, lowercased.
pub open spec fn starter_segments(stem: Seq<char>) -> Seq<Seq<char>> {
    close_segment(segment_scan(stem).0, segment_scan(stem).1)
}

pub open spec fn segments_well_formed(parts: Seq<Seq<char>>) -> bool {
    forall|k: int| 0 <= k < parts.len() ==> (#[trigger] parts[k]).len() > 0
}

proof fn lemma_segments_well_formed(stem: Seq<char>)
    ensures
        segments_well_formed(segment_scan(stem).0),
        segments_well_formed(starter_segments(stem)),
    decreases stem.len(),
{
    if stem.len() > 0 {
        lemma_segments_well_formed(stem.drop_last());
    }
}

/// The segments of a stem, as `starter_segments` gives them.
pub fn split_segments(stem: &Vec<char>) -> (segments: Vec<Vec<char>>)
    ensures
        char_lists(segments@) == starter_segments(stem@),
{
    let mut parts: Vec<Vec<char>> = Vec::new();
    let mut open: Vec<char> = Vec::new();
    let mut i: usize = 0;
    while i < stem.len()
        invariant
            i <= stem@.len(),
            char_lists(parts@) == segment_scan(stem@.take(i as int)).0,
            open@ == segment_scan(stem@.take(i as int)).1,
        decreases stem@.len() - i,
    {
        proof {
            assert(stem@.take(i + 1).drop_last() =~= stem@.take(i as int));
        }
        let c = stem[i];
        if ('a' <= c && c <= 'z') || ('A' <= c && c <= 'Z') || ('0' <= c && c <= '9') {
            open.push(ascii_lower_of(c));
        } else {
            if open.len() > 0 {
                let ghost before = parts@;
                parts.push(open);
                proof {
                    assert(char_lists(parts@) =~= char_lists(before).push(segment_scan(stem@.take(i as int)).1));
                }
            }
            open = Vec::new();
        }
        i = i + 1;
    }
    proof {
        assert(stem@.take(i as int) =~= stem@);
    }
    if open.len() > 0 {
        let ghost before = parts@;
        parts.push(open);
        proof {
            assert(char_lists(parts@) =~= char_lists(before).push(segment_scan(stem@).1));
        }
    }
    parts
}

/// The segments joined by `-`.
pub open spec fn dash_joined(parts: Seq<Seq<char>>) -> Seq<char>
    decreases parts.len(),
{
    if parts.len() == 0 {
        Seq::empty()
    } else if parts.len() == 1 {
        parts[0]
    } else {
        dash_joined(parts.drop_last()) + seq!['-'] + parts.last()
    }
}

/// A starter table name: the segments joined by `-`, the first one after
/// `table` when it starts with a digit.
pub open spec fn table_text(parts: Seq<Seq<char>>) -> Seq<char> {
    if is_digit(parts[0][0]) {
        dash_joined(parts.update(0, "table"@ + parts[0]))
    } else {
        dash_joined(parts)
    }
}

pub open spec fn ascii_upper(c: char) -> char {
    if 'a' <= c && c <= 'z' { ((c as int) - 32) as char } else { c }
}

/// A segment with its first letter in upper case.
pub open spec fn capitalized(part: Seq<char>) -> Seq<char> {
    seq![ascii_upper(part[0])] + part.drop_first()
}

/// The first `n` segments of a starter type name: each capitalized, the
/// first one after `Type` when it starts with a digit.
pub open spec fn type_text_prefix(parts: Seq<Seq<char>>, n: int) -> Seq<char>
    decreases n,
{
    if n <= 0 {
        Seq::empty()
    } else {
        type_text_prefix(parts, n - 1) + (if n == 1 && is_digit(parts[0][0]) { "Type"@ } else { Seq::empty() })
            + capitalized(parts[n - 1])
    }
}

pub open spec fn type_text(parts: Seq<Seq<char>>) -> Seq<char> {
    type_text_prefix(parts, parts.len() as int)
}

/// The error of a stem without an ASCII identity segment.
pub open spec fn no_segment(path: Seq<char>) -> DiagnosticView {
    creation_failure("E-SOURCE-CREATE-IDENTITY"@, "starter filename must contain an ASCII identity segment"@, path, None)
}

fn ascii_upper_of(c: char) -> (upper: char)
    ensures
        upper == ascii_upper(c),
{
    if 'a' <= c && c <= 'z' {
        let b = c as u8;
        assert(b == c as int);
        (b - 32) as char
    } else {
        c
    }
}

fn push_chars(text: &mut String, chars: &[char], from: usize)
    requires
        from <= chars@.len(),
    ensures
        final(text)@ == old(text)@ + chars@.skip(from as int),
{
    let ghost start = text@;
    let mut i: usize = from;
    while i < chars.len()
        invariant
            from <= i <= chars@.len(),
            text@ == start + chars@.subrange(from as int, i as int),
        decreases chars@.len() - i,
    {
        push_char(text, chars[i]);
        proof {
            assert(chars@.subrange(from as int, i + 1) =~= chars@.subrange(from as int, i as int).push(chars@[i as int]));
        }
        i = i + 1;
    }
    proof {
        assert(chars@.subrange(from as int, i as int) =~= chars@.skip(from as int));
    }
}

/// The starter table name of a stem.
pub fn starter_table_name(stem: &Vec<char>, path: &str) -> (name: Result<String, MasterdataError>)
    ensures
        ({
            let parts = starter_segments(stem@);
            match name {
                Ok(text) => parts.len() > 0 && text@ == table_text(parts),
                Err(e) => parts.len() == 0 && e@ == no_segment(path@),
            }
        }),
{
    let parts = split_segments(stem);
    proof {
        lemma_segments_well_formed(stem@);
        assert(char_lists(parts@).len() == parts@.len());
    }
    if parts.len() == 0 {
        return Err(creation_error("E-SOURCE-CREATE-IDENTITY", "starter filename must contain an ASCII identity segment", path));
    }
    let ghost views = char_lists(parts@);
    proof {
        assert(views[0] == parts@[0]@);
        assert(views[0].len() > 0);
    }
    let digit_first = '0' <= parts[0][0] && parts[0][0] <= '9';
    let ghost named = if digit_first { views.update(0, "table"@ + views[0]) } else { views };
    let mut text = String::new();
    if digit_first {
        text.append("table");
        proof {
            reveal_strlit("table");
        }
    }
    push_chars(&mut text, parts[0].as_slice(), 0);
    proof {
        assert(views[0].skip(0) =~= views[0]);
        assert(named.len() == views.len());
        assert(named.take(1) =~= seq![named[0]]);
        assert(dash_joined(named.take(1)) == named[0]);
        assert(text@ =~= dash_joined(named.take(1)));
    }
    let mut i: usize = 1;
    while i < parts.len()
        invariant
            1 <= i <= parts@.len(),
            views == char_lists(parts@),
            named.len() == views.len(),
            forall|k: int| 1 <= k < views.len() ==> #[trigger] named[k] == views[k],
            text@ == dash_joined(named.take(i as int)),
        decreases parts@.len() - i,
    {
        let ghost before = text@;
        push_char(&mut text, '-');
        push_chars(&mut text, parts[i].as_slice(), 0);
        proof {
            assert(views[i as int] == parts@[i as int]@);
            assert(parts@[i as int]@.skip(0) =~= parts@[i as int]@);
            assert(named.take(i + 1).drop_last() =~= named.take(i as int));
            assert(text@ =~= dash_joined(named.take(i + 1)));
        }
        i = i + 1;
    }
    proof {
        assert(named.take(i as int) =~= named);
    }
    Ok(text)
}

/// The starter type name of a stem.
pub fn starter_type_name(stem: &Vec<char>, path: &str) -> (name: Result<String, MasterdataError>)
    ensures
        ({
            let parts = starter_segments(stem@);
            match name {
                Ok(text) => parts.len() > 0 && text@ == type_text(parts),
                Err(e) => parts.len() == 0 && e@ == no_segment(path@),
            }
        }),
{
    let parts = split_segments(stem);
    proof {
        lemma_segments_well_formed(stem@);
        assert(char_lists(parts@).len() == parts@.len());
    }
    if parts.len() == 0 {
        return Err(creation_error("E-SOURCE-CREATE-IDENTITY", "starter filename must contain an ASCII identity segment", path));
    }
    let ghost views = char_lists(parts@);
    let mut text = String::new();
    let mut i: usize = 0;
    while i < parts.len()
        invariant
            i <= parts@.len(),
            views == char_lists(parts@),
            segments_well_formed(views),
            text@ == type_text_prefix(views, i as int),
        decreases parts@.len() - i,
    {
        let part = &parts[i];
        proof {
            assert(views[i as int] == part@);
            assert(part@.len() > 0);
        }
        if i == 0 && '0' <= part[0] && part[0] <= '9' {
            text.append("Type");
            proof {
                reveal_strlit("Type");
            }
        }
        push_char(&mut text, ascii_upper_of(part[0]));
        push_chars(&mut text, part.as_slice(), 1);
        proof {
            assert(text@ =~= type_text_prefix(views, i + 1));
        }
        i = i + 1;
    }
    Ok(text)
}

pub open spec fn text_option(text: Option<String>) -> Option<Seq<char>> {
    match text {
        Some(t) => Some(t@),
        None => None,
    }
}

/// Why a starter of this kind cannot be expanded for the stem, if it cannot.
pub open spec fn starter_failure(kind: StarterKind, stem: Seq<char>, table: Option<Seq<char>>, path: Seq<char>)
    -> Option<DiagnosticView> {
    match kind {
        StarterKind::Data => if table matches Some(t) && t.len() > 0 {
            None
        } else {
            Some(creation_failure("E-SOURCE-CREATE-TABLE"@,
                "Data creation requires an explicit existing Table selection"@, path, None))
        },
        _ => if starter_segments(stem).len() == 0 {
            Some(no_segment(path))
        } else {
            None
        },
    }
}

/// A field `name: int` at MessagePack key 0, neither nullable nor an array.
pub open spec fn starter_field(key: u32, name: Seq<char>, declared_type: Seq<char>, nullable: bool, array: bool,
    expected: Seq<char>) -> bool {
    key == 0 && name == expected && declared_type == "int"@ && !nullable && !array
}

/// The request that a starter of this kind expands to for the stem.
pub open spec fn starter_expands(kind: StarterKind, stem: Seq<char>, table: Option<Seq<char>>, expanded: SourceCreation)
    -> bool {
    let parts = starter_segments(stem);
    match kind {
        StarterKind::Table => expanded matches SourceCreation::Table {
            table: t, inline_records, csharp_name, fields, primary_key, secondary_keys }
            && t@ == table_text(parts) && inline_records && csharp_name is None
            && fields@.len() == 1
            && starter_field(fields@[0].key, fields@[0].name@, fields@[0].declared_type@, fields@[0].nullable,
                fields@[0].array, "id"@)
            && texts(primary_key.fields@) == seq!["id"@] && secondary_keys@.len() == 0,
        StarterKind::Data => expanded matches SourceCreation::Data { table: t } && table == Some(t@),
        StarterKind::ValueObject => expanded matches SourceCreation::ValueObject { name, underlying, conversions }
            && name@ == type_text(parts) && underlying@ == "int"@
            && !conversions.from_underlying_implicit && !conversions.to_underlying_implicit,
        StarterKind::Enum => expanded matches SourceCreation::Enum { name, underlying, members }
            && name@ == type_text(parts) && underlying@ == "int"@ && members@.len() == 1
            && members@[0].name@ == "Default"@ && members@[0].value@ == "0"@,
        StarterKind::Flags => expanded matches SourceCreation::Flags { name, underlying, members }
            && name@ == type_text(parts) && underlying@ == "int"@ && members@.len() == 1
            && members@[0].name@ == "None"@ && members@[0].value@ == "0"@,
        StarterKind::CustomType => expanded matches SourceCreation::CustomType { name, fields }
            && name@ == type_text(parts) && fields@.len() == 1
            && starter_field(fields@[0].key, fields@[0].name@, fields@[0].declared_type@, fields@[0].nullable,
                fields@[0].array, "value"@),
    }
}

fn text_of(literal: &str) -> (text: String)
    ensures
        text@ == literal@,
{
    String::from_str(literal)
}

fn one_member(name: &str, value: &str) -> (members: Vec<CreationMember>)
    ensures
        members@.len() == 1,
        members@[0].name@ == name@,
        members@[0].value@ == value@,
{
    let mut members: Vec<CreationMember> = Vec::new();
    members.push(CreationMember { name: text_of(name), value: text_of(value) });
    members
}

/// The request that a starter of `kind` expands to for the identity stem
/// of its file: a table `id: int` keyed by `id`, data for the selected
/// table, an `int` value object, an enum with `Default = 0`, flags with
/// `None = 0`, or a custom type with `value: int`.
pub fn starter_request(kind: StarterKind, stem: &Vec<char>, table: Option<&str>, path: &str)
    -> (result: Result<SourceCreation, MasterdataError>)
    ensures
        ({
            let selected = match table {
                Some(t) => Some(t@),
                None => None,
            };
            match result {
                Ok(expanded) => starter_failure(kind, stem@, selected, path@) is None
                    && starter_expands(kind, stem@, selected, expanded),
                Err(e) => starter_failure(kind, stem@, selected, path@) == Some(e@),
            }
        }),
{
    match kind {
        StarterKind::Table => {
            let name = match starter_table_name(stem, path) {
                Ok(name) => name,
                Err(e) => return Err(e),
            };
            let mut fields: Vec<FieldDefinition> = Vec::new();
            fields.push(FieldDefinition { key: 0, name: text_of("id"), declared_type: text_of("int"), nullable: false, array: false });
            let mut key: Vec<String> = Vec::new();
            key.push(text_of("id"));
            let primary_key = PrimaryKeyDefinition { fields: key };
            proof {
                assert(texts(primary_key.fields@) =~= seq!["id"@]);
            }
            Ok(SourceCreation::Table {
                table: name,
                inline_records: true,
                csharp_name: None,
                fields,
                primary_key,
                secondary_keys: Vec::new(),
            })
        },
        StarterKind::Data => {
            match table {
                Some(t) => {
                    if t.is_empty() {
                        Err(creation_error("E-SOURCE-CREATE-TABLE", "Data creation requires an explicit existing Table selection", path))
                    } else {
                        Ok(SourceCreation::Data { table: t.to_owned() })
                    }
                },
                None => Err(creation_error("E-SOURCE-CREATE-TABLE", "Data creation requires an explicit existing Table selection", path)),
            }
        },
        _ => {
            let name = match starter_type_name(stem, path) {
                Ok(name) => name,
                Err(e) => return Err(e),
            };
            match kind {
                StarterKind::ValueObject => Ok(SourceCreation::ValueObject {
                    name,
                    underlying: text_of("int"),
                    conversions: ConversionDefinition { from_underlying_implicit: false, to_underlying_implicit: false },
                }),
                StarterKind::Enum => Ok(SourceCreation::Enum { name, underlying: text_of("int"), members: one_member("Default", "0") }),
                StarterKind::Flags => Ok(SourceCreation::Flags { name, underlying: text_of("int"), members: one_member("None", "0") }),
                _ => {
                    let mut fields: Vec<TypeFieldDefinition> = Vec::new();
                    fields.push(TypeFieldDefinition { key: 0, name: text_of("value"), declared_type: text_of("int"), nullable: false, array: false });
                    Ok(SourceCreation::CustomType { name, fields })
                },
            }
        },
    }
}

/// Whether a schema document of `files` declares `table`.
pub open spec fn schema_identity_taken(files: Seq<LoadedDocument>, table: Seq<char>) -> bool {
    exists|i: int| 0 <= i < files.len() && ((#[trigger] files[i]).document matches SourceDocument::Schema(s) && s.table@ == table)
}

/// Whether a type document of `files` declares `name`.
pub open spec fn type_identity_taken(files: Seq<LoadedDocument>, name: Seq<char>) -> bool {
    exists|i: int| 0 <= i < files.len() && ((#[trigger] files[i]).document matches SourceDocument::Type(t) && t.name@ == name)
}

pub open spec fn identity_failure(path: Seq<char>) -> DiagnosticView {
    creation_failure("E-SOURCE-CREATE-IDENTITY"@, "declaration identity already exists in this Project"@, path, None)
}

/// The schema path of the value of the member at `index`.
pub open spec fn member_value_path(index: nat) -> Seq<char> {
    "members["@ + decimal_text(index) + "].value"@
}

pub open spec fn member_failure(path: Seq<char>, index: nat) -> DiagnosticView {
    creation_failure("E-SOURCE-CREATE-MEMBER"@, "member value must be an explicit integer"@, path,
        Some(member_value_path(index)))
}

/// A member whose value is no `i128` integer.
pub open spec fn bad_member(members: Seq<CreationMember>, i: int) -> bool {
    i128_text_value(members[i].value@) is None
}

/// Each requested member with its value read as an integer.
pub open spec fn members_parsed(members: Seq<CreationMember>, parsed: Seq<EnumMember>) -> bool {
    &&& parsed.len() == members.len()
    &&& forall|i: int| 0 <= i < members.len() ==> (#[trigger] parsed[i]).name == members[i].name
        && i128_text_value(members[i].value@) == Some(parsed[i].value.0 as int)
}

/// What an enum or flags request yields.
pub open spec fn enumeration_outcome(
    files: Seq<LoadedDocument>,
    path: Seq<char>,
    name: String,
    underlying: String,
    members: Seq<CreationMember>,
    flags: bool,
    result: Result<SourceDocument, MasterdataError>,
) -> bool {
    if exists|i: int| 0 <= i < members.len() && bad_member(members, i) {
        exists|i: int| 0 <= i < members.len() && bad_member(members, i)
            && (forall|j: int| 0 <= j < i ==> !bad_member(members, j))
            && (result matches Err(e) && e@ == member_failure(path, i as nat))
    } else if type_identity_taken(files, name@) {
        result matches Err(e) && e@ == identity_failure(path)
    } else {
        result matches Ok(SourceDocument::Type(t)) && t.kind@ == "type"@ && t.name == name
            && t.value_object is None && t.custom is None
            && if flags {
                t.enum_definition is None && (t.flags matches Some(d) && d.underlying == underlying
                    && members_parsed(members, d.members@))
            } else {
                t.flags is None && (t.enum_definition matches Some(d) && d.underlying == underlying
                    && members_parsed(members, d.members@))
            }
    }
}

/// What a request other than a starter yields: the declaration it asks
/// for, unless its table or members are wrong or its identity is taken.
pub open spec fn creation_outcome(
    files: Seq<LoadedDocument>,
    path: Seq<char>,
    request: SourceCreation,
    result: Result<SourceDocument, MasterdataError>,
) -> bool {
    match request {
        SourceCreation::Folder => result matches Err(e)
            && e@ == creation_failure("E-SOURCE-CREATE-CATEGORY"@, "folder has no source document"@, path, None),
        SourceCreation::Starter { .. } => false,
        SourceCreation::Table { table, inline_records, csharp_name, fields, primary_key, secondary_keys } =>
            if schema_identity_taken(files, table@) {
                result matches Err(e) && e@ == identity_failure(path)
            } else {
                result matches Ok(SourceDocument::Schema(s)) && s.kind@ == "schema"@ && s.table == table
                    && s.csharp_name == csharp_name && s.fields == fields && s.primary_key == Some(primary_key)
                    && s.secondary_keys == secondary_keys
            },
        SourceCreation::Data { table } => if table_schemas(files, table@).len() != 1 {
            result matches Err(e) && e@ == creation_failure("E-SOURCE-CREATE-TABLE"@,
                "Data creation requires exactly one existing Table schema"@, path, None)
        } else {
            result matches Ok(SourceDocument::Data(d)) && d.kind@ == "data"@ && d.table == table && d.records@.len() == 0
        },
        SourceCreation::ValueObject { name, underlying, conversions } => if type_identity_taken(files, name@) {
            result matches Err(e) && e@ == identity_failure(path)
        } else {
            result matches Ok(SourceDocument::Type(t)) && t.kind@ == "type"@ && t.name == name
                && t.value_object == Some(ValueObjectDefinition { underlying, conversions })
                && t.custom is None && t.enum_definition is None && t.flags is None
        },
        SourceCreation::Enum { name, underlying, members } =>
            enumeration_outcome(files, path, name, underlying, members@, false, result),
        SourceCreation::Flags { name, underlying, members } =>
            enumeration_outcome(files, path, name, underlying, members@, true, result),
        SourceCreation::CustomType { name, fields } => if type_identity_taken(files, name@) {
            result matches Err(e) && e@ == identity_failure(path)
        } else {
            result matches Ok(SourceDocument::Type(t)) && t.kind@ == "type"@ && t.name == name
                && t.custom == Some(CustomTypeDefinition { fields })
                && t.value_object is None && t.enum_definition is None && t.flags is None
        },
    }
}

fn schema_identity_exists(documents: &ProjectDocuments, table: &str) -> (taken: bool)
    ensures
        taken == schema_identity_taken(documents.files@, table@),
{
    let mut i: usize = 0;
    while i < documents.files.len()
        invariant
            i <= documents.files@.len(),
            forall|k: int| 0 <= k < i ==> !((#[trigger] documents.files@[k]).document matches SourceDocument::Schema(s)
                && s.table@ == table@),
        decreases documents.files@.len() - i,
    {
        match &documents.files[i].document {
            SourceDocument::Schema(schema) => {
                if str_eq(schema.table.as_str(), table) {
                    proof {
                        assert(documents.files@[i as int].document matches SourceDocument::Schema(s) && s.table@ == table@);
                    }
                    return true;
                }
            },
            _ => {},
        }
        i = i + 1;
    }
    false
}

fn type_identity_exists(documents: &ProjectDocuments, name: &str) -> (taken: bool)
    ensures
        taken == type_identity_taken(documents.files@, name@),
{
    let mut i: usize = 0;
    while i < documents.files.len()
        invariant
            i <= documents.files@.len(),
            forall|k: int| 0 <= k < i ==> !((#[trigger] documents.files@[k]).document matches SourceDocument::Type(t)
                && t.name@ == name@),
        decreases documents.files@.len() - i,
    {
        match &documents.files[i].document {
            SourceDocument::Type(declaration) => {
                if str_eq(declaration.name.as_str(), name) {
                    proof {
                        assert(documents.files@[i as int].document matches SourceDocument::Type(t) && t.name@ == name@);
                    }
                    return true;
                }
            },
            _ => {},
        }
        i = i + 1;
    }
    false
}

fn member_error(path: &str, index: usize) -> (error: MasterdataError)
    ensures
        error@ == member_failure(path@, index as nat),
{
    let digits = decimal_u128(index as u128);
    let mut at = String::from_str("members[");
    at.append(digits.as_str());
    at.append("].value");
    let d = crate::error::Diagnostic::new("E-SOURCE-CREATE-MEMBER", ErrorKind::Validation, "member value must be an explicit integer")
        .with_source(path)
        .with_schema_path(at.as_str())
        .with_related_requirement("SOURCE-CREATE-010");
    proof {
        assert(d@.related_requirements =~= seq!["SOURCE-CREATE-010"@]);
    }
    MasterdataError { diagnostic: Box::new(d) }
}

/// The requested members with their values read as integers; the first
/// member whose value is no integer is an error.
fn parse_members(members: &Vec<CreationMember>, path: &str) -> (result: Result<Vec<EnumMember>, MasterdataError>)
    ensures
        match result {
            Ok(parsed) => (forall|i: int| 0 <= i < members@.len() ==> !bad_member(members@, i))
                && members_parsed(members@, parsed@),
            Err(e) => exists|i: int| 0 <= i < members@.len() && bad_member(members@, i)
                && (forall|j: int| 0 <= j < i ==> !bad_member(members@, j))
                && e@ == member_failure(path@, i as nat),
        },
{
    let mut parsed: Vec<EnumMember> = Vec::new();
    let mut i: usize = 0;
    while i < members.len()
        invariant
            i <= members@.len(),
            forall|j: int| 0 <= j < i ==> !bad_member(members@, j),
            parsed@.len() == i,
            forall|j: int| 0 <= j < i ==> (#[trigger] parsed@[j]).name == members@[j].name
                && i128_text_value(members@[j].value@) == Some(parsed@[j].value.0 as int),
        decreases members@.len() - i,
    {
        let chars = chars_of(members[i].value.as_str());
        match parse_i128(chars.as_slice()) {
            Some(value) => {
                parsed.push(EnumMember { name: members[i].name.clone(), value: IntegerLiteral(value) });
            },
            None => {
                proof {
                    assert(bad_member(members@, i as int));
                }
                return Err(member_error(path, i));
            },
        }
        i = i + 1;
    }
    Ok(parsed)
}

fn text_option_of(text: &Option<String>) -> (view: Option<&str>)
    ensures
        match view {
            Some(t) => text_option(*text) == Some(t@),
            None => text_option(*text) is None,
        },
{
    match text {
        Some(t) => Some(t.as_str()),
        None => None,
    }
}

/// The declaration that a creation request asks for. A starter is first
/// expanded from the identity stem of its file. A folder has no declaration;
/// data needs exactly one schema of its table; enum and flags member values
/// must be integers; the table or type it declares must not exist yet.
pub fn creation_declaration(documents: &ProjectDocuments, path: &str, request: SourceCreation)
    -> (result: Result<SourceDocument, MasterdataError>)
    ensures
        match request {
            SourceCreation::Starter { kind, table } => match file_stem(path@) {
                Some(stem) => if stem.len() == 0 {
                    result matches Err(e) && e@ == creation_failure("E-SOURCE-CREATE-IDENTITY"@,
                        "starter filename must have a valid identity stem"@, path@, None)
                } else {
                    match starter_failure(kind, stem, text_option(table), path@) {
                        Some(d) => result matches Err(e) && e@ == d,
                        None => exists|expanded: SourceCreation| starter_expands(kind, stem, text_option(table), expanded)
                            && #[trigger] creation_outcome(documents.files@, path@, expanded, result),
                    }
                },
                None => result matches Err(e) && e@ == creation_failure("E-SOURCE-CREATE-IDENTITY"@,
                    "starter filename must have a valid identity stem"@, path@, None),
            },
            _ => creation_outcome(documents.files@, path@, request, result),
        },
    decreases (if request is Starter { 1int } else { 0int }),
{
    match request {
        SourceCreation::Folder => Err(creation_error("E-SOURCE-CREATE-CATEGORY", "folder has no source document", path)),
        SourceCreation::Starter { kind, table } => {
            let stem = match starter_stem(path) {
                Some(stem) => stem,
                None => {
                    return Err(creation_error("E-SOURCE-CREATE-IDENTITY", "starter filename must have a valid identity stem", path));
                },
            };
            let selected = text_option_of(&table);
            let expanded = match starter_request(kind, &stem, selected, path) {
                Ok(expanded) => expanded,
                Err(e) => return Err(e),
            };
            let ghost request_made = expanded;
            let result = creation_declaration(documents, path, expanded);
            proof {
                assert(starter_expands(kind, stem@, text_option(table), request_made));
                assert(creation_outcome(documents.files@, path@, request_made, result));
            }
            result
        },
        SourceCreation::Table { table, inline_records, csharp_name, fields, primary_key, secondary_keys } => {
            if schema_identity_exists(documents, table.as_str()) {
                return Err(creation_error("E-SOURCE-CREATE-IDENTITY", "declaration identity already exists in this Project", path));
            }
            Ok(SourceDocument::Schema(SchemaDocument {
                kind: text_of("schema"),
                table,
                csharp_name,
                fields,
                primary_key: Some(primary_key),
                secondary_keys,
            }))
        },
        SourceCreation::Data { table } => {
            let (_, count) = schemas_of_table(documents, table.as_str());
            if count != 1 {
                return Err(creation_error("E-SOURCE-CREATE-TABLE", "Data creation requires exactly one existing Table schema", path));
            }
            Ok(SourceDocument::Data(DataDocument { kind: text_of("data"), table, records: Vec::new() }))
        },
        SourceCreation::ValueObject { name, underlying, conversions } => {
            if type_identity_exists(documents, name.as_str()) {
                return Err(creation_error("E-SOURCE-CREATE-IDENTITY", "declaration identity already exists in this Project", path));
            }
            Ok(SourceDocument::Type(TypeDocument {
                kind: text_of("type"),
                name,
                value_object: Some(ValueObjectDefinition { underlying, conversions }),
                custom: None,
                enum_definition: None,
                flags: None,
            }))
        },
        SourceCreation::Enum { name, underlying, members } => {
            let parsed = match parse_members(&members, path) {
                Ok(parsed) => parsed,
                Err(e) => return Err(e),
            };
            if type_identity_exists(documents, name.as_str()) {
                return Err(creation_error("E-SOURCE-CREATE-IDENTITY", "declaration identity already exists in this Project", path));
            }
            Ok(SourceDocument::Type(TypeDocument {
                kind: text_of("type"),
                name,
                value_object: None,
                custom: None,
                enum_definition: Some(EnumDefinition { underlying, members: parsed }),
                flags: None,
            }))
        },
        SourceCreation::Flags { name, underlying, members } => {
            let parsed = match parse_members(&members, path) {
                Ok(parsed) => parsed,
                Err(e) => return Err(e),
            };
            if type_identity_exists(documents, name.as_str()) {
                return Err(creation_error("E-SOURCE-CREATE-IDENTITY", "declaration identity already exists in this Project", path));
            }
            Ok(SourceDocument::Type(TypeDocument {
                kind: text_of("type"),
                name,
                value_object: None,
                custom: None,
                enum_definition: None,
                flags: Some(FlagsDefinition { underlying, members: parsed }),
            }))
        },
        SourceCreation::CustomType { name, fields } => {
            if type_identity_exists(documents, name.as_str()) {
                return Err(creation_error("E-SOURCE-CREATE-IDENTITY", "declaration identity already exists in this Project", path));
            }
            Ok(SourceDocument::Type(TypeDocument {
                kind: text_of("type"),
                name,
                value_object: None,
                custom: Some(CustomTypeDefinition { fields }),
                enum_definition: None,
                flags: None,
            }))
        },
    }
}

/// Whether the project already declares the identity of `document`: the
/// table of a schema or the name of a type.
pub open spec fn identity_declared(files: Seq<LoadedDocument>, document: SourceDocument) -> bool {
    match document {
        SourceDocument::Schema(schema) => schema_identity_taken(files, schema.table@),
        SourceDocument::Type(declaration) => type_identity_taken(files, declaration.name@),
        SourceDocument::Data(_) | SourceDocument::View(_) => false,
    }
}

/// A declaration that creation yields never takes a table or type identity
/// that the project already declares, and data is only created for a table
/// that exactly one schema declares.
pub proof fn law_created_identities_are_fresh(
    files: Seq<LoadedDocument>,
    path: Seq<char>,
    request: SourceCreation,
    result: Result<SourceDocument, MasterdataError>,
)
    requires
        creation_outcome(files, path, request, result),
        result is Ok,
    ensures
        !identity_declared(files, result->Ok_0),
        result->Ok_0 matches SourceDocument::Data(data) ==> table_schemas(files, data.table@).len() == 1,
{
}

} // verus!
