//! The declarations read from schema and type source documents.

use vstd::prelude::*;

use crate::text::str_eq;
use crate::text_order::text_lt;
use crate::view_resolution::ViewDocument;

verus! {

/// A table schema document.
#[derive(Debug, Clone, PartialEq)]
pub struct SchemaDocument {
    pub kind: String,
    pub table: String,
    pub csharp_name: Option<String>,
    pub fields: Vec<FieldDefinition>,
    pub primary_key: Option<PrimaryKeyDefinition>,
    pub secondary_keys: Vec<SecondaryKeyDefinition>,
}

/// A table field: its MessagePack key, name, type and modifiers.
#[derive(Debug, Clone, PartialEq)]
pub struct FieldDefinition {
    pub key: u32,
    pub name: String,
    pub declared_type: String,
    pub nullable: bool,
    pub array: bool,
}

#[derive(Debug, Clone, PartialEq, Eq)]
pub struct PrimaryKeyDefinition {
    pub fields: Vec<String>,
}

#[derive(Debug, Clone, PartialEq, Eq)]
pub struct SecondaryKeyDefinition {
    pub fields: Vec<String>,
    pub non_unique: bool,
}

/// A type document: exactly one of its definitions is expected.
#[derive(Debug, Clone, PartialEq, Eq)]
pub struct TypeDocument {
    pub kind: String,
    pub name: String,
    pub value_object: Option<ValueObjectDefinition>,
    pub custom: Option<CustomTypeDefinition>,
    pub enum_definition: Option<EnumDefinition>,
    pub flags: Option<FlagsDefinition>,
}

#[derive(Debug, Clone, PartialEq, Eq)]
pub struct ValueObjectDefinition {
    pub underlying: String,
    pub conversions: ConversionDefinition,
}

/// Which implicit conversions a value object declares.
#[derive(Debug, Clone, Copy, PartialEq, Eq, Structural)]
pub struct ConversionDefinition {
    pub from_underlying_implicit: bool,
    pub to_underlying_implicit: bool,
}

impl Default for ConversionDefinition {
    /// No implicit conversion.
    fn default() -> (conversions: Self)
        ensures
            !conversions.from_underlying_implicit,
            !conversions.to_underlying_implicit,
    {
        ConversionDefinition { from_underlying_implicit: false, to_underlying_implicit: false }
    }
}

#[derive(Debug, Clone, PartialEq, Eq)]
pub struct CustomTypeDefinition {
    pub fields: Vec<TypeFieldDefinition>,
}

#[derive(Debug, Clone, PartialEq, Eq)]
pub struct TypeFieldDefinition {
    pub key: u32,
    pub name: String,
    pub declared_type: String,
    pub nullable: bool,
    pub array: bool,
}

#[derive(Debug, Clone, PartialEq, Eq)]
pub struct EnumDefinition {
    pub underlying: String,
    pub members: Vec<EnumMember>,
}

#[derive(Debug, Clone, PartialEq, Eq)]
pub struct FlagsDefinition {
    pub underlying: String,
    pub members: Vec<EnumMember>,
}

#[derive(Debug, Clone, PartialEq, Eq)]
pub struct EnumMember {
    pub name: String,
    pub value: IntegerLiteral,
}

/// An enum member's value, kept as a wide signed integer; the declared
/// underlying type applies its range later.
#[derive(Debug, Clone, Copy, PartialEq, Eq, Structural, PartialOrd, Ord)]
pub struct IntegerLiteral(pub i128);

/// A value of a data record as its data file writes it: null, a boolean,
/// a number kept as its written text, a string, a sequence, a mapping of
/// values to values in written order, or a tagged value with its tag.
#[derive(Debug, PartialEq)]
pub enum DataValue {
    Null,
    Bool(bool),
    Number(String),
    Text(String),
    Sequence(Vec<DataValue>),
    Mapping(Vec<(DataValue, DataValue)>),
    Tagged(String, Box<DataValue>),
}

impl Clone for DataValue {
    fn clone(&self) -> (copy: Self)
        decreases self,
    {
        match self {
            DataValue::Null => DataValue::Null,
            DataValue::Bool(flag) => DataValue::Bool(*flag),
            DataValue::Number(text) => DataValue::Number(text.clone()),
            DataValue::Text(text) => DataValue::Text(text.clone()),
            DataValue::Sequence(items) => {
                let mut copy: Vec<DataValue> = Vec::new();
                let mut i: usize = 0;
                while i < items.len()
                    invariant
                        i <= items@.len(),
                        *self == DataValue::Sequence(*items),
                    decreases items@.len() - i,
                {
                    proof {
                        assert(decreases_to!(*self => self->Sequence_0));
                        assert(self->Sequence_0 == *items);
                        assert(decreases_to!(*items => items@));
                        assert(decreases_to!(items@ => items@[i as int]));
                    }
                    copy.push(items[i].clone());
                    i = i + 1;
                }
                DataValue::Sequence(copy)
            },
            DataValue::Mapping(entries) => {
                let mut copy: Vec<(DataValue, DataValue)> = Vec::new();
                let mut i: usize = 0;
                while i < entries.len()
                    invariant
                        i <= entries@.len(),
                        *self == DataValue::Mapping(*entries),
                    decreases entries@.len() - i,
                {
                    proof {
                        assert(decreases_to!(*self => self->Mapping_0));
                        assert(self->Mapping_0 == *entries);
                        assert(decreases_to!(*entries => entries@));
                        assert(decreases_to!(entries@ => entries@[i as int]));
                        assert(decreases_to!(entries@[i as int] => entries@[i as int].0));
                        assert(decreases_to!(entries@[i as int] => entries@[i as int].1));
                    }
                    let key = entries[i].0.clone();
                    let value = entries[i].1.clone();
                    copy.push((key, value));
                    i = i + 1;
                }
                DataValue::Mapping(copy)
            },
            DataValue::Tagged(tag, inner) => {
                let value: &DataValue = inner;
                DataValue::Tagged(tag.clone(), Box::new(value.clone()))
            },
        }
    }
}

/// The fields of one data record, by field name. Names are strictly
/// ascending, as in the ordered map that the record is read into.
pub type DataRecord = Vec<(String, DataValue)>;

/// Whether a record's field names are strictly ascending.
pub open spec fn record_keys_ascending(record: Seq<(String, DataValue)>) -> bool {
    forall|i: int, j: int| 0 <= i < j < record.len() ==> text_lt(#[trigger] record[i].0@, #[trigger] record[j].0@)
}

/// A data document: the records of one table.
#[derive(Debug, Clone, PartialEq)]
pub struct DataDocument {
    pub kind: String,
    pub table: String,
    pub records: Vec<DataRecord>,
}

impl DataDocument {
    /// Every record holds each field name once, in ascending order.
    pub open spec fn well_formed(&self) -> bool {
        forall|r: int| 0 <= r < self.records@.len() ==> record_keys_ascending(#[trigger] self.records@[r]@)
    }
}

/// A parsed source document of one of the three kinds.
#[derive(Debug, Clone, PartialEq)]
pub enum SourceDocument {
    Schema(SchemaDocument),
    Data(DataDocument),
    Type(TypeDocument),
    View(ViewDocument),
}

/// The kind label of a source document.
pub open spec fn document_kind(document: SourceDocument) -> Seq<char> {
    match document {
        SourceDocument::Schema(_) => "schema"@,
        SourceDocument::Data(_) => "data"@,
        SourceDocument::Type(_) => "type"@,
        SourceDocument::View(_) => "view"@,
    }
}

/// The table a schema or data document belongs to; type and view
/// documents have none.
pub open spec fn document_table(document: SourceDocument) -> Option<Seq<char>> {
    match document {
        SourceDocument::Schema(schema) => Some(schema.table@),
        SourceDocument::Data(data) => Some(data.table@),
        _ => None,
    }
}

/// The type a type document declares; schema and data documents declare none.
pub open spec fn document_type(document: SourceDocument) -> Option<Seq<char>> {
    match document {
        SourceDocument::Type(declaration) => Some(declaration.name@),
        _ => None,
    }
}

impl SourceDocument {
    /// `"schema"`, `"data"`, `"type"` or `"view"`.
    pub fn kind(&self) -> (kind: &'static str)
        ensures
            kind@ == document_kind(*self),
    {
        match self {
            SourceDocument::Schema(_) => "schema",
            SourceDocument::Data(_) => "data",
            SourceDocument::Type(_) => "type",
            SourceDocument::View(_) => "view",
        }
    }

    /// The table of a schema or data document.
    pub fn table_identity(&self) -> (table: Option<&str>)
        ensures
            match table {
                Some(t) => document_table(*self) == Some(t@),
                None => document_table(*self) is None,
            },
    {
        match self {
            SourceDocument::Schema(schema) => Some(schema.table.as_str()),
            SourceDocument::Data(data) => Some(data.table.as_str()),
            _ => None,
        }
    }

    /// The name that a type document declares.
    pub fn type_identity(&self) -> (declared: Option<&str>)
        ensures
            match declared {
                Some(t) => document_type(*self) == Some(t@),
                None => document_type(*self) is None,
            },
    {
        match self {
            SourceDocument::Type(declaration) => Some(declaration.name.as_str()),
            _ => None,
        }
    }
}

/// A document together with its path and the exact source text it was
/// parsed from.
#[derive(Debug, Clone, PartialEq)]
pub struct LoadedDocument {
    pub path: String,
    pub source: String,
    pub document: SourceDocument,
}

/// Every parsed document of a project, in load order.
#[derive(Debug, Clone, PartialEq)]
pub struct ProjectDocuments {
    pub files: Vec<LoadedDocument>,
}

/// The schema documents among `files`, in order, with their paths.
pub open spec fn schemas_in(files: Seq<LoadedDocument>) -> Seq<(String, SchemaDocument)>
    decreases files.len(),
{
    if files.len() == 0 {
        Seq::empty()
    } else {
        let rest = schemas_in(files.drop_last());
        match files.last().document {
            SourceDocument::Schema(schema) => rest.push((files.last().path, schema)),
            _ => rest,
        }
    }
}

/// The data documents among `files`, in order, with their paths.
pub open spec fn data_in(files: Seq<LoadedDocument>) -> Seq<(String, DataDocument)>
    decreases files.len(),
{
    if files.len() == 0 {
        Seq::empty()
    } else {
        let rest = data_in(files.drop_last());
        match files.last().document {
            SourceDocument::Data(data) => rest.push((files.last().path, data)),
            _ => rest,
        }
    }
}

/// The type documents among `files`, in order, with their paths.
pub open spec fn types_in(files: Seq<LoadedDocument>) -> Seq<(String, TypeDocument)>
    decreases files.len(),
{
    if files.len() == 0 {
        Seq::empty()
    } else {
        let rest = types_in(files.drop_last());
        match files.last().document {
            SourceDocument::Type(declaration) => rest.push((files.last().path, declaration)),
            _ => rest,
        }
    }
}

impl ProjectDocuments {
    /// The schema documents, in load order, with their paths.
    pub fn schemas(&self) -> (schemas: Vec<(&String, &SchemaDocument)>)
        ensures
            schemas@.len() == schemas_in(self.files@).len(),
            forall|i: int| 0 <= i < schemas@.len() ==> {
                &&& *(#[trigger] schemas@[i]).0 == schemas_in(self.files@)[i].0
                &&& *schemas@[i].1 == schemas_in(self.files@)[i].1
            },
    {
        let mut schemas: Vec<(&String, &SchemaDocument)> = Vec::new();
        let mut i: usize = 0;
        while i < self.files.len()
            invariant
                i <= self.files@.len(),
                schemas@.len() == schemas_in(self.files@.take(i as int)).len(),
                forall|k: int| 0 <= k < schemas@.len() ==> {
                    &&& *(#[trigger] schemas@[k]).0 == schemas_in(self.files@.take(i as int))[k].0
                    &&& *schemas@[k].1 == schemas_in(self.files@.take(i as int))[k].1
                },
            decreases self.files@.len() - i,
        {
            proof {
                assert(self.files@.take(i + 1).drop_last() =~= self.files@.take(i as int));
            }
            let loaded = &self.files[i];
            match &loaded.document {
                SourceDocument::Schema(schema) => schemas.push((&loaded.path, schema)),
                _ => {},
            }
            i = i + 1;
        }
        proof {
            assert(self.files@.take(i as int) =~= self.files@);
        }
        schemas
    }

    /// The data documents, in load order, with their paths.
    pub fn data(&self) -> (data: Vec<(&String, &DataDocument)>)
        ensures
            data@.len() == data_in(self.files@).len(),
            forall|i: int| 0 <= i < data@.len() ==> {
                &&& *(#[trigger] data@[i]).0 == data_in(self.files@)[i].0
                &&& *data@[i].1 == data_in(self.files@)[i].1
            },
    {
        let mut data: Vec<(&String, &DataDocument)> = Vec::new();
        let mut i: usize = 0;
        while i < self.files.len()
            invariant
                i <= self.files@.len(),
                data@.len() == data_in(self.files@.take(i as int)).len(),
                forall|k: int| 0 <= k < data@.len() ==> {
                    &&& *(#[trigger] data@[k]).0 == data_in(self.files@.take(i as int))[k].0
                    &&& *data@[k].1 == data_in(self.files@.take(i as int))[k].1
                },
            decreases self.files@.len() - i,
        {
            proof {
                assert(self.files@.take(i + 1).drop_last() =~= self.files@.take(i as int));
            }
            let loaded = &self.files[i];
            match &loaded.document {
                SourceDocument::Data(document) => data.push((&loaded.path, document)),
                _ => {},
            }
            i = i + 1;
        }
        proof {
            assert(self.files@.take(i as int) =~= self.files@);
        }
        data
    }

    /// The type documents, in load order, with their paths.
    pub fn types(&self) -> (types: Vec<(&String, &TypeDocument)>)
        ensures
            types@.len() == types_in(self.files@).len(),
            forall|i: int| 0 <= i < types@.len() ==> {
                &&& *(#[trigger] types@[i]).0 == types_in(self.files@)[i].0
                &&& *types@[i].1 == types_in(self.files@)[i].1
            },
    {
        let mut types: Vec<(&String, &TypeDocument)> = Vec::new();
        let mut i: usize = 0;
        while i < self.files.len()
            invariant
                i <= self.files@.len(),
                types@.len() == types_in(self.files@.take(i as int)).len(),
                forall|k: int| 0 <= k < types@.len() ==> {
                    &&& *(#[trigger] types@[k]).0 == types_in(self.files@.take(i as int))[k].0
                    &&& *types@[k].1 == types_in(self.files@.take(i as int))[k].1
                },
            decreases self.files@.len() - i,
        {
            proof {
                assert(self.files@.take(i + 1).drop_last() =~= self.files@.take(i as int));
            }
            let loaded = &self.files[i];
            match &loaded.document {
                SourceDocument::Type(declaration) => types.push((&loaded.path, declaration)),
                _ => {},
            }
            i = i + 1;
        }
        proof {
            assert(self.files@.take(i as int) =~= self.files@);
        }
        types
    }
}

/// The schema documents among `files` whose table is `table`, in order.
pub open spec fn table_schemas(files: Seq<LoadedDocument>, table: Seq<char>) -> Seq<SchemaDocument>
    decreases files.len(),
{
    if files.len() == 0 {
        Seq::empty()
    } else {
        let rest = table_schemas(files.drop_last(), table);
        match files.last().document {
            SourceDocument::Schema(schema) => if schema.table@ == table {
                rest.push(schema)
            } else {
                rest
            },
            _ => rest,
        }
    }
}

/// The first schema document of `table` and how many there are.
pub fn schemas_of_table<'a>(documents: &'a ProjectDocuments, table: &str) -> (found: (Option<&'a SchemaDocument>, usize))
    ensures
        found.1 as int == table_schemas(documents.files@, table@).len(),
        match found.0 {
            Some(schema) => found.1 > 0 && *schema == table_schemas(documents.files@, table@)[0],
            None => found.1 == 0,
        },
{
    let mut first: Option<&SchemaDocument> = None;
    let mut count: usize = 0;
    let mut i: usize = 0;
    while i < documents.files.len()
        invariant
            i <= documents.files@.len(),
            count as int == table_schemas(documents.files@.take(i as int), table@).len(),
            count <= i,
            match first {
                Some(schema) => count > 0 && *schema == table_schemas(documents.files@.take(i as int), table@)[0],
                None => count == 0,
            },
        decreases documents.files@.len() - i,
    {
        proof {
            assert(documents.files@.take(i + 1).drop_last() =~= documents.files@.take(i as int));
        }
        match &documents.files[i].document {
            SourceDocument::Schema(schema) => {
                if str_eq(schema.table.as_str(), table) {
                    if count == 0 {
                        first = Some(schema);
                    }
                    count = count + 1;
                }
            },
            _ => {},
        }
        i = i + 1;
    }
    proof {
        assert(documents.files@.take(i as int) =~= documents.files@);
    }
    (first, count)
}

/// The view documents among `files`, in order, with their paths.
pub open spec fn views_in(files: Seq<LoadedDocument>) -> Seq<(String, ViewDocument)>
    decreases files.len(),
{
    if files.len() == 0 {
        Seq::empty()
    } else {
        let rest = views_in(files.drop_last());
        match files.last().document {
            SourceDocument::View(view) => rest.push((files.last().path, view)),
            _ => rest,
        }
    }
}

impl ProjectDocuments {
    /// The view documents, in load order, with their paths.
    pub fn views(&self) -> (views: Vec<(&String, &ViewDocument)>)
        ensures
            views@.len() == views_in(self.files@).len(),
            forall|i: int| 0 <= i < views@.len() ==> {
                &&& *(#[trigger] views@[i]).0 == views_in(self.files@)[i].0
                &&& *views@[i].1 == views_in(self.files@)[i].1
            },
    {
        let mut views: Vec<(&String, &ViewDocument)> = Vec::new();
        let mut i: usize = 0;
        while i < self.files.len()
            invariant
                i <= self.files@.len(),
                views@.len() == views_in(self.files@.take(i as int)).len(),
                forall|k: int| 0 <= k < views@.len() ==> {
                    &&& *(#[trigger] views@[k]).0 == views_in(self.files@.take(i as int))[k].0
                    &&& *views@[k].1 == views_in(self.files@.take(i as int))[k].1
                },
            decreases self.files@.len() - i,
        {
            proof {
                assert(self.files@.take(i + 1).drop_last() =~= self.files@.take(i as int));
            }
            let loaded = &self.files[i];
            match &loaded.document {
                SourceDocument::View(view) => views.push((&loaded.path, view)),
                _ => {},
            }
            i = i + 1;
        }
        proof {
            assert(self.files@.take(i as int) =~= self.files@);
        }
        views
    }
}

} // verus!
