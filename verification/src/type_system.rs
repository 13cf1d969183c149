use vstd::prelude::*;

verus! {

/// The primitive scalar types of the masterdata Type System.
#[derive(Debug, Clone, Copy, PartialEq, Eq, Structural)]
pub enum PrimitiveType {
    Bool,
    Int,
    UInt,
    Long,
    ULong,
    Float,
    Double,
    String,
}

/// How a top-level field holds its type.
#[derive(Debug, Clone, Copy, PartialEq, Eq, Structural)]
pub enum FieldModifier {
    Required,
    Nullable,
    Array,
}

/// The resolved authoring shape of a type.
#[derive(Debug, PartialEq, Eq)]
pub enum ResolvedAuthoringType {
    Primitive { primitive: PrimitiveType },
    ValueObject { name: String, underlying: PrimitiveType },
    Enum { name: String, underlying: PrimitiveType, members: Vec<String> },
    Flags { name: String, underlying: PrimitiveType, members: Vec<String> },
    Custom { name: String, fields: Vec<ResolvedAuthoringField> },
}

/// A field together with its resolved authoring shape.
#[derive(Debug, PartialEq, Eq)]
pub struct ResolvedAuthoringField {
    pub name: String,
    pub declared_type: String,
    pub modifier: FieldModifier,
    pub shape: ResolvedAuthoringType,
}

/// The schema spelling of a primitive type.
pub open spec fn primitive_name(primitive: PrimitiveType) -> Seq<char> {
    match primitive {
        PrimitiveType::Bool => "bool"@,
        PrimitiveType::Int => "int"@,
        PrimitiveType::UInt => "uint"@,
        PrimitiveType::Long => "long"@,
        PrimitiveType::ULong => "ulong"@,
        PrimitiveType::Float => "float"@,
        PrimitiveType::Double => "double"@,
        PrimitiveType::String => "string"@,
    }
}

pub open spec fn spec_is_integer(primitive: PrimitiveType) -> bool {
    primitive is Int || primitive is UInt || primitive is Long || primitive is ULong
}

pub open spec fn spec_is_signed_integer(primitive: PrimitiveType) -> bool {
    primitive is Int || primitive is Long
}

/// The inclusive value range of an integer primitive.
pub open spec fn spec_integer_range(primitive: PrimitiveType) -> Option<(int, int)> {
    match primitive {
        PrimitiveType::Int => Some((i32::MIN as int, i32::MAX as int)),
        PrimitiveType::UInt => Some((0, u32::MAX as int)),
        PrimitiveType::Long => Some((i64::MIN as int, i64::MAX as int)),
        PrimitiveType::ULong => Some((0, u64::MAX as int)),
        _ => None,
    }
}

impl PrimitiveType {
    pub fn name(&self) -> (name: &'static str)
        ensures
            name@ == primitive_name(*self),
    {
        match self {
            PrimitiveType::Bool => "bool",
            PrimitiveType::Int => "int",
            PrimitiveType::UInt => "uint",
            PrimitiveType::Long => "long",
            PrimitiveType::ULong => "ulong",
            PrimitiveType::Float => "float",
            PrimitiveType::Double => "double",
            PrimitiveType::String => "string",
        }
    }

    pub fn is_integer(&self) -> (result: bool)
        ensures
            result == spec_is_integer(*self),
    {
        matches!(self, PrimitiveType::Int | PrimitiveType::UInt | PrimitiveType::Long | PrimitiveType::ULong)
    }

    pub fn is_signed_integer(&self) -> (result: bool)
        ensures
            result == spec_is_signed_integer(*self),
    {
        matches!(self, PrimitiveType::Int | PrimitiveType::Long)
    }

    pub fn integer_range(&self) -> (range: Option<(i128, i128)>)
        ensures
            match range {
                Some((low, high)) => spec_integer_range(*self) == Some((low as int, high as int)),
                None => spec_integer_range(*self) is None,
            },
    {
        match self {
            PrimitiveType::Int => Some((i32::MIN as i128, i32::MAX as i128)),
            PrimitiveType::UInt => Some((0, u32::MAX as i128)),
            PrimitiveType::Long => Some((i64::MIN as i128, i64::MAX as i128)),
            PrimitiveType::ULong => Some((0, u64::MAX as i128)),
            _ => None,
        }
    }
}

} // verus!
