//! Read-only search, filter, and sort semantics for authoring snapshots.

use vstd::prelude::*;

use crate::authoring_value::{scalar_text, AuthoringMember, AuthoringSequenceItem, AuthoringValue};
use crate::error::{fresh_diagnostic, DiagnosticView, ErrorKind, MasterdataError};
use crate::numeric::{f64_text_finite, f64_text_is_finite, i128_text_value, parse_i128};
use crate::text::{chars_of, contains_chars, contains_text, str_eq, strings_contain};
use crate::type_system::{
    spec_integer_range, spec_is_integer, FieldModifier, PrimitiveType, ResolvedAuthoringField,
    ResolvedAuthoringType,
};

verus! {

/// A column filter operator.
#[derive(Debug, Clone, Copy, PartialEq, Eq, Structural)]
pub enum QueryOperator {
    Equals,
    NotEquals,
    LessThan,
    GreaterThan,
    Contains,
    IsNull,
    IsInvalid,
}

/// One filter on a named column.
#[derive(Debug, PartialEq, Eq)]
pub struct ColumnFilter {
    pub field: String,
    pub operator: QueryOperator,
    pub value: Option<AuthoringValue>,
}

#[derive(Debug, Clone, Copy, PartialEq, Eq, Structural)]
pub enum SortDirection {
    Ascending,
    Descending,
}

#[derive(Debug, PartialEq, Eq)]
pub struct QuerySort {
    pub field: String,
    pub direction: SortDirection,
}

/// A free-text search, column filters that must all hold, and an optional sort.
#[derive(Debug, PartialEq, Eq)]
pub struct AuthoringQuery {
    pub search: String,
    pub filters: Vec<ColumnFilter>,
    pub sort: Option<QuerySort>,
}

impl Default for AuthoringQuery {
    /// The query that keeps every row in source order.
    fn default() -> (query: Self)
        ensures
            query.search@.len() == 0,
            query.filters@.len() == 0,
            query.sort is None,
    {
        AuthoringQuery { search: String::new(), filters: Vec::new(), sort: None }
    }
}

/// A small host-neutral row representation.  `source_order` is only a stable
/// tie-breaker; it is never exposed as a domain identity.
#[derive(Debug, PartialEq, Eq)]
pub struct QueryRow {
    pub source_order: usize,
    pub values: Vec<AuthoringValue>,
}

/// The outcome of comparing two values.
#[derive(Debug, Clone, Copy, PartialEq, Eq, Structural)]
pub enum Comparison {
    Less,
    Equal,
    Greater,
}

/// How a cell reads against its resolved type.
#[derive(Debug, Clone, Copy, PartialEq, Eq, Structural)]
pub enum ValueState {
    Valid,
    Null,
    Invalid,
}

/// Whether decimal text is an `i128` inside the range of an integer primitive.
pub open spec fn integer_text_in_range(text: Seq<char>, primitive: PrimitiveType) -> bool {
    &&& i128_text_value(text) is Some
    &&& spec_integer_range(primitive) matches Some((low, high))
        && low <= i128_text_value(text)->0 <= high
}

/// The state of a value against a primitive type.
pub open spec fn primitive_value_state(primitive: PrimitiveType, value: AuthoringValue) -> ValueState {
    match value {
        AuthoringValue::String { .. } => if primitive is String { ValueState::Valid } else { ValueState::Invalid },
        AuthoringValue::Bool { .. } => if primitive is Bool { ValueState::Valid } else { ValueState::Invalid },
        AuthoringValue::Number { value: text } => {
            if spec_is_integer(primitive) {
                if integer_text_in_range(text@, primitive) { ValueState::Valid } else { ValueState::Invalid }
            } else if primitive is Float || primitive is Double {
                if f64_text_is_finite(text@) { ValueState::Valid } else { ValueState::Invalid }
            } else {
                ValueState::Invalid
            }
        },
        _ => ValueState::Invalid,
    }
}

/// Position of the first member named `name`, or the length.
pub open spec fn member_index(entries: Seq<AuthoringMember>, name: Seq<char>) -> int
    decreases entries.len(),
{
    if entries.len() == 0 {
        0
    } else if entries[0].name@ == name {
        0
    } else {
        1 + member_index(entries.drop_first(), name)
    }
}

/// The state of a top-level field's value: the modifier first, then the type.
pub open spec fn value_state(field: ResolvedAuthoringField, value: AuthoringValue) -> ValueState
    decreases value, 3int, 0int,
{
    if value is Null {
        if field.modifier is Nullable { ValueState::Null } else { ValueState::Invalid }
    } else if field.modifier is Array {
        match value {
            AuthoringValue::Sequence { items, .. } => {
                if items_valid(field.shape, items@) { ValueState::Valid } else { ValueState::Invalid }
            },
            _ => ValueState::Invalid,
        }
    } else {
        value_state_type(field.shape, value)
    }
}

/// The state of a value against a resolved type.
pub open spec fn value_state_type(shape: ResolvedAuthoringType, value: AuthoringValue) -> ValueState
    decreases value, 2int, 0int,
{
    match shape {
        ResolvedAuthoringType::Primitive { primitive } => primitive_value_state(primitive, value),
        ResolvedAuthoringType::ValueObject { underlying, .. } => primitive_value_state(underlying, value),
        ResolvedAuthoringType::Enum { members, .. } => match value {
            AuthoringValue::String { value: text } =>
                if members.deep_view().contains(text@) { ValueState::Valid } else { ValueState::Invalid },
            _ => ValueState::Invalid,
        },
        ResolvedAuthoringType::Flags { .. } => ValueState::Invalid,
        ResolvedAuthoringType::Custom { fields, .. } => match value {
            AuthoringValue::Mapping { entries } => {
                if entries.len() == fields.len() && fields_valid(fields@, value) {
                    ValueState::Valid
                } else {
                    ValueState::Invalid
                }
            },
            _ => ValueState::Invalid,
        },
    }
}

/// Whether every item of a sequence is valid against `shape`.
pub open spec fn items_valid(shape: ResolvedAuthoringType, items: Seq<AuthoringSequenceItem>) -> bool
    decreases items, 0int, 0int,
{
    if items.len() == 0 {
        true
    } else {
        items_valid(shape, items.drop_last()) && value_state_type(shape, items.last().value) == ValueState::Valid
    }
}

/// Whether every field of a Custom Type has a valid member in `mapping`.
pub open spec fn fields_valid(fields: Seq<ResolvedAuthoringField>, mapping: AuthoringValue) -> bool
    decreases mapping, 1int, fields.len(),
{
    if fields.len() == 0 {
        true
    } else {
        fields_valid(fields.drop_last(), mapping) && member_valid(fields.last(), mapping)
    }
}

/// Whether the first member of a mapping named like `field` exists and is valid.
pub open spec fn member_valid(field: ResolvedAuthoringField, mapping: AuthoringValue) -> bool
    decreases mapping, 0int, 0int,
{
    match mapping {
        AuthoringValue::Mapping { entries } => {
            let j = member_index(entries@, field.name@);
            0 <= j < entries.len() && value_state(field, entries@[j].value) == ValueState::Valid
        },
        _ => false,
    }
}

proof fn lemma_member_index(entries: Seq<AuthoringMember>, name: Seq<char>)
    ensures
        0 <= member_index(entries, name) <= entries.len(),
        member_index(entries, name) < entries.len() ==> entries[member_index(entries, name)].name@ == name,
        forall|k: int| 0 <= k < member_index(entries, name) ==> entries[k].name@ != name,
    decreases entries.len(),
{
    if entries.len() > 0 && entries[0].name@ != name {
        lemma_member_index(entries.drop_first(), name);
        assert forall|k: int| 0 <= k < member_index(entries, name) implies entries[k].name@ != name by {
            if k > 0 {
                assert(entries[k] == entries.drop_first()[k - 1]);
            }
        }
    }
}

fn primitive_state(primitive: PrimitiveType, value: &AuthoringValue) -> (state: ValueState)
    ensures
        state == primitive_value_state(primitive, *value),
{
    match value {
        AuthoringValue::String { .. } => if primitive == PrimitiveType::String { ValueState::Valid } else { ValueState::Invalid },
        AuthoringValue::Bool { .. } => if primitive == PrimitiveType::Bool { ValueState::Valid } else { ValueState::Invalid },
        AuthoringValue::Number { value: text } => {
            if primitive.is_integer() {
                let chars = chars_of(text.as_str());
                match (parse_i128(&chars), primitive.integer_range()) {
                    (Some(number), Some((low, high))) => {
                        if low <= number && number <= high { ValueState::Valid } else { ValueState::Invalid }
                    },
                    _ => ValueState::Invalid,
                }
            } else if primitive == PrimitiveType::Float || primitive == PrimitiveType::Double {
                let chars = chars_of(text.as_str());
                if f64_text_finite(&chars) { ValueState::Valid } else { ValueState::Invalid }
            } else {
                ValueState::Invalid
            }
        },
        _ => ValueState::Invalid,
    }
}

proof fn lemma_items_valid(shape: ResolvedAuthoringType, items: Seq<AuthoringSequenceItem>)
    ensures
        items_valid(shape, items) <==> forall|k: int| 0 <= k < items.len() ==> #[trigger] value_state_type(shape, items[k].value) == ValueState::Valid,
    decreases items.len(),
{
    if items.len() > 0 {
        let rest = items.drop_last();
        lemma_items_valid(shape, rest);
        let last = items.len() - 1;
        assert(items_valid(shape, items) == (items_valid(shape, rest) && value_state_type(shape, items[last].value) == ValueState::Valid));
        if items_valid(shape, items) {
            assert forall|k: int| 0 <= k < items.len() implies #[trigger] value_state_type(shape, items[k].value) == ValueState::Valid by {
                if k < items.len() - 1 {
                    assert(rest[k] == items[k]);
                }
            }
        }
        if forall|k: int| 0 <= k < items.len() ==> #[trigger] value_state_type(shape, items[k].value) == ValueState::Valid {
            assert forall|k: int| 0 <= k < rest.len() implies #[trigger] value_state_type(shape, rest[k].value) == ValueState::Valid by {
                assert(rest[k] == items[k]);
            }
        }
    }
}

proof fn lemma_fields_valid(fields: Seq<ResolvedAuthoringField>, mapping: AuthoringValue)
    ensures
        fields_valid(fields, mapping) <==> forall|k: int| 0 <= k < fields.len() ==> #[trigger] member_valid(fields[k], mapping),
    decreases fields.len(),
{
    if fields.len() > 0 {
        let rest = fields.drop_last();
        lemma_fields_valid(rest, mapping);
        let last = fields.len() - 1;
        assert(fields_valid(fields, mapping) == (fields_valid(rest, mapping) && member_valid(fields[last], mapping)));
        if fields_valid(fields, mapping) {
            assert forall|k: int| 0 <= k < fields.len() implies #[trigger] member_valid(fields[k], mapping) by {
                if k < fields.len() - 1 {
                    assert(rest[k] == fields[k]);
                }
            }
        }
        if forall|k: int| 0 <= k < fields.len() ==> #[trigger] member_valid(fields[k], mapping) {
            assert forall|k: int| 0 <= k < rest.len() implies #[trigger] member_valid(rest[k], mapping) by {
                assert(rest[k] == fields[k]);
            }
        }
    }
}

/// Classify a top-level field's value as valid, null or invalid.
pub fn field_value_state(field: &ResolvedAuthoringField, value: &AuthoringValue) -> (state: ValueState)
    ensures
        state == value_state(*field, *value),
    decreases value, 3int, 0int,
{
    if let AuthoringValue::Null = value {
        return if field.modifier == FieldModifier::Nullable { ValueState::Null } else { ValueState::Invalid };
    }
    if field.modifier == FieldModifier::Array {
        match value {
            AuthoringValue::Sequence { items, .. } => {
                proof {
                    lemma_items_valid(field.shape, items@);
                }
                let mut i: usize = 0;
                while i < items.len()
                    invariant
                        i <= items@.len(),
                        forall|k: int| 0 <= k < i ==> #[trigger] value_state_type(field.shape, items@[k].value) == ValueState::Valid,
                        field.modifier is Array,
                        *value matches AuthoringValue::Sequence { items: its, .. } && its == *items,
                        items_valid(field.shape, items@) <==> forall|k: int| 0 <= k < items@.len() ==> #[trigger] value_state_type(field.shape, items@[k].value) == ValueState::Valid,
                    decreases items@.len() - i,
                {
                    proof {
                        assert(decreases_to!(*value => items@[i as int].value));
                    }
                    if type_value_state(&field.shape, &items[i].value) != ValueState::Valid {
                        return ValueState::Invalid;
                    }
                    i = i + 1;
                }
                ValueState::Valid
            },
            _ => ValueState::Invalid,
        }
    } else {
        type_value_state(&field.shape, value)
    }
}

/// Classify a value against a resolved type.
pub fn type_value_state(shape: &ResolvedAuthoringType, value: &AuthoringValue) -> (state: ValueState)
    ensures
        state == value_state_type(*shape, *value),
    decreases value, 2int, 0int,
{
    match shape {
        ResolvedAuthoringType::Primitive { primitive } => primitive_state(*primitive, value),
        ResolvedAuthoringType::ValueObject { underlying, .. } => primitive_state(*underlying, value),
        ResolvedAuthoringType::Enum { members, .. } => match value {
            AuthoringValue::String { value: text } => {
                if strings_contain(members, text.as_str()) { ValueState::Valid } else { ValueState::Invalid }
            },
            _ => ValueState::Invalid,
        },
        ResolvedAuthoringType::Flags { .. } => ValueState::Invalid,
        ResolvedAuthoringType::Custom { fields, .. } => match value {
            AuthoringValue::Mapping { entries } => {
                if entries.len() != fields.len() {
                    return ValueState::Invalid;
                }
                proof {
                    lemma_fields_valid(fields@, *value);
                }
                let mut i: usize = 0;
                while i < fields.len()
                    invariant
                        i <= fields@.len(),
                        forall|k: int| 0 <= k < i ==> #[trigger] member_valid(fields@[k], *value),
                        *shape matches ResolvedAuthoringType::Custom { fields: fs, .. } && fs == *fields,
                        *value matches AuthoringValue::Mapping { entries: es } && es == *entries,
                        entries@.len() == fields@.len(),
                        fields_valid(fields@, *value) <==> forall|k: int| 0 <= k < fields@.len() ==> #[trigger] member_valid(fields@[k], *value),
                    decreases fields@.len() - i,
                {
                    if !member_is_valid(&fields[i], value) {
                        return ValueState::Invalid;
                    }
                    i = i + 1;
                }
                ValueState::Valid
            },
            _ => ValueState::Invalid,
        },
    }
}

fn member_is_valid(field: &ResolvedAuthoringField, mapping: &AuthoringValue) -> (valid: bool)
    ensures
        valid == member_valid(*field, *mapping),
    decreases mapping, 0int, 0int,
{
    match mapping {
        AuthoringValue::Mapping { entries } => {
            proof {
                lemma_member_index(entries@, field.name@);
            }
            let mut j: usize = 0;
            while j < entries.len()
                invariant
                    j <= entries@.len(),
                    forall|k: int| 0 <= k < j ==> entries@[k].name@ != field.name@,
                    *mapping matches AuthoringValue::Mapping { entries: es } && es == *entries,
                    0 <= member_index(entries@, field.name@) <= entries@.len(),
                    member_index(entries@, field.name@) < entries@.len() ==> entries@[member_index(entries@, field.name@)].name@ == field.name@,
                    forall|k: int| 0 <= k < member_index(entries@, field.name@) ==> entries@[k].name@ != field.name@,
                decreases entries@.len() - j,
            {
                if str_eq(entries[j].name.as_str(), field.name.as_str()) {
                    proof {
                        assert(member_index(entries@, field.name@) == j);
                        assert(decreases_to!(*mapping => entries@[j as int].value));
                    }
                    return field_value_state(field, &entries[j].value) == ValueState::Valid;
                }
                j = j + 1;
            }
            false
        },
        _ => false,
    }
}

/// The diagnostic of a refused query.
pub open spec fn query_failure(code: Seq<char>, message: Seq<char>) -> DiagnosticView {
    DiagnosticView {
        related_requirements: seq!["AUTHORING-QUERY-002"@],
        ..fresh_diagnostic(code, ErrorKind::Validation, message)
    }
}

fn query_error(code: &str, message: &str) -> (error: MasterdataError)
    ensures
        error@ == query_failure(code@, message@),
{
    MasterdataError::new(code, ErrorKind::Validation, message).with_related_requirement("AUTHORING-QUERY-002")
}

/// `prefix + "`" + name + "`" + suffix`.
fn quoted_message(prefix: &str, name: &str, suffix: &str) -> (message: String)
    ensures
        message@ == prefix@ + "`"@ + name@ + "`"@ + suffix@,
{
    let mut message = String::from_str(prefix);
    message.append("`");
    message.append(name);
    message.append("`");
    message.append(suffix);
    message
}

pub open spec fn reversed(order: Comparison) -> Comparison {
    match order {
        Comparison::Less => Comparison::Greater,
        Comparison::Equal => Comparison::Equal,
        Comparison::Greater => Comparison::Less,
    }
}

pub open spec fn int_order(left: int, right: int) -> Comparison {
    if left < right {
        Comparison::Less
    } else if left == right {
        Comparison::Equal
    } else {
        Comparison::Greater
    }
}

/// `false` sorts before `true`.
pub open spec fn bool_order(left: bool, right: bool) -> Comparison {
    int_order(if left { 1 } else { 0 }, if right { 1 } else { 0 })
}

/// The UTF-16 code units of one character.
pub open spec fn char_units(c: char) -> Seq<u16> {
    let v = c as int;
    if v < 0x10000 {
        seq![v as u16]
    } else {
        let w = v - 0x10000;
        seq![(0xD800 + w / 0x400) as u16, (0xDC00 + w % 0x400) as u16]
    }
}

/// The UTF-16 encoding of a text.
pub open spec fn utf16_units(s: Seq<char>) -> Seq<u16>
    decreases s.len(),
{
    if s.len() == 0 {
        Seq::empty()
    } else {
        utf16_units(s.drop_last()) + char_units(s.last())
    }
}

/// Lexicographic order of code unit sequences; a proper prefix comes first.
pub open spec fn units_order(a: Seq<u16>, b: Seq<u16>) -> Comparison
    decreases a.len(),
{
    if a.len() == 0 {
        if b.len() == 0 { Comparison::Equal } else { Comparison::Less }
    } else if b.len() == 0 {
        Comparison::Greater
    } else if a[0] < b[0] {
        Comparison::Less
    } else if a[0] > b[0] {
        Comparison::Greater
    } else {
        units_order(a.drop_first(), b.drop_first())
    }
}

/// Text order: the UTF-16 code units compared lexicographically.
pub open spec fn text_order(left: Seq<char>, right: Seq<char>) -> Comparison {
    units_order(utf16_units(left), utf16_units(right))
}

pub proof fn lemma_units_order_reversed(a: Seq<u16>, b: Seq<u16>)
    ensures
        units_order(b, a) == reversed(units_order(a, b)),
        units_order(a, b) == Comparison::Equal ==> a == b,
    decreases a.len(),
{
    if a.len() > 0 && b.len() > 0 && a[0] == b[0] {
        lemma_units_order_reversed(a.drop_first(), b.drop_first());
        if units_order(a, b) == Comparison::Equal {
            assert(a =~= seq![a[0]] + a.drop_first());
            assert(b =~= seq![b[0]] + b.drop_first());
        }
    }
    if a.len() == 0 && b.len() == 0 {
        assert(a =~= b);
    }
}

pub proof fn lemma_units_order_transitive(a: Seq<u16>, b: Seq<u16>, c: Seq<u16>)
    requires
        units_order(a, b) != Comparison::Greater,
        units_order(b, c) != Comparison::Greater,
    ensures
        units_order(a, c) != Comparison::Greater,
        units_order(a, b) == Comparison::Less || units_order(b, c) == Comparison::Less ==> units_order(a, c) == Comparison::Less,
    decreases a.len(),
{
    if a.len() > 0 && b.len() > 0 && c.len() > 0 && a[0] == b[0] && b[0] == c[0] {
        lemma_units_order_transitive(a.drop_first(), b.drop_first(), c.drop_first());
    }
}

fn push_char_units(units: &mut Vec<u16>, c: char)
    ensures
        final(units)@ == old(units)@ + char_units(c),
{
    let v = c as u32;
    if v < 0x10000 {
        units.push(v as u16);
    } else {
        let w = v - 0x10000;
        proof {
            assert(w / 0x400 < 0x400) by (nonlinear_arith)
                requires w < 0x100000;
        }
        units.push((0xD800 + w / 0x400) as u16);
        units.push((0xDC00 + w % 0x400) as u16);
    }
    proof {
        assert(final(units)@ =~= old(units)@ + char_units(c));
    }
}

/// The UTF-16 encoding of a string (`str::encode_utf16`).
pub fn encode_utf16(text: &str) -> (units: Vec<u16>)
    ensures
        units@ == utf16_units(text@),
{
    let chars = chars_of(text);
    let mut units: Vec<u16> = Vec::new();
    let mut i: usize = 0;
    while i < chars.len()
        invariant
            i <= chars@.len(),
            chars@ == text@,
            units@ == utf16_units(chars@.subrange(0, i as int)),
        decreases chars@.len() - i,
    {
        proof {
            assert(chars@.subrange(0, i + 1).drop_last() =~= chars@.subrange(0, i as int));
        }
        push_char_units(&mut units, chars[i]);
        i = i + 1;
    }
    proof {
        assert(chars@.subrange(0, i as int) =~= chars@);
    }
    units
}

fn compare_units(a: &Vec<u16>, b: &Vec<u16>) -> (order: Comparison)
    ensures
        order == units_order(a@, b@),
{
    let mut i: usize = 0;
    proof {
        assert(a@.skip(0) =~= a@);
        assert(b@.skip(0) =~= b@);
    }
    while i < a.len() && i < b.len()
        invariant
            i <= a@.len(),
            i <= b@.len(),
            units_order(a@, b@) == units_order(a@.skip(i as int), b@.skip(i as int)),
        decreases a@.len() - i,
    {
        if a[i] < b[i] {
            return Comparison::Less;
        }
        if a[i] > b[i] {
            return Comparison::Greater;
        }
        proof {
            assert(a@.skip(i as int).drop_first() =~= a@.skip(i + 1));
            assert(b@.skip(i as int).drop_first() =~= b@.skip(i + 1));
        }
        i = i + 1;
    }
    if i < a.len() {
        Comparison::Greater
    } else if i < b.len() {
        Comparison::Less
    } else {
        Comparison::Equal
    }
}

/// Compare two texts by their UTF-16 code units.
pub fn utf16_compare(left: &str, right: &str) -> (order: Comparison)
    ensures
        order == text_order(left@, right@),
{
    let a = encode_utf16(left);
    let b = encode_utf16(right);
    compare_units(&a, &b)
}

/// The primitive a scalar shape is stored as, if it is one.
pub open spec fn stored_primitive(shape: ResolvedAuthoringType) -> Option<PrimitiveType> {
    match shape {
        ResolvedAuthoringType::Primitive { primitive } => Some(primitive),
        ResolvedAuthoringType::ValueObject { underlying, .. } => Some(underlying),
        _ => None,
    }
}

pub open spec fn spec_is_equality_shape(shape: ResolvedAuthoringField) -> bool {
    match shape.shape {
        ResolvedAuthoringType::Primitive { primitive } =>
            primitive is Bool || spec_is_integer(primitive) || primitive is String,
        ResolvedAuthoringType::ValueObject { underlying, .. } => spec_is_integer(underlying) || underlying is String,
        ResolvedAuthoringType::Enum { .. } => true,
        _ => false,
    }
}

pub open spec fn spec_is_string_shape(shape: ResolvedAuthoringField) -> bool {
    stored_primitive(shape.shape) == Some(PrimitiveType::String)
}

pub open spec fn spec_is_integer_shape(shape: ResolvedAuthoringField) -> bool {
    stored_primitive(shape.shape) matches Some(primitive) && spec_is_integer(primitive)
}

/// Required integer or string scalars are the sortable columns.
pub open spec fn spec_is_sort_capable(shape: ResolvedAuthoringField) -> bool {
    &&& shape.modifier is Required
    &&& stored_primitive(shape.shape) matches Some(primitive) && (spec_is_integer(primitive) || primitive is String)
}

fn stored_primitive_of(shape: &ResolvedAuthoringType) -> (primitive: Option<PrimitiveType>)
    ensures
        primitive == stored_primitive(*shape),
{
    match shape {
        ResolvedAuthoringType::Primitive { primitive } => Some(*primitive),
        ResolvedAuthoringType::ValueObject { underlying, .. } => Some(*underlying),
        _ => None,
    }
}

fn is_equality_shape(shape: &ResolvedAuthoringField) -> (result: bool)
    ensures
        result == spec_is_equality_shape(*shape),
{
    match &shape.shape {
        ResolvedAuthoringType::Primitive { primitive } =>
            *primitive == PrimitiveType::Bool || primitive.is_integer() || *primitive == PrimitiveType::String,
        ResolvedAuthoringType::ValueObject { underlying, .. } =>
            underlying.is_integer() || *underlying == PrimitiveType::String,
        ResolvedAuthoringType::Enum { .. } => true,
        _ => false,
    }
}

fn is_string_shape(shape: &ResolvedAuthoringField) -> (result: bool)
    ensures
        result == spec_is_string_shape(*shape),
{
    match stored_primitive_of(&shape.shape) {
        Some(primitive) => primitive == PrimitiveType::String,
        None => false,
    }
}

fn is_integer_shape(shape: &ResolvedAuthoringField) -> (result: bool)
    ensures
        result == spec_is_integer_shape(*shape),
{
    match stored_primitive_of(&shape.shape) {
        Some(primitive) => primitive.is_integer(),
        None => false,
    }
}

fn is_sort_capable(shape: &ResolvedAuthoringField) -> (result: bool)
    ensures
        result == spec_is_sort_capable(*shape),
{
    shape.modifier == FieldModifier::Required && match stored_primitive_of(&shape.shape) {
        Some(primitive) => primitive.is_integer() || primitive == PrimitiveType::String,
        None => false,
    }
}

/// The integer that a `Number` or `String` value's text reads as.
pub open spec fn scalar_number(value: AuthoringValue) -> Option<int> {
    match scalar_text(value) {
        Some(text) => i128_text_value(text),
        None => None,
    }
}

pub open spec fn text_or_empty(value: AuthoringValue) -> Seq<char> {
    match scalar_text(value) {
        Some(text) => text,
        None => Seq::empty(),
    }
}

/// How two valid values of a column compare, when the column is comparable.
pub open spec fn valid_comparison(shape: ResolvedAuthoringField, left: AuthoringValue, right: AuthoringValue) -> Option<Comparison> {
    match shape.shape {
        ResolvedAuthoringType::Enum { .. } => Some(text_order(text_or_empty(left), text_or_empty(right))),
        ResolvedAuthoringType::Flags { .. } => None,
        ResolvedAuthoringType::Custom { .. } => None,
        _ => {
            let primitive = stored_primitive(shape.shape)->0;
            if spec_is_integer(primitive) {
                match (scalar_number(left), scalar_number(right)) {
                    (Some(a), Some(b)) => Some(int_order(a, b)),
                    _ => None,
                }
            } else if primitive is String {
                Some(text_order(text_or_empty(left), text_or_empty(right)))
            } else if primitive is Bool {
                match (left, right) {
                    (AuthoringValue::Bool { value: a }, AuthoringValue::Bool { value: b }) => Some(bool_order(a, b)),
                    _ => None,
                }
            } else {
                None
            }
        },
    }
}

fn scalar_str(value: &AuthoringValue) -> (text: Option<&str>)
    ensures
        match text {
            Some(t) => scalar_text(*value) == Some(t@),
            None => scalar_text(*value) is None,
        },
{
    match value {
        AuthoringValue::String { value } => Some(value.as_str()),
        AuthoringValue::Number { value } => Some(value.as_str()),
        _ => None,
    }
}

fn scalar_str_or_empty(value: &AuthoringValue) -> (text: &str)
    ensures
        text@ == text_or_empty(*value),
{
    match scalar_str(value) {
        Some(t) => t,
        None => {
            proof {
                reveal_strlit("");
            }
            ""
        },
    }
}

fn scalar_i128(value: &AuthoringValue) -> (number: Option<i128>)
    ensures
        match number {
            Some(n) => scalar_number(*value) == Some(n as int),
            None => scalar_number(*value) is None,
        },
{
    match scalar_str(value) {
        Some(t) => {
            let chars = chars_of(t);
            parse_i128(&chars)
        },
        None => None,
    }
}

fn int_comparison(left: i128, right: i128) -> (order: Comparison)
    ensures
        order == int_order(left as int, right as int),
{
    if left < right {
        Comparison::Less
    } else if left == right {
        Comparison::Equal
    } else {
        Comparison::Greater
    }
}

/// Compare two valid values of a column.
fn compare_valid_values(shape: &ResolvedAuthoringField, left: &AuthoringValue, right: &AuthoringValue) -> (result: Result<Comparison, MasterdataError>)
    ensures
        match result {
            Ok(order) => valid_comparison(*shape, *left, *right) == Some(order),
            Err(e) => valid_comparison(*shape, *left, *right) is None
                && e@.related_requirements == seq!["AUTHORING-QUERY-002"@],
        },
{
    match &shape.shape {
        ResolvedAuthoringType::Enum { .. } => {
            return Ok(utf16_compare(scalar_str_or_empty(left), scalar_str_or_empty(right)));
        },
        ResolvedAuthoringType::Flags { .. } | ResolvedAuthoringType::Custom { .. } => {
            let message = quoted_message("field ", shape.name.as_str(), " is not comparable for this operator");
            return Err(query_error("E-AUTHORING-QUERY-OPERATOR-UNSUPPORTED", message.as_str()));
        },
        _ => {},
    }
    let primitive = match stored_primitive_of(&shape.shape) {
        Some(primitive) => primitive,
        None => PrimitiveType::String,
    };
    if primitive.is_integer() {
        match (scalar_i128(left), scalar_i128(right)) {
            (Some(a), Some(b)) => Ok(int_comparison(a, b)),
            _ => Err(query_error("E-AUTHORING-QUERY-INPUT", "numeric query value is invalid")),
        }
    } else if primitive == PrimitiveType::String {
        Ok(utf16_compare(scalar_str_or_empty(left), scalar_str_or_empty(right)))
    } else if primitive == PrimitiveType::Bool {
        match (left, right) {
            (AuthoringValue::Bool { value: a }, AuthoringValue::Bool { value: b }) => {
                Ok(int_comparison(if *a { 1 } else { 0 }, if *b { 1 } else { 0 }))
            },
            _ => Err(query_error("E-AUTHORING-QUERY-INPUT", "boolean query value is invalid")),
        }
    } else {
        let message = quoted_message("field ", shape.name.as_str(), " does not support this numeric/string query");
        Err(query_error("E-AUTHORING-QUERY-OPERATOR-UNSUPPORTED", message.as_str()))
    }
}

pub open spec fn state_rank(state: ValueState) -> int {
    match state {
        ValueState::Valid => 0,
        ValueState::Null => 1,
        ValueState::Invalid => 2,
    }
}

/// Sort order before direction: valid values first in value order, then
/// nulls, then invalid values; cells of one non-valid group tie.
pub open spec fn sort_comparison(shape: ResolvedAuthoringField, left: AuthoringValue, right: AuthoringValue) -> Option<Comparison> {
    let left_state = value_state(shape, left);
    let right_state = value_state(shape, right);
    if left_state != right_state {
        Some(int_order(state_rank(left_state), state_rank(right_state)))
    } else if left_state != ValueState::Valid {
        Some(Comparison::Equal)
    } else {
        valid_comparison(shape, left, right)
    }
}

fn compare_sort_values(shape: &ResolvedAuthoringField, left: &AuthoringValue, right: &AuthoringValue) -> (result: Result<Comparison, MasterdataError>)
    ensures
        match result {
            Ok(order) => sort_comparison(*shape, *left, *right) == Some(order),
            Err(_) => sort_comparison(*shape, *left, *right) is None,
        },
{
    let left_state = field_value_state(shape, left);
    let right_state = field_value_state(shape, right);
    if left_state != right_state {
        let rank = |state: ValueState| -> (r: i128)
            ensures
                r == state_rank(state),
        {
            match state {
                ValueState::Valid => 0,
                ValueState::Null => 1,
                ValueState::Invalid => 2,
            }
        };
        return Ok(int_comparison(rank(left_state), rank(right_state)));
    }
    if left_state != ValueState::Valid {
        return Ok(Comparison::Equal);
    }
    compare_valid_values(shape, left, right)
}

/// The order the sort applies: descending reverses valid pairs only, so the
/// null and invalid groups stay after the valid values in source order.
pub open spec fn directed_order(shape: ResolvedAuthoringField, direction: SortDirection, left: AuthoringValue, right: AuthoringValue) -> Comparison {
    match sort_comparison(shape, left, right) {
        Some(order) => {
            if direction is Descending && value_state(shape, left) == ValueState::Valid
                && value_state(shape, right) == ValueState::Valid {
                reversed(order)
            } else {
                order
            }
        },
        None => Comparison::Equal,
    }
}

fn directed_compare(shape: &ResolvedAuthoringField, direction: SortDirection, left: &AuthoringValue, right: &AuthoringValue) -> (order: Comparison)
    ensures
        order == directed_order(*shape, direction, *left, *right),
{
    match compare_sort_values(shape, left, right) {
        Ok(order) => {
            if direction == SortDirection::Descending && field_value_state(shape, left) == ValueState::Valid
                && field_value_state(shape, right) == ValueState::Valid {
                match order {
                    Comparison::Less => Comparison::Greater,
                    Comparison::Equal => Comparison::Equal,
                    Comparison::Greater => Comparison::Less,
                }
            } else {
                order
            }
        },
        Err(_) => Comparison::Equal,
    }
}

/// The text that the free-text search sees in a cell: valid scalars only.
pub open spec fn searchable_text(shape: ResolvedAuthoringField, value: AuthoringValue) -> Option<Seq<char>> {
    if value_state(shape, value) != ValueState::Valid {
        None
    } else {
        match value {
            AuthoringValue::String { value: text } => Some(text@),
            AuthoringValue::Number { value: text } => Some(text@),
            AuthoringValue::Bool { value: b } => Some(if b { "true"@ } else { "false"@ }),
            _ => None,
        }
    }
}

fn searchable_chars(shape: &ResolvedAuthoringField, value: &AuthoringValue) -> (text: Option<Vec<char>>)
    ensures
        match text {
            Some(t) => searchable_text(*shape, *value) == Some(t@),
            None => searchable_text(*shape, *value) is None,
        },
{
    if field_value_state(shape, value) != ValueState::Valid {
        return None;
    }
    match value {
        AuthoringValue::String { value: text } => Some(chars_of(text.as_str())),
        AuthoringValue::Number { value: text } => Some(chars_of(text.as_str())),
        AuthoringValue::Bool { value: b } => if *b { Some(chars_of("true")) } else { Some(chars_of("false")) },
        _ => None,
    }
}

/// Whether a filter operator holds between a cell and the filter's value.
pub open spec fn operator_holds(operator: QueryOperator, order: Comparison, actual: AuthoringValue, expected: AuthoringValue) -> bool {
    match operator {
        QueryOperator::Equals => order == Comparison::Equal,
        QueryOperator::NotEquals => order != Comparison::Equal,
        QueryOperator::LessThan => order == Comparison::Less,
        QueryOperator::GreaterThan => order == Comparison::Greater,
        QueryOperator::Contains => match (scalar_text(actual), scalar_text(expected)) {
            (Some(left), Some(right)) => contains_text(left, right),
            _ => false,
        },
        _ => false,
    }
}

/// Whether a filter keeps a cell. `is-null` sees a literal null cell,
/// `is-invalid` an invalid one (a null in a required field is both); the
/// ordinary operators only ever match valid cells.
pub open spec fn filter_holds(shape: ResolvedAuthoringField, actual: AuthoringValue, filter: ColumnFilter) -> bool {
    match filter.operator {
        QueryOperator::IsNull => actual is Null,
        QueryOperator::IsInvalid => value_state(shape, actual) == ValueState::Invalid,
        _ => {
            &&& value_state(shape, actual) == ValueState::Valid
            &&& filter.value matches Some(expected)
            &&& value_state(shape, expected) == ValueState::Valid
            &&& valid_comparison(shape, actual, expected) matches Some(order)
            &&& operator_holds(filter.operator, order, actual, expected)
        },
    }
}

fn evaluate_filter(shape: &ResolvedAuthoringField, actual: &AuthoringValue, filter: &ColumnFilter) -> (holds: bool)
    ensures
        holds == filter_holds(*shape, *actual, *filter),
{
    let state = field_value_state(shape, actual);
    match filter.operator {
        QueryOperator::IsNull => matches!(actual, AuthoringValue::Null),
        QueryOperator::IsInvalid => state == ValueState::Invalid,
        _ => {
            if state != ValueState::Valid {
                return false;
            }
            let expected = match &filter.value {
                Some(expected) => expected,
                None => {
                    return false;
                },
            };
            if field_value_state(shape, expected) != ValueState::Valid {
                return false;
            }
            let order = match compare_valid_values(shape, actual, expected) {
                Ok(order) => order,
                Err(_) => {
                    return false;
                },
            };
            match filter.operator {
                QueryOperator::Equals => order == Comparison::Equal,
                QueryOperator::NotEquals => order != Comparison::Equal,
                QueryOperator::LessThan => order == Comparison::Less,
                QueryOperator::GreaterThan => order == Comparison::Greater,
                QueryOperator::Contains => {
                    match (scalar_str(actual), scalar_str(expected)) {
                        (Some(left), Some(right)) => {
                            let l = chars_of(left);
                            let r = chars_of(right);
                            contains_chars(&l, &r)
                        },
                        _ => false,
                    }
                },
                _ => false,
            }
        },
    }
}

/// The operator's name as it appears in messages.
pub open spec fn operator_label(operator: QueryOperator) -> Seq<char> {
    match operator {
        QueryOperator::Equals => "Equals"@,
        QueryOperator::NotEquals => "NotEquals"@,
        QueryOperator::LessThan => "LessThan"@,
        QueryOperator::GreaterThan => "GreaterThan"@,
        QueryOperator::Contains => "Contains"@,
        QueryOperator::IsNull => "IsNull"@,
        QueryOperator::IsInvalid => "IsInvalid"@,
    }
}

fn operator_text(operator: QueryOperator) -> (label: &'static str)
    ensures
        label@ == operator_label(operator),
{
    match operator {
        QueryOperator::Equals => "Equals",
        QueryOperator::NotEquals => "NotEquals",
        QueryOperator::LessThan => "LessThan",
        QueryOperator::GreaterThan => "GreaterThan",
        QueryOperator::Contains => "Contains",
        QueryOperator::IsNull => "IsNull",
        QueryOperator::IsInvalid => "IsInvalid",
    }
}

pub open spec fn quoted(prefix: Seq<char>, name: Seq<char>, suffix: Seq<char>) -> Seq<char> {
    prefix + "`"@ + name + "`"@ + suffix
}

/// The failure when a filter's input is missing, unwanted, invalid or
/// unsupported for its column: a code and a message.
pub open spec fn missing_value_failure(operator: QueryOperator) -> (Seq<char>, Seq<char>) {
    ("E-AUTHORING-QUERY-INPUT"@, "operator "@ + operator_label(operator) + " requires a value"@)
}

pub open spec fn invalid_input_failure(shape: ResolvedAuthoringField) -> (Seq<char>, Seq<char>) {
    ("E-AUTHORING-QUERY-INPUT"@, quoted("query input for "@, shape.name@, " is not a valid non-null value"@))
}

pub open spec fn filter_input_failure(shape: ResolvedAuthoringField, filter: ColumnFilter) -> Option<(Seq<char>, Seq<char>)> {
    match filter.operator {
        QueryOperator::IsNull | QueryOperator::IsInvalid => {
            if filter.value is Some {
                Some(("E-AUTHORING-QUERY-INPUT"@, "operator "@ + operator_label(filter.operator) + " does not accept a value"@))
            } else {
                None
            }
        },
        QueryOperator::LessThan | QueryOperator::GreaterThan => {
            if !spec_is_integer_shape(shape) {
                Some(("E-AUTHORING-QUERY-OPERATOR-UNSUPPORTED"@, quoted("numeric comparison is not supported for "@, shape.name@, ""@)))
            } else {
                match filter.value {
                    None => Some(missing_value_failure(filter.operator)),
                    Some(expected) => if value_state(shape, expected) != ValueState::Valid {
                        Some(invalid_input_failure(shape))
                    } else {
                        None
                    },
                }
            }
        },
        _ => {
            match filter.value {
                None => Some(missing_value_failure(filter.operator)),
                Some(expected) => {
                    if value_state(shape, expected) != ValueState::Valid {
                        Some(invalid_input_failure(shape))
                    } else if filter.operator is Contains && !spec_is_string_shape(shape) {
                        Some(("E-AUTHORING-QUERY-OPERATOR-UNSUPPORTED"@, quoted("contains is not supported for "@, shape.name@, ""@)))
                    } else if !(filter.operator is Contains) && !spec_is_equality_shape(shape) {
                        Some(("E-AUTHORING-QUERY-OPERATOR-UNSUPPORTED"@, quoted("equality is not supported for "@, shape.name@, ""@)))
                    } else {
                        None
                    }
                },
            }
        },
    }
}

fn operator_message(operator: QueryOperator, suffix: &str) -> (message: String)
    ensures
        message@ == "operator "@ + operator_label(operator) + suffix@,
{
    let mut message = String::from_str("operator ");
    message.append(operator_text(operator));
    message.append(suffix);
    message
}

/// Check that a filter's input suits its operator and column.
fn validate_filter_input(shape: &ResolvedAuthoringField, filter: &ColumnFilter) -> (result: Result<(), MasterdataError>)
    ensures
        match result {
            Ok(()) => filter_input_failure(*shape, *filter) is None,
            Err(e) => filter_input_failure(*shape, *filter) matches Some((code, message))
                && e@ == query_failure(code, message),
        },
{
    match filter.operator {
        QueryOperator::IsNull | QueryOperator::IsInvalid => {
            if filter.value.is_some() {
                let message = operator_message(filter.operator, " does not accept a value");
                return Err(query_error("E-AUTHORING-QUERY-INPUT", message.as_str()));
            }
            Ok(())
        },
        QueryOperator::LessThan | QueryOperator::GreaterThan => {
            if !is_integer_shape(shape) {
                let message = quoted_message("numeric comparison is not supported for ", shape.name.as_str(), "");
                return Err(query_error("E-AUTHORING-QUERY-OPERATOR-UNSUPPORTED", message.as_str()));
            }
            match &filter.value {
                None => {
                    let message = operator_message(filter.operator, " requires a value");
                    Err(query_error("E-AUTHORING-QUERY-INPUT", message.as_str()))
                },
                Some(expected) => {
                    if field_value_state(shape, expected) != ValueState::Valid {
                        let message = quoted_message("query input for ", shape.name.as_str(), " is not a valid non-null value");
                        return Err(query_error("E-AUTHORING-QUERY-INPUT", message.as_str()));
                    }
                    Ok(())
                },
            }
        },
        _ => {
            match &filter.value {
                None => {
                    let message = operator_message(filter.operator, " requires a value");
                    Err(query_error("E-AUTHORING-QUERY-INPUT", message.as_str()))
                },
                Some(expected) => {
                    if field_value_state(shape, expected) != ValueState::Valid {
                        let message = quoted_message("query input for ", shape.name.as_str(), " is not a valid non-null value");
                        return Err(query_error("E-AUTHORING-QUERY-INPUT", message.as_str()));
                    }
                    if filter.operator == QueryOperator::Contains && !is_string_shape(shape) {
                        let message = quoted_message("contains is not supported for ", shape.name.as_str(), "");
                        return Err(query_error("E-AUTHORING-QUERY-OPERATOR-UNSUPPORTED", message.as_str()));
                    }
                    if filter.operator != QueryOperator::Contains && !is_equality_shape(shape) {
                        let message = quoted_message("equality is not supported for ", shape.name.as_str(), "");
                        return Err(query_error("E-AUTHORING-QUERY-OPERATOR-UNSUPPORTED", message.as_str()));
                    }
                    Ok(())
                },
            }
        },
    }
}

proof fn lemma_sort_comparison_defined(shape: ResolvedAuthoringField, a: AuthoringValue, b: AuthoringValue)
    requires
        spec_is_sort_capable(shape),
    ensures
        sort_comparison(shape, a, b) is Some,
{
    if value_state(shape, a) == ValueState::Valid && value_state(shape, b) == ValueState::Valid {
        assert(a !is Null && b !is Null);
        assert(value_state(shape, a) == value_state_type(shape.shape, a));
        assert(value_state(shape, b) == value_state_type(shape.shape, b));
    }
}

proof fn lemma_valid_comparison_reversed(shape: ResolvedAuthoringField, a: AuthoringValue, b: AuthoringValue)
    requires
        spec_is_sort_capable(shape),
        valid_comparison(shape, a, b) is Some,
    ensures
        valid_comparison(shape, b, a) == Some(reversed(valid_comparison(shape, a, b)->0)),
{
    lemma_units_order_reversed(utf16_units(text_or_empty(a)), utf16_units(text_or_empty(b)));
}

proof fn lemma_valid_comparison_transitive(shape: ResolvedAuthoringField, a: AuthoringValue, b: AuthoringValue, c: AuthoringValue)
    requires
        spec_is_sort_capable(shape),
        valid_comparison(shape, a, b) matches Some(o) && o != Comparison::Greater,
        valid_comparison(shape, b, c) matches Some(o) && o != Comparison::Greater,
        valid_comparison(shape, a, c) is Some,
    ensures
        valid_comparison(shape, a, c)->0 != Comparison::Greater,
{
    let primitive = stored_primitive(shape.shape)->0;
    if !spec_is_integer(primitive) {
        lemma_units_order_transitive(
            utf16_units(text_or_empty(a)),
            utf16_units(text_or_empty(b)),
            utf16_units(text_or_empty(c)),
        );
    }
}

/// The sort order of a sortable column is a total preorder: swapping the
/// operands reverses it, and "not after" is transitive.
pub proof fn lemma_directed_order_preorder(
    shape: ResolvedAuthoringField,
    direction: SortDirection,
    a: AuthoringValue,
    b: AuthoringValue,
    c: AuthoringValue,
)
    requires
        spec_is_sort_capable(shape),
    ensures
        directed_order(shape, direction, b, a) == reversed(directed_order(shape, direction, a, b)),
        directed_order(shape, direction, a, b) != Comparison::Greater
            && directed_order(shape, direction, b, c) != Comparison::Greater
            ==> directed_order(shape, direction, a, c) != Comparison::Greater,
{
    lemma_sort_comparison_defined(shape, a, b);
    lemma_sort_comparison_defined(shape, b, a);
    lemma_sort_comparison_defined(shape, b, c);
    lemma_sort_comparison_defined(shape, a, c);
    let sa = value_state(shape, a);
    let sb = value_state(shape, b);
    let sc = value_state(shape, c);
    if sa == ValueState::Valid && sb == ValueState::Valid {
        lemma_valid_comparison_reversed(shape, a, b);
    }
    if directed_order(shape, direction, a, b) != Comparison::Greater
        && directed_order(shape, direction, b, c) != Comparison::Greater
        && sa == ValueState::Valid && sb == ValueState::Valid && sc == ValueState::Valid {
        if direction is Ascending {
            lemma_valid_comparison_transitive(shape, a, b, c);
        } else {
            lemma_valid_comparison_reversed(shape, b, c);
            lemma_valid_comparison_reversed(shape, a, c);
            lemma_valid_comparison_transitive(shape, c, b, a);
        }
    }
}

/// Whether row `a` is placed before row `b`: by the directed order of the
/// sort column, ties in source position.
pub open spec fn row_before(shape: ResolvedAuthoringField, index: int, rows: Seq<QueryRow>, direction: SortDirection, a: usize, b: usize) -> bool {
    let order = directed_order(shape, direction, rows[a as int].values@[index], rows[b as int].values@[index]);
    order == Comparison::Less || (order == Comparison::Equal && a < b)
}

/// Whether the row positions are in the stable sort order.
pub open spec fn rows_sorted(shape: ResolvedAuthoringField, index: int, rows: Seq<QueryRow>, direction: SortDirection, out: Seq<usize>) -> bool {
    forall|i: int, j: int| 0 <= i < j < out.len() ==> row_before(shape, index, rows, direction, #[trigger] out[i], #[trigger] out[j])
}

/// Whether two position lists hold the same positions.
pub open spec fn same_positions(a: Seq<usize>, b: Seq<usize>) -> bool {
    a.len() == b.len() && forall|x: usize| a.contains(x) <==> b.contains(x)
}

proof fn lemma_insert_sorted(
    shape: ResolvedAuthoringField,
    index: int,
    rows: Seq<QueryRow>,
    direction: SortDirection,
    out: Seq<usize>,
    k: int,
    x: usize,
)
    requires
        spec_is_sort_capable(shape),
        rows_sorted(shape, index, rows, direction, out),
        0 <= k <= out.len(),
        forall|m: int| k <= m < out.len() ==> directed_order(shape, direction, rows[x as int].values@[index], rows[out[m] as int].values@[index]) == Comparison::Less,
        k > 0 ==> directed_order(shape, direction, rows[x as int].values@[index], rows[out[k - 1] as int].values@[index]) != Comparison::Less,
        forall|m: int| 0 <= m < out.len() ==> out[m] < x,
    ensures
        rows_sorted(shape, index, rows, direction, out.insert(k, x)),
{
    let next = out.insert(k, x);
    let vx = rows[x as int].values@[index];
    assert forall|i: int, j: int| 0 <= i < j < next.len() implies row_before(shape, index, rows, direction, #[trigger] next[i], #[trigger] next[j]) by {
        if j < k {
            assert(next[i] == out[i] && next[j] == out[j]);
        } else if i > k {
            assert(next[i] == out[i - 1] && next[j] == out[j - 1]);
        } else if i < k && j > k {
            assert(next[i] == out[i] && next[j] == out[j - 1]);
        } else if i == k {
            assert(next[i] == x && next[j] == out[j - 1]);
        } else {
            assert(j == k && i < k);
            assert(next[i] == out[i] && next[j] == x);
            let vi = rows[out[i] as int].values@[index];
            let vk = rows[out[k - 1] as int].values@[index];
            lemma_directed_order_preorder(shape, direction, vk, vx, vx);
            if i < k - 1 {
                assert(row_before(shape, index, rows, direction, out[i], out[k - 1]));
                lemma_directed_order_preorder(shape, direction, vi, vk, vx);
            }
        }
    }
}

/// Stable sort of row positions by the sort column (insertion sort).
fn sort_positions(
    shape: &ResolvedAuthoringField,
    index: usize,
    rows: &[QueryRow],
    direction: SortDirection,
    selected: &Vec<usize>,
) -> (out: Vec<usize>)
    requires
        spec_is_sort_capable(*shape),
        forall|k: int| 0 <= k < selected@.len() ==> selected@[k] < rows@.len() && index < rows@[selected@[k] as int].values@.len(),
        forall|i: int, j: int| 0 <= i < j < selected@.len() ==> selected@[i] < selected@[j],
    ensures
        same_positions(out@, selected@),
        rows_sorted(*shape, index as int, rows@, direction, out@),
{
    let mut out: Vec<usize> = Vec::new();
    let mut t: usize = 0;
    while t < selected.len()
        invariant
            spec_is_sort_capable(*shape),
            forall|k: int| 0 <= k < selected@.len() ==> selected@[k] < rows@.len() && index < rows@[selected@[k] as int].values@.len(),
            forall|i: int, j: int| 0 <= i < j < selected@.len() ==> selected@[i] < selected@[j],
            t <= selected@.len(),
            out@.len() == t,
            forall|x: usize| out@.contains(x) <==> selected@.take(t as int).contains(x),
            rows_sorted(*shape, index as int, rows@, direction, out@),
        decreases selected@.len() - t,
    {
        let x = selected[t];
        proof {
            assert forall|m: int| 0 <= m < out@.len() implies out@[m] < x by {
                assert(out@.contains(out@[m]));
                let w = choose|w: int| 0 <= w < t && selected@.take(t as int)[w] == out@[m];
                assert(selected@[w] == out@[m]);
            }
            assert forall|m: int| 0 <= m < out@.len() implies out@[m] < rows@.len() && index < rows@[out@[m] as int].values@.len() by {
                assert(out@.contains(out@[m]));
                let w = choose|w: int| 0 <= w < t && selected@.take(t as int)[w] == out@[m];
                assert(selected@[w] == out@[m]);
            }
        }
        let mut k: usize = out.len();
        while k > 0
            invariant
                k <= out@.len(),
                x < rows@.len() && index < rows@[x as int].values@.len(),
                forall|m: int| 0 <= m < out@.len() ==> out@[m] < rows@.len() && index < rows@[out@[m] as int].values@.len(),
                forall|m: int| k <= m < out@.len() ==> directed_order(*shape, direction, rows@[x as int].values@[index as int], rows@[out@[m] as int].values@[index as int]) == Comparison::Less,
            ensures
                k <= out@.len(),
                forall|m: int| k <= m < out@.len() ==> directed_order(*shape, direction, rows@[x as int].values@[index as int], rows@[out@[m] as int].values@[index as int]) == Comparison::Less,
                k > 0 ==> directed_order(*shape, direction, rows@[x as int].values@[index as int], rows@[out@[k - 1] as int].values@[index as int]) != Comparison::Less,
            decreases k,
        {
            let previous = out[k - 1];
            if directed_compare(shape, direction, &rows[x].values[index], &rows[previous].values[index]) != Comparison::Less {
                break;
            }
            k = k - 1;
        }
        proof {
            lemma_insert_sorted(*shape, index as int, rows@, direction, out@, k as int, x);
        }
        let ghost before = out@;
        out.insert(k, x);
        proof {
            assert(selected@.take(t + 1) =~= selected@.take(t as int).push(x));
            assert forall|y: usize| out@.contains(y) <==> selected@.take(t + 1).contains(y) by {
                let small = selected@.take(t as int);
                let large = selected@.take(t + 1);
                if out@.contains(y) {
                    let w = choose|w: int| 0 <= w < out@.len() && out@[w] == y;
                    if w < k {
                        assert(before[w] == y);
                        assert(before.contains(y));
                    } else if w > k {
                        assert(before[w - 1] == y);
                        assert(before.contains(y));
                    } else {
                        assert(y == x);
                        assert(large[t as int] == y);
                    }
                    if before.contains(y) {
                        assert(small.contains(y));
                        let v = choose|v: int| 0 <= v < small.len() && small[v] == y;
                        assert(large[v] == y);
                    }
                }
                if large.contains(y) {
                    let v = choose|v: int| 0 <= v < large.len() && large[v] == y;
                    if v < t {
                        assert(small[v] == y);
                        assert(small.contains(y));
                        assert(before.contains(y));
                        let w = choose|w: int| 0 <= w < before.len() && before[w] == y;
                        if w < k {
                            assert(out@[w] == y);
                        } else {
                            assert(out@[w + 1] == y);
                        }
                    } else {
                        assert(y == x);
                        assert(out@[k as int] == x);
                    }
                }
            }
        }
        t = t + 1;
    }
    proof {
        assert(selected@.take(t as int) =~= selected@);
    }
    out
}

/// Position of the first column named `name`, or the column count.
pub open spec fn column_position(columns: Seq<ResolvedAuthoringField>, name: Seq<char>) -> int
    decreases columns.len(),
{
    if columns.len() == 0 {
        0
    } else if columns[0].name@ == name {
        0
    } else {
        1 + column_position(columns.drop_first(), name)
    }
}

proof fn lemma_column_position(columns: Seq<ResolvedAuthoringField>, name: Seq<char>)
    ensures
        0 <= column_position(columns, name) <= columns.len(),
        column_position(columns, name) < columns.len() ==> columns[column_position(columns, name)].name@ == name,
        forall|k: int| 0 <= k < column_position(columns, name) ==> columns[k].name@ != name,
    decreases columns.len(),
{
    if columns.len() > 0 && columns[0].name@ != name {
        lemma_column_position(columns.drop_first(), name);
        assert forall|k: int| 0 <= k < column_position(columns, name) implies columns[k].name@ != name by {
            if k > 0 {
                assert(columns[k] == columns.drop_first()[k - 1]);
            }
        }
    }
}

fn find_column(columns: &[ResolvedAuthoringField], name: &str) -> (position: Option<usize>)
    ensures
        match position {
            Some(p) => p == column_position(columns@, name@) && p < columns@.len(),
            None => column_position(columns@, name@) == columns@.len(),
        },
{
    proof {
        lemma_column_position(columns@, name@);
    }
    let mut i: usize = 0;
    while i < columns.len()
        invariant
            i <= columns@.len(),
            forall|k: int| 0 <= k < i ==> columns@[k].name@ != name@,
            0 <= column_position(columns@, name@) <= columns@.len(),
            column_position(columns@, name@) < columns@.len() ==> columns@[column_position(columns@, name@)].name@ == name@,
            forall|k: int| 0 <= k < column_position(columns@, name@) ==> columns@[k].name@ != name@,
        decreases columns@.len() - i,
    {
        if str_eq(columns[i].name.as_str(), name) {
            return Some(i);
        }
        i = i + 1;
    }
    None
}

/// The first refused filter, in filter order: an unknown column or an
/// input that does not suit the operator.
pub open spec fn filters_failure(columns: Seq<ResolvedAuthoringField>, filters: Seq<ColumnFilter>) -> Option<(Seq<char>, Seq<char>)>
    decreases filters.len(),
{
    if filters.len() == 0 {
        None
    } else {
        let filter = filters[0];
        let position = column_position(columns, filter.field@);
        if position >= columns.len() {
            Some(("E-AUTHORING-QUERY-FIELD"@, quoted("unknown query field "@, filter.field@, ""@)))
        } else {
            match filter_input_failure(columns[position], filter) {
                Some(failure) => Some(failure),
                None => filters_failure(columns, filters.drop_first()),
            }
        }
    }
}

/// Whether every row has one value per column.
pub open spec fn rows_shaped(columns: Seq<ResolvedAuthoringField>, rows: Seq<QueryRow>) -> bool {
    forall|i: int| 0 <= i < rows.len() ==> #[trigger] rows[i].values@.len() == columns.len()
}

pub open spec fn sort_failure(columns: Seq<ResolvedAuthoringField>, sort: Option<QuerySort>) -> Option<(Seq<char>, Seq<char>)> {
    match sort {
        None => None,
        Some(sort) => {
            let position = column_position(columns, sort.field@);
            if position >= columns.len() {
                Some(("E-AUTHORING-QUERY-FIELD"@, quoted("unknown sort field "@, sort.field@, ""@)))
            } else if !spec_is_sort_capable(columns[position]) {
                Some(("E-AUTHORING-QUERY-SORT-UNSUPPORTED"@, quoted("field "@, sort.field@, " is outside v1 sort capability"@)))
            } else {
                None
            }
        },
    }
}

/// Why a query is refused, if it is: filters are checked first, then the
/// row shapes, then the sort.
pub open spec fn query_refusal(columns: Seq<ResolvedAuthoringField>, rows: Seq<QueryRow>, query: AuthoringQuery) -> Option<(Seq<char>, Seq<char>)> {
    match filters_failure(columns, query.filters@) {
        Some(failure) => Some(failure),
        None => if !rows_shaped(columns, rows) {
            Some(("E-AUTHORING-QUERY-ROW-SHAPE"@, "query row does not have the same number of values as the schema"@))
        } else {
            sort_failure(columns, query.sort)
        },
    }
}

/// Whether the search text occurs in the searchable text of a cell.
pub open spec fn cell_hit(column: ResolvedAuthoringField, value: AuthoringValue, search: Seq<char>) -> bool {
    searchable_text(column, value) matches Some(text) && contains_text(text, search)
}

/// Whether a filter keeps a row: its column exists and the filter holds there.
pub open spec fn filter_keeps(columns: Seq<ResolvedAuthoringField>, values: Seq<AuthoringValue>, filter: ColumnFilter) -> bool {
    let position = column_position(columns, filter.field@);
    position < columns.len() && filter_holds(columns[position], values[position], filter)
}

/// Search matches any column; filters must all hold.
pub open spec fn row_selected(columns: Seq<ResolvedAuthoringField>, row: QueryRow, query: AuthoringQuery) -> bool {
    &&& (query.search@.len() == 0 || exists|c: int| 0 <= c < columns.len() && #[trigger] cell_hit(columns[c], row.values@[c], query.search@))
    &&& forall|f: int| 0 <= f < query.filters@.len() ==> #[trigger] filter_keeps(columns, row.values@, query.filters@[f])
}

/// The positions among the first `n` rows that the query keeps, in source order.
pub open spec fn selected_positions(columns: Seq<ResolvedAuthoringField>, rows: Seq<QueryRow>, query: AuthoringQuery, n: int) -> Seq<usize>
    decreases n,
{
    if n <= 0 {
        Seq::empty()
    } else {
        let earlier = selected_positions(columns, rows, query, n - 1);
        if row_selected(columns, rows[n - 1], query) { earlier.push((n - 1) as usize) } else { earlier }
    }
}

proof fn lemma_selected_positions(columns: Seq<ResolvedAuthoringField>, rows: Seq<QueryRow>, query: AuthoringQuery, n: int)
    requires
        0 <= n <= usize::MAX,
    ensures
        forall|k: int| 0 <= k < selected_positions(columns, rows, query, n).len() ==> #[trigger] selected_positions(columns, rows, query, n)[k] < n,
        forall|i: int, j: int| 0 <= i < j < selected_positions(columns, rows, query, n).len()
            ==> selected_positions(columns, rows, query, n)[i] < selected_positions(columns, rows, query, n)[j],
    decreases n,
{
    if n > 0 {
        lemma_selected_positions(columns, rows, query, n - 1);
        let earlier = selected_positions(columns, rows, query, n - 1);
        let current = selected_positions(columns, rows, query, n);
        assert forall|k: int| 0 <= k < current.len() implies #[trigger] current[k] < n by {
            if k < earlier.len() {
                assert(current[k] == earlier[k]);
            }
        }
        assert forall|i: int, j: int| 0 <= i < j < current.len() implies current[i] < current[j] by {
            assert(current[i] == earlier[i]);
            if j < earlier.len() {
                assert(current[j] == earlier[j]);
            }
        }
    }
}

fn row_search_hit(columns: &[ResolvedAuthoringField], values: &Vec<AuthoringValue>, search: &Vec<char>) -> (hit: bool)
    requires
        values@.len() == columns@.len(),
    ensures
        hit == exists|c: int| 0 <= c < columns@.len() && #[trigger] cell_hit(columns@[c], values@[c], search@),
{
    let mut c: usize = 0;
    while c < columns.len()
        invariant
            c <= columns@.len(),
            values@.len() == columns@.len(),
            forall|k: int| 0 <= k < c ==> !#[trigger] cell_hit(columns@[k], values@[k], search@),
        decreases columns@.len() - c,
    {
        if let Some(text) = searchable_chars(&columns[c], &values[c]) {
            if contains_chars(&text, search) {
                assert(cell_hit(columns@[c as int], values@[c as int], search@));
                return true;
            }
        }
        c = c + 1;
    }
    false
}

fn row_filters_keep(columns: &[ResolvedAuthoringField], values: &Vec<AuthoringValue>, filters: &Vec<ColumnFilter>) -> (keep: bool)
    requires
        values@.len() == columns@.len(),
    ensures
        keep == forall|f: int| 0 <= f < filters@.len() ==> #[trigger] filter_keeps(columns@, values@, filters@[f]),
{
    let mut f: usize = 0;
    while f < filters.len()
        invariant
            f <= filters@.len(),
            values@.len() == columns@.len(),
            forall|k: int| 0 <= k < f ==> #[trigger] filter_keeps(columns@, values@, filters@[k]),
        decreases filters@.len() - f,
    {
        let filter = &filters[f];
        match find_column(columns, filter.field.as_str()) {
            None => {
                assert(!filter_keeps(columns@, values@, filters@[f as int]));
                return false;
            },
            Some(p) => {
                if !evaluate_filter(&columns[p], &values[p], filter) {
                    assert(!filter_keeps(columns@, values@, filters@[f as int]));
                    return false;
                }
            },
        }
        f = f + 1;
    }
    true
}

/// What a query that is not refused answers: the selected positions in
/// source order, or, with a sort, the same positions in the stable order
/// of the sort column.
pub open spec fn query_answer(columns: Seq<ResolvedAuthoringField>, rows: Seq<QueryRow>, query: AuthoringQuery, out: Seq<usize>) -> bool {
    let selected = selected_positions(columns, rows, query, rows.len() as int);
    &&& query_refusal(columns, rows, query) is None
    &&& match query.sort {
        None => out == selected,
        Some(sort) => {
            let position = column_position(columns, sort.field@);
            same_positions(out, selected) && rows_sorted(columns[position], position, rows, sort.direction, out)
        },
    }
}

/// Evaluate a read-only query and return source-order row positions.  The
/// caller supplies columns in schema order and rows in the captured snapshot
/// order, so this function cannot reorder schema columns or mutate source.
pub fn apply_authoring_query(
    columns: &[ResolvedAuthoringField],
    rows: &[QueryRow],
    query: &AuthoringQuery,
) -> (result: Result<Vec<usize>, MasterdataError>)
    ensures
        match result {
            Ok(out) => query_answer(columns@, rows@, *query, out@),
            Err(e) => query_refusal(columns@, rows@, *query) matches Some((code, message))
                && e@ == query_failure(code, message),
        },
{
    let mut f: usize = 0;
    proof {
        assert(query.filters@.skip(0) =~= query.filters@);
    }
    while f < query.filters.len()
        invariant
            f <= query.filters@.len(),
            filters_failure(columns@, query.filters@) == filters_failure(columns@, query.filters@.skip(f as int)),
        decreases query.filters@.len() - f,
    {
        let filter = &query.filters[f];
        proof {
            assert(query.filters@.skip(f as int)[0] == query.filters@[f as int]);
            assert(query.filters@.skip(f as int).drop_first() =~= query.filters@.skip(f + 1));
        }
        match find_column(columns, filter.field.as_str()) {
            None => {
                let message = quoted_message("unknown query field ", filter.field.as_str(), "");
                return Err(query_error("E-AUTHORING-QUERY-FIELD", message.as_str()));
            },
            Some(p) => {
                match validate_filter_input(&columns[p], filter) {
                    Ok(()) => {},
                    Err(e) => {
                        return Err(e);
                    },
                }
            },
        }
        f = f + 1;
    }
    proof {
        assert(query.filters@.skip(f as int).len() == 0);
    }
    let search = chars_of(query.search.as_str());
    let mut result: Vec<usize> = Vec::new();
    let mut r: usize = 0;
    while r < rows.len()
        invariant
            r <= rows@.len(),
            search@ == query.search@,
            filters_failure(columns@, query.filters@) is None,
            forall|i: int| 0 <= i < r ==> #[trigger] rows@[i].values@.len() == columns@.len(),
            result@ == selected_positions(columns@, rows@, *query, r as int),
        decreases rows@.len() - r,
    {
        let row = &rows[r];
        if row.values.len() != columns.len() {
            return Err(query_error("E-AUTHORING-QUERY-ROW-SHAPE", "query row does not have the same number of values as the schema"));
        }
        let searched = search.len() == 0 || row_search_hit(columns, &row.values, &search);
        if searched && row_filters_keep(columns, &row.values, &query.filters) {
            result.push(r);
        }
        r = r + 1;
    }
    proof {
        lemma_selected_positions(columns@, rows@, *query, rows@.len() as int);
    }
    match &query.sort {
        None => Ok(result),
        Some(sort) => {
            let p = match find_column(columns, sort.field.as_str()) {
                Some(p) => p,
                None => {
                    let message = quoted_message("unknown sort field ", sort.field.as_str(), "");
                    return Err(query_error("E-AUTHORING-QUERY-FIELD", message.as_str()));
                },
            };
            if !is_sort_capable(&columns[p]) {
                let message = quoted_message("field ", sort.field.as_str(), " is outside v1 sort capability");
                return Err(query_error("E-AUTHORING-QUERY-SORT-UNSUPPORTED", message.as_str()));
            }
            let sorted = sort_positions(&columns[p], p, rows, sort.direction, &result);
            Ok(sorted)
        },
    }
}


/// The rows that a query selects come each once, in source order, and each
/// is a row of the input; without a sort this is the query's result.
pub proof fn law_selected_rows_keep_source_order(columns: Seq<ResolvedAuthoringField>, rows: Seq<QueryRow>, query: AuthoringQuery)
    requires
        rows.len() <= usize::MAX,
    ensures
        forall|k: int| 0 <= k < selected_positions(columns, rows, query, rows.len() as int).len()
            ==> #[trigger] selected_positions(columns, rows, query, rows.len() as int)[k] < rows.len(),
        forall|i: int, j: int| 0 <= i < j < selected_positions(columns, rows, query, rows.len() as int).len()
            ==> selected_positions(columns, rows, query, rows.len() as int)[i] < selected_positions(columns, rows, query, rows.len() as int)[j],
{
    lemma_selected_positions(columns, rows, query, rows.len() as int);
}

/// A row is kept exactly when the search text, if any, hits one of its
/// cells and every filter keeps it: the search is an OR over the columns,
/// the filters an AND.
pub proof fn law_selection_is_search_or_and_filters(columns: Seq<ResolvedAuthoringField>, rows: Seq<QueryRow>, query: AuthoringQuery, n: int, p: usize)
    requires
        0 <= n <= rows.len(),
        n <= usize::MAX,
    ensures
        selected_positions(columns, rows, query, n).contains(p) <==> (p < n && row_selected(columns, rows[p as int], query)),
    decreases n,
{
    if n > 0 {
        law_selection_is_search_or_and_filters(columns, rows, query, n - 1, p);
        let earlier = selected_positions(columns, rows, query, n - 1);
        let x = (n - 1) as usize;
        if row_selected(columns, rows[n - 1], query) {
            let later = earlier.push(x);
            if later.contains(p) {
                let k = choose|k: int| 0 <= k < later.len() && later[k] == p;
                if k < earlier.len() {
                    assert(earlier[k] == p);
                }
            }
            if earlier.contains(p) {
                let k = choose|k: int| 0 <= k < earlier.len() && earlier[k] == p;
                assert(later[k] == p);
            }
            if p == x {
                assert(later[earlier.len() as int] == p);
            }
        }
    }
}

/// In a sorted result, in either direction, valid cells come before nulls
/// and nulls before invalid cells; nulls, and likewise invalid cells, keep
/// their source order.
pub proof fn law_sort_groups_valid_null_invalid(
    shape: ResolvedAuthoringField,
    index: int,
    rows: Seq<QueryRow>,
    direction: SortDirection,
    out: Seq<usize>,
    i: int,
    j: int,
)
    requires
        rows_sorted(shape, index, rows, direction, out),
        0 <= i < j < out.len(),
    ensures
        state_rank(value_state(shape, rows[out[i] as int].values@[index]))
            <= state_rank(value_state(shape, rows[out[j] as int].values@[index])),
        value_state(shape, rows[out[i] as int].values@[index]) == value_state(shape, rows[out[j] as int].values@[index])
            && value_state(shape, rows[out[i] as int].values@[index]) != ValueState::Valid ==> out[i] < out[j],
{
    assert(row_before(shape, index, rows, direction, out[i], out[j]));
}

/// The direction orders valid cells only: ascending never puts a greater
/// valid value first, descending never a smaller one.
pub proof fn law_sort_direction_orders_valid_values(
    shape: ResolvedAuthoringField,
    index: int,
    rows: Seq<QueryRow>,
    direction: SortDirection,
    out: Seq<usize>,
    i: int,
    j: int,
)
    requires
        rows_sorted(shape, index, rows, direction, out),
        0 <= i < j < out.len(),
        value_state(shape, rows[out[i] as int].values@[index]) == ValueState::Valid,
        value_state(shape, rows[out[j] as int].values@[index]) == ValueState::Valid,
    ensures
        direction is Ascending ==> valid_comparison(shape, rows[out[i] as int].values@[index], rows[out[j] as int].values@[index]) != Some(Comparison::Greater),
        direction is Descending ==> valid_comparison(shape, rows[out[i] as int].values@[index], rows[out[j] as int].values@[index]) != Some(Comparison::Less),
{
    assert(row_before(shape, index, rows, direction, out[i], out[j]));
}

/// The answer of a query that is not refused holds each selected row once
/// and nothing else: every position is a row of the input, and a row is
/// present exactly when the search text, if any, hits one of its cells and
/// every filter keeps it. Without a sort the positions ascend.
pub proof fn law_query_answer_holds_each_selected_row_once(
    columns: Seq<ResolvedAuthoringField>,
    rows: Seq<QueryRow>,
    query: AuthoringQuery,
    out: Seq<usize>,
)
    requires
        rows.len() <= usize::MAX,
        query_answer(columns, rows, query, out),
    ensures
        forall|p: usize| out.contains(p) <==> (p < rows.len() && row_selected(columns, rows[p as int], query)),
        forall|k: int| 0 <= k < out.len() ==> #[trigger] out[k] < rows.len(),
        forall|i: int, j: int| 0 <= i < j < out.len() ==> out[i] != out[j],
        query.sort is None ==> forall|i: int, j: int| 0 <= i < j < out.len() ==> out[i] < out[j],
{
    let n = rows.len() as int;
    let selected = selected_positions(columns, rows, query, n);
    law_selected_rows_keep_source_order(columns, rows, query);
    assert forall|p: usize| out.contains(p) <==> (p < rows.len() && row_selected(columns, rows[p as int], query)) by {
        law_selection_is_search_or_and_filters(columns, rows, query, n, p);
    }
    assert forall|k: int| 0 <= k < out.len() implies #[trigger] out[k] < rows.len() by {
        assert(out.contains(out[k]));
    }
    match query.sort {
        None => {},
        Some(sort) => {
            let position = column_position(columns, sort.field@);
            let shape = columns[position];
            assert forall|i: int, j: int| 0 <= i < j < out.len() implies out[i] != out[j] by {
                assert(row_before(shape, position, rows, sort.direction, out[i], out[j]));
                let v = rows[out[i] as int].values@[position];
                lemma_directed_order_preorder(shape, sort.direction, v, v, v);
            }
        },
    }
}

/// The free-text search sees the literal text of a valid scalar cell: a
/// valid number's text as written, a valid string's text, a valid bool's
/// `true` or `false`; it sees nothing in a null, invalid or collection
/// cell.
pub proof fn law_search_sees_valid_scalar_text(shape: ResolvedAuthoringField, value: AuthoringValue)
    ensures
        value_state(shape, value) == ValueState::Valid && value is Number
            ==> searchable_text(shape, value) == Some(value->Number_value@),
        value_state(shape, value) == ValueState::Valid && value is String
            ==> searchable_text(shape, value) == Some(value->String_value@),
        value_state(shape, value) == ValueState::Valid && value is Bool
            ==> searchable_text(shape, value) == Some(if value->Bool_value { "true"@ } else { "false"@ }),
        value_state(shape, value) != ValueState::Valid ==> searchable_text(shape, value) is None,
{
}

/// A query that is not refused and has no filters answers every row that
/// has a valid number cell whose text contains the search: searching `42`
/// finds the row whose `id` is 42.
pub proof fn law_search_finds_number_cells(
    columns: Seq<ResolvedAuthoringField>,
    rows: Seq<QueryRow>,
    query: AuthoringQuery,
    out: Seq<usize>,
    p: usize,
    c: int,
)
    requires
        rows.len() <= usize::MAX,
        query_answer(columns, rows, query, out),
        query.filters@.len() == 0,
        p < rows.len(),
        0 <= c < columns.len(),
        rows[p as int].values@[c] is Number,
        value_state(columns[c], rows[p as int].values@[c]) == ValueState::Valid,
        contains_text(rows[p as int].values@[c]->Number_value@, query.search@),
    ensures
        out.contains(p),
{
    law_query_answer_holds_each_selected_row_once(columns, rows, query, out);
    let row = rows[p as int];
    law_search_sees_valid_scalar_text(columns[c], row.values@[c]);
    assert(cell_hit(columns[c], row.values@[c], query.search@));
    assert(row_selected(columns, row, query));
}

} // verus!
