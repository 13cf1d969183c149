//! The project-level pass over view documents: views in path order, each
//! name declared once, and the resolved views and diagnostics in a stable
//! report order.

use vstd::multiset::Multiset;
use vstd::prelude::*;

use crate::authoring_query::{int_order, Comparison};
use crate::computed_view::{enums_view, fields_view, quoted_message, ExpressionType, ScalarType};
use crate::document::{table_schemas, LoadedDocument, ProjectDocuments};
use crate::error::{Diagnostic, DiagnosticView, ErrorKind};
use crate::numeric::{parse_u128, u128_text_value};
use crate::text::{chars_of, str_eq, string_from_range};
use crate::text_order::{lemma_text_cmp_properties, text_cmp, text_compare};
use crate::view_evaluation::{ComputedViewBuild, ResolvedComputedView};
use crate::view_resolution::{
    ambiguous_target, check_view_header, column_failures, header_outcome, no_columns, resolve_view_body, resolves_column,
    resolving_columns, two_part_message, unknown_target, view_diagnostic, view_failure, view_target_schema, ViewDocument,
};

verus! {

/// `first`, unless it is `Equal`; then `second`.
pub open spec fn then_order(first: Comparison, second: Comparison) -> Comparison {
    if first == Comparison::Equal { second } else { first }
}

/// Absent before present; present values by `text_cmp`.
pub open spec fn option_text_order(a: Option<Seq<char>>, b: Option<Seq<char>>) -> Comparison {
    match (a, b) {
        (None, None) => Comparison::Equal,
        (None, Some(_)) => Comparison::Less,
        (Some(_), None) => Comparison::Greater,
        (Some(x), Some(y)) => text_cmp(x, y),
    }
}

/// Absent before present; present values by number.
pub open spec fn option_int_order(a: Option<int>, b: Option<int>) -> Comparison {
    match (a, b) {
        (None, None) => Comparison::Equal,
        (None, Some(_)) => Comparison::Less,
        (Some(_), None) => Comparison::Greater,
        (Some(x), Some(y)) => int_order(x, y),
    }
}

/// An optional position as an optional number.
pub open spec fn usize_option(value: Option<usize>) -> Option<int> {
    match value {
        Some(v) => Some(v as int),
        None => None,
    }
}

/// The column index of a schema path `columns[N]`.
pub open spec fn column_index(path: Seq<char>) -> Option<int> {
    if path.len() >= 9 && path.take(8) == "columns["@ && path.last() == ']' {
        match u128_text_value(path.subrange(8, path.len() - 1)) {
            Some(v) => if v <= usize::MAX { Some(v) } else { None },
            None => None,
        }
    } else {
        None
    }
}

/// The sort key of a schema path: its column index, if it is a column
/// path, and its text (empty when absent).
pub open spec fn path_key(path: Option<Seq<char>>) -> (Option<int>, Seq<char>) {
    match path {
        Some(p) => (column_index(p), p),
        None => (None, Seq::empty()),
    }
}

/// Schema paths: by column index (none first), then by text.
pub open spec fn schema_path_order(a: Option<Seq<char>>, b: Option<Seq<char>>) -> Comparison {
    then_order(option_int_order(path_key(a).0, path_key(b).0), text_cmp(path_key(a).1, path_key(b).1))
}

/// The report order of diagnostics: by source, schema path, line, column
/// and code.
pub open spec fn diagnostic_order(a: DiagnosticView, b: DiagnosticView) -> Comparison {
    then_order(option_text_order(a.source, b.source),
        then_order(schema_path_order(a.schema_path, b.schema_path),
            then_order(option_int_order(usize_option(a.line), usize_option(b.line)),
                then_order(option_int_order(usize_option(a.column), usize_option(b.column)),
                    text_cmp(a.code, b.code)))))
}

/// The order of resolved views: by table, name and source.
pub open spec fn view_order(a: ResolvedComputedView, b: ResolvedComputedView) -> Comparison {
    then_order(text_cmp(a.table@, b.table@), then_order(text_cmp(a.name@, b.name@), text_cmp(a.source@, b.source@)))
}

/// The report key of a diagnostic; `diagnostic_order` compares diagnostics
/// by it.
pub open spec fn diagnostic_key(d: DiagnosticView) -> (Option<Seq<char>>, (Option<int>, Seq<char>), Option<int>, Option<int>, Seq<char>) {
    (d.source, path_key(d.schema_path), usize_option(d.line), usize_option(d.column), d.code)
}

proof fn lemma_option_text_order(a: Option<Seq<char>>, b: Option<Seq<char>>, c: Option<Seq<char>>)
    ensures
        option_text_order(a, b) == Comparison::Less <==> option_text_order(b, a) == Comparison::Greater,
        option_text_order(a, b) == Comparison::Equal <==> a == b,
        option_text_order(a, b) == Comparison::Less && option_text_order(b, c) == Comparison::Less
            ==> option_text_order(a, c) == Comparison::Less,
{
    if a is Some && b is Some {
        lemma_text_cmp_properties(a->0, b->0, a->0);
        if c is Some {
            lemma_text_cmp_properties(a->0, b->0, c->0);
        }
    }
}

proof fn lemma_option_int_order(a: Option<int>, b: Option<int>, c: Option<int>)
    ensures
        option_int_order(a, b) == Comparison::Less <==> option_int_order(b, a) == Comparison::Greater,
        option_int_order(a, b) == Comparison::Equal <==> a == b,
        option_int_order(a, b) == Comparison::Less && option_int_order(b, c) == Comparison::Less
            ==> option_int_order(a, c) == Comparison::Less,
{
}

/// `diagnostic_order` is a total preorder whose ties are equal keys.
pub proof fn lemma_diagnostic_order(a: DiagnosticView, b: DiagnosticView, c: DiagnosticView)
    ensures
        diagnostic_order(a, b) == Comparison::Less <==> diagnostic_order(b, a) == Comparison::Greater,
        diagnostic_order(a, b) == Comparison::Equal <==> diagnostic_key(a) == diagnostic_key(b),
        diagnostic_order(a, b) != Comparison::Greater && diagnostic_order(b, c) != Comparison::Greater
            ==> diagnostic_order(a, c) != Comparison::Greater,
        diagnostic_order(a, b) == Comparison::Less && diagnostic_order(b, c) != Comparison::Greater
            ==> diagnostic_order(a, c) == Comparison::Less,
{
    let (ka, kb, kc) = (diagnostic_key(a), diagnostic_key(b), diagnostic_key(c));
    lemma_option_text_order(ka.0, kb.0, kc.0);
    lemma_option_text_order(kb.0, ka.0, kc.0);
    lemma_option_text_order(ka.0, kc.0, kb.0);
    lemma_option_int_order(ka.1.0, kb.1.0, kc.1.0);
    lemma_option_int_order(kb.1.0, ka.1.0, kc.1.0);
    lemma_text_cmp_properties(ka.1.1, kb.1.1, kc.1.1);
    lemma_text_cmp_properties(kb.1.1, ka.1.1, kc.1.1);
    lemma_option_int_order(ka.2, kb.2, kc.2);
    lemma_option_int_order(kb.2, ka.2, kc.2);
    lemma_option_int_order(ka.3, kb.3, kc.3);
    lemma_option_int_order(kb.3, ka.3, kc.3);
    lemma_text_cmp_properties(ka.4, kb.4, kc.4);
    lemma_text_cmp_properties(kb.4, ka.4, kc.4);
    lemma_text_cmp_properties(ka.4, kc.4, kb.4);
}

/// `view_order` is a total preorder whose ties are equal keys.
pub proof fn lemma_view_order(a: ResolvedComputedView, b: ResolvedComputedView, c: ResolvedComputedView)
    ensures
        view_order(a, b) == Comparison::Less <==> view_order(b, a) == Comparison::Greater,
        view_order(a, b) != Comparison::Greater && view_order(b, c) != Comparison::Greater
            ==> view_order(a, c) != Comparison::Greater,
        view_order(a, b) == Comparison::Less && view_order(b, c) != Comparison::Greater
            ==> view_order(a, c) == Comparison::Less,
{
    lemma_text_cmp_properties(a.table@, b.table@, c.table@);
    lemma_text_cmp_properties(b.table@, a.table@, c.table@);
    lemma_text_cmp_properties(a.name@, b.name@, c.name@);
    lemma_text_cmp_properties(b.name@, a.name@, c.name@);
    lemma_text_cmp_properties(a.source@, b.source@, c.source@);
    lemma_text_cmp_properties(b.source@, a.source@, c.source@);
    lemma_text_cmp_properties(a.source@, c.source@, b.source@);
}

fn column_index_of(path: &str) -> (index: Option<usize>)
    ensures
        match column_index(path@) {
            Some(i) => index matches Some(j) && j as int == i,
            None => index is None,
        },
{
    let chars = chars_of(path);
    let n = chars.len();
    if n < 9 || chars[n - 1] != ']' {
        return None;
    }
    let prefix = string_from_range(chars.as_slice(), 0, 8);
    if !str_eq(prefix.as_str(), "columns[") {
        proof {
            assert(chars@.subrange(0, 8) =~= path@.take(8));
        }
        return None;
    }
    proof {
        assert(chars@.subrange(0, 8) =~= path@.take(8));
    }
    let mut digits: Vec<char> = Vec::new();
    let mut i: usize = 8;
    while i < n - 1
        invariant
            8 <= i <= n - 1,
            n == chars@.len(),
            digits@ == chars@.subrange(8, i as int),
        decreases n - 1 - i,
    {
        digits.push(chars[i]);
        proof {
            assert(chars@.subrange(8, i + 1) =~= chars@.subrange(8, i as int).push(chars@[i as int]));
        }
        i = i + 1;
    }
    match parse_u128(digits.as_slice()) {
        Some(v) => {
            if v <= usize::MAX as u128 {
                Some(v as usize)
            } else {
                None
            }
        },
        None => None,
    }
}

fn option_text_compare(a: &Option<String>, b: &Option<String>) -> (order: Comparison)
    ensures
        order == option_text_order(match a { Some(x) => Some(x@), None => None }, match b { Some(x) => Some(x@), None => None }),
{
    match (a, b) {
        (None, None) => Comparison::Equal,
        (None, Some(_)) => Comparison::Less,
        (Some(_), None) => Comparison::Greater,
        (Some(x), Some(y)) => text_compare(x.as_str(), y.as_str()),
    }
}

fn option_usize_compare(a: Option<usize>, b: Option<usize>) -> (order: Comparison)
    ensures
        order == option_int_order(usize_option(a), usize_option(b)),
{
    match (a, b) {
        (None, None) => Comparison::Equal,
        (None, Some(_)) => Comparison::Less,
        (Some(_), None) => Comparison::Greater,
        (Some(x), Some(y)) => if x < y {
            Comparison::Less
        } else if x == y {
            Comparison::Equal
        } else {
            Comparison::Greater
        },
    }
}

fn schema_path_compare(a: &Option<String>, b: &Option<String>) -> (order: Comparison)
    ensures
        order == schema_path_order(match a { Some(x) => Some(x@), None => None }, match b { Some(x) => Some(x@), None => None }),
{
    let ia = match a { Some(p) => column_index_of(p.as_str()), None => None };
    let ib = match b { Some(p) => column_index_of(p.as_str()), None => None };
    let ghost av = match a { Some(x) => Some(x@), None => None::<Seq<char>> };
    let ghost bv = match b { Some(x) => Some(x@), None => None::<Seq<char>> };
    proof {
        assert(usize_option(ia) == path_key(av).0);
        assert(usize_option(ib) == path_key(bv).0);
    }
    let first = option_usize_compare(ia, ib);
    if first != Comparison::Equal {
        return first;
    }
    match (a, b) {
        (Some(x), Some(y)) => text_compare(x.as_str(), y.as_str()),
        (Some(x), None) => {
            let empty = String::new();
            text_compare(x.as_str(), empty.as_str())
        },
        (None, Some(y)) => {
            let empty = String::new();
            text_compare(empty.as_str(), y.as_str())
        },
        (None, None) => Comparison::Equal,
    }
}

/// The report order of two diagnostics.
pub fn compare_diagnostics(a: &Diagnostic, b: &Diagnostic) -> (order: Comparison)
    ensures
        order == diagnostic_order(a@, b@),
{
    let source = option_text_compare(&a.source, &b.source);
    if source != Comparison::Equal {
        return source;
    }
    let path = schema_path_compare(&a.schema_path, &b.schema_path);
    if path != Comparison::Equal {
        return path;
    }
    let line = option_usize_compare(a.line, b.line);
    if line != Comparison::Equal {
        return line;
    }
    let column = option_usize_compare(a.column, b.column);
    if column != Comparison::Equal {
        return column;
    }
    text_compare(a.code.as_str(), b.code.as_str())
}

/// The report order of two resolved views.
pub fn compare_views(a: &ResolvedComputedView, b: &ResolvedComputedView) -> (order: Comparison)
    ensures
        order == view_order(*a, *b),
{
    let table = text_compare(a.table.as_str(), b.table.as_str());
    if table != Comparison::Equal {
        return table;
    }
    let name = text_compare(a.name.as_str(), b.name.as_str());
    if name != Comparison::Equal {
        return name;
    }
    text_compare(a.source.as_str(), b.source.as_str())
}

/// The diagnostics stand in report order.
pub open spec fn diagnostics_ordered(ds: Seq<DiagnosticView>) -> bool {
    forall|a: int, b: int| 0 <= a < b < ds.len() ==> diagnostic_order(ds[a], ds[b]) != Comparison::Greater
}

/// The resolved views stand in report order.
pub open spec fn views_ordered(vs: Seq<ResolvedComputedView>) -> bool {
    forall|a: int, b: int| 0 <= a < b < vs.len() ==> view_order(vs[a], vs[b]) != Comparison::Greater
}

/// Puts `d` after every diagnostic that does not come after it.
fn insert_diagnostic(out: &mut Vec<Diagnostic>, d: Diagnostic)
    requires
        diagnostics_ordered(old(out)@.map_values(|x: Diagnostic| x@)),
    ensures
        diagnostics_ordered(final(out)@.map_values(|x: Diagnostic| x@)),
        final(out)@.map_values(|x: Diagnostic| x@).to_multiset() == old(out)@.map_values(|x: Diagnostic| x@).to_multiset().insert(d@),
{
    let ghost before = out@.map_values(|x: Diagnostic| x@);
    let mut k: usize = 0;
    while k < out.len() && compare_diagnostics(&d, &out[k]) != Comparison::Less
        invariant
            k <= out@.len(),
            before == out@.map_values(|x: Diagnostic| x@),
            forall|a: int| 0 <= a < k ==> diagnostic_order(d@, before[a]) != Comparison::Less,
        decreases out@.len() - k,
    {
        k = k + 1;
    }
    let ghost old_out = out@;
    out.insert(k, d);
    proof {
        let after = out@.map_values(|x: Diagnostic| x@);
        assert(after =~= before.insert(k as int, d@));
        vstd::seq_lib::to_multiset_insert(before, k as int, d@);
        assert forall|a: int, b: int| 0 <= a < b < after.len() implies diagnostic_order(after[a], after[b]) != Comparison::Greater by {
            if a < k && b == k {
                lemma_diagnostic_order(before[a], d@, d@);
                lemma_diagnostic_order(d@, before[a], d@);
            } else if a == k && b > k {
                assert(k < before.len());
                lemma_diagnostic_order(d@, before[k as int], before[b - 1]);
                if b - 1 > k {
                    assert(diagnostic_order(before[k as int], before[b - 1]) != Comparison::Greater);
                }
            } else if a < k && b > k {
                assert(diagnostic_order(before[a], before[b - 1]) != Comparison::Greater);
            } else if a > k {
                assert(diagnostic_order(before[a - 1], before[b - 1]) != Comparison::Greater);
            } else {
                assert(diagnostic_order(before[a], before[b]) != Comparison::Greater);
            }
        }
    }
}

/// Puts `v` after every view that does not come after it.
fn insert_view(out: &mut Vec<ResolvedComputedView>, v: ResolvedComputedView)
    requires
        views_ordered(old(out)@),
    ensures
        views_ordered(final(out)@),
        exists|k: int| 0 <= k <= old(out)@.len() && final(out)@ == old(out)@.insert(k, v),
{
    let ghost before = out@;
    let mut k: usize = 0;
    while k < out.len() && compare_views(&v, &out[k]) != Comparison::Less
        invariant
            k <= out@.len(),
            before == out@,
            forall|a: int| 0 <= a < k ==> view_order(v, before[a]) != Comparison::Less,
        decreases out@.len() - k,
    {
        k = k + 1;
    }
    let ghost added = v;
    out.insert(k, v);
    proof {
        let after = out@;
        assert(after =~= before.insert(k as int, added));
        assert forall|a: int, b: int| 0 <= a < b < after.len() implies view_order(after[a], after[b]) != Comparison::Greater by {
            if a < k && b == k {
                lemma_view_order(before[a], added, added);
                lemma_view_order(added, before[a], added);
            } else if a == k && b > k {
                lemma_view_order(added, before[k as int], before[b - 1]);
                if b - 1 > k {
                    assert(view_order(before[k as int], before[b - 1]) != Comparison::Greater);
                }
            } else if a < k && b > k {
                assert(view_order(before[a], before[b - 1]) != Comparison::Greater);
            } else if a > k {
                assert(view_order(before[a - 1], before[b - 1]) != Comparison::Greater);
            } else {
                assert(view_order(before[a], before[b]) != Comparison::Greater);
            }
        }
    }
}

/// The path of the view document at `position`.
pub open spec fn path_of(views: Seq<(String, ViewDocument)>, position: usize) -> Seq<char> {
    views[position as int].0@
}

/// Whether the document at `x` comes strictly before the one at `y` in path order.
pub open spec fn path_lt(views: Seq<(String, ViewDocument)>, x: usize, y: usize) -> bool {
    text_cmp(path_of(views, x), path_of(views, y)) == Comparison::Less
}

proof fn lemma_path_order(views: Seq<(String, ViewDocument)>, x: usize, y: usize, z: usize)
    ensures
        path_lt(views, x, y) && path_lt(views, y, z) ==> path_lt(views, x, z),
{
    lemma_text_cmp_properties(path_of(views, x), path_of(views, y), path_of(views, z));
}

proof fn lemma_path_irreflexive(views: Seq<(String, ViewDocument)>, x: usize)
    ensures
        !path_lt(views, x, x),
{
    lemma_text_cmp_properties(path_of(views, x), path_of(views, x), path_of(views, x));
}

/// The positions of the view documents ordered by path; equal paths keep
/// their given order.
pub open spec fn path_ordered(views: Seq<(String, ViewDocument)>, order: Seq<usize>) -> bool {
    &&& order.len() == views.len()
    &&& forall|a: int| 0 <= a < order.len() ==> #[trigger] order[a] < views.len()
    &&& forall|a: int, b: int| 0 <= a < b < order.len() ==> order[a] != order[b]
    &&& forall|a: int, b: int| 0 <= a < b < order.len() ==> !path_lt(views, order[b], order[a])
    &&& forall|a: int, b: int| 0 <= a < b < order.len() && path_of(views, order[a]) == path_of(views, order[b])
        ==> order[a] < order[b]
}

fn path_less(views: &Vec<(String, ViewDocument)>, x: usize, y: usize) -> (less: bool)
    requires
        x < views@.len(),
        y < views@.len(),
    ensures
        less == path_lt(views@, x, y),
{
    text_compare(views[x].0.as_str(), views[y].0.as_str()) == Comparison::Less
}

fn path_order(views: &Vec<(String, ViewDocument)>) -> (order: Vec<usize>)
    ensures
        path_ordered(views@, order@),
{
    let mut order: Vec<usize> = Vec::new();
    let mut i: usize = 0;
    while i < views.len()
        invariant
            i <= views@.len(),
            order@.len() == i,
            forall|a: int| 0 <= a < order@.len() ==> #[trigger] order@[a] < i,
            forall|a: int, b: int| 0 <= a < b < order@.len() ==> order@[a] != order@[b],
            forall|a: int, b: int| 0 <= a < b < order@.len() ==> !path_lt(views@, order@[b], order@[a]),
            forall|a: int, b: int| 0 <= a < b < order@.len() && path_of(views@, order@[a]) == path_of(views@, order@[b])
                ==> order@[a] < order@[b],
        decreases views@.len() - i,
    {
        let mut k: usize = 0;
        while k < order.len() && !path_less(views, i, order[k])
            invariant
                k <= order@.len(),
                i < views@.len(),
                forall|a: int| 0 <= a < order@.len() ==> #[trigger] order@[a] < i,
                forall|a: int| 0 <= a < k ==> !path_lt(views@, i, order@[a]),
            decreases order@.len() - k,
        {
            k = k + 1;
        }
        let ghost before = order@;
        order.insert(k, i);
        proof {
            assert(order@ =~= before.insert(k as int, i));
            assert forall|a: int, b: int| 0 <= a < b < order@.len() implies !path_lt(views@, order@[b], order@[a]) by {
                if a < k && b == k {
                } else if a == k && b > k {
                    if b - 1 > k {
                        lemma_path_order(views@, before[b - 1], before[k as int], i);
                    }
                    lemma_path_order(views@, before[b - 1], i, before[k as int]);
                    if path_lt(views@, before[b - 1], i) {
                        assert(path_lt(views@, i, before[k as int]));
                        if b - 1 > k {
                            assert(!path_lt(views@, before[b - 1], before[k as int]));
                        }
                    }
                } else if a < k && b > k {
                    assert(!path_lt(views@, before[b - 1], before[a]));
                } else if a > k {
                    assert(!path_lt(views@, before[b - 1], before[a - 1]));
                } else {
                    assert(!path_lt(views@, before[b], before[a]));
                }
            }
            assert forall|a: int, b: int| 0 <= a < b < order@.len() && path_of(views@, order@[a]) == path_of(views@, order@[b])
                implies order@[a] < order@[b] by {
                if a == k && b > k {
                    lemma_path_irreflexive(views@, before[k as int]);
                    if b - 1 > k {
                        assert(!path_lt(views@, before[b - 1], before[k as int]));
                    }
                } else if a == k || b == k {
                } else if a > k {
                    assert(before[a - 1] < before[b - 1]);
                } else if b > k {
                    assert(before[a] < before[b - 1]);
                } else {
                    assert(before[a] < before[b]);
                }
            }
            assert forall|a: int, b: int| 0 <= a < b < order@.len() implies order@[a] != order@[b] by {
                if a == k || b == k {
                } else if a > k {
                    assert(before[a - 1] != before[b - 1]);
                } else if b > k {
                    assert(before[a] != before[b - 1]);
                } else {
                    assert(before[a] != before[b]);
                }
            }
        }
        i = i + 1;
    }
    order
}

/// The field types given for `table`: the first entry for it, else none.
pub open spec fn table_field_types(
    entries: Seq<(String, Vec<(String, Option<ExpressionType>)>)>,
    table: Seq<char>,
) -> Seq<(String, Option<ExpressionType>)>
    decreases entries.len(),
{
    if entries.len() == 0 {
        Seq::empty()
    } else if entries[0].0@ == table {
        entries[0].1@
    } else {
        table_field_types(entries.drop_first(), table)
    }
}

fn find_table_fields<'a>(entries: &'a Vec<(String, Vec<(String, Option<ExpressionType>)>)>, table: &str)
    -> (found: Option<&'a Vec<(String, Option<ExpressionType>)>>)
    ensures
        match found {
            Some(f) => f@ == table_field_types(entries@, table@),
            None => table_field_types(entries@, table@).len() == 0,
        },
{
    let mut i: usize = 0;
    proof {
        assert(entries@.skip(0) =~= entries@);
    }
    while i < entries.len()
        invariant
            i <= entries@.len(),
            table_field_types(entries@, table@) == table_field_types(entries@.skip(i as int), table@),
        decreases entries@.len() - i,
    {
        proof {
            assert(entries@.skip(i as int).drop_first() =~= entries@.skip(i + 1));
        }
        if str_eq(entries[i].0.as_str(), table) {
            return Some(&entries[i].1);
        }
        i = i + 1;
    }
    None
}

/// `view` is what the view document `entry` declares: the document is of
/// kind `view`, has columns and every one of them resolves against its
/// table's field types, and the view holds its name, table, source and the
/// resolved columns in order.
pub open spec fn declares(
    view: ResolvedComputedView,
    entry: (String, ViewDocument),
    table_fields: Seq<(String, Vec<(String, Option<ExpressionType>)>)>,
    enums: Seq<(String, ScalarType)>,
) -> bool {
    let document = entry.1;
    let f = fields_view(table_field_types(table_fields, document.table@));
    let e = enums_view(enums);
    let n = document.columns@.len() as int;
    &&& document.kind@ == "view"@
    &&& view.source@ == entry.0@
    &&& view.name@ == document.name@
    &&& view.table@ == document.table@
    &&& n > 0
    &&& column_failures(document.columns@, n, f, e, entry.0@).len() == 0
    &&& view.columns@.len() == n
    &&& forall|k: int| 0 <= k < n ==> resolves_column(#[trigger] view.columns@[k],
        document.columns@[resolving_columns(document.columns@, n, f, e, entry.0@)[k]], f, e)
}

fn find_name(names: &Vec<(String, String)>, name: &str) -> (found: Option<usize>)
    ensures
        match first_named(names_view(names@), name@) {
            Some(k) => found matches Some(j) && j as int == k && j < names@.len(),
            None => found is None,
        },
        found is None ==> forall|j: int| 0 <= j < names@.len() ==> (#[trigger] names_view(names@)[j]).0 != name@,
{
    let ghost v = names_view(names@);
    let mut k: usize = 0;
    while k < names.len()
        invariant
            k <= names@.len(),
            v == names_view(names@),
            forall|j: int| 0 <= j < k ==> (#[trigger] v[j]).0 != name@,
        decreases names@.len() - k,
    {
        if str_eq(names[k].0.as_str(), name) {
            proof {
                assert(v[k as int].0 == name@);
                let c = choose|c: int| 0 <= c < v.len() && (#[trigger] v[c]).0 == name@
                    && forall|j: int| 0 <= j < c ==> (#[trigger] v[j]).0 != name@;
                if c < k {
                    assert(v[c].0 != name@);
                }
                if c > k {
                    assert(v[k as int].0 != name@);
                }
            }
            return Some(k);
        }
        k = k + 1;
    }
    None
}

/// Puts each of `more` into its place in the report order.
fn insert_diagnostics(out: &mut Vec<Diagnostic>, more: Vec<Diagnostic>)
    requires
        diagnostics_ordered(old(out)@.map_values(|x: Diagnostic| x@)),
    ensures
        diagnostics_ordered(final(out)@.map_values(|x: Diagnostic| x@)),
        final(out)@.map_values(|x: Diagnostic| x@).to_multiset()
            == old(out)@.map_values(|x: Diagnostic| x@).to_multiset().add(more@.map_values(|x: Diagnostic| x@).to_multiset()),
{
    let ghost start = out@.map_values(|x: Diagnostic| x@).to_multiset();
    let ghost all = more@.map_values(|x: Diagnostic| x@);
    let mut rest = more;
    let total = rest.len();
    let mut i: usize = 0;
    proof {
        assert(all.take(0) =~= Seq::<DiagnosticView>::empty());
        assert(all.take(0).to_multiset() =~= Multiset::<DiagnosticView>::empty()) by {
            broadcast use vstd::seq_lib::group_to_multiset_ensures;
        }
        assert(more@.skip(0) =~= more@);
    }
    while rest.len() > 0
        invariant
            i <= all.len(),
            i + rest@.len() == total,
            total == more@.len(),
            all.len() == more@.len(),
            rest@ == more@.skip(i as int),
            all == more@.map_values(|x: Diagnostic| x@),
            diagnostics_ordered(out@.map_values(|x: Diagnostic| x@)),
            out@.map_values(|x: Diagnostic| x@).to_multiset() == start.add(all.take(i as int).to_multiset()),
        decreases rest@.len(),
    {
        let d = rest.remove(0);
        proof {
            assert(d == more@[i as int]);
            assert(rest@ =~= more@.skip(i + 1));
            assert(all.take(i + 1) =~= all.take(i as int).push(d@));
            vstd::seq_lib::to_multiset_build(all.take(i as int), d@);
        }
        insert_diagnostic(out, d);
        proof {
            assert(start.add(all.take(i as int).to_multiset()).insert(d@) =~= start.add(all.take(i + 1).to_multiset()));
        }
        i = i + 1;
    }
    proof {
        assert(all.take(i as int) =~= all);
    }
}

/// The names declared so far and the path that last declared each.
pub open spec fn names_view(names: Seq<(String, String)>) -> Seq<(Seq<char>, Seq<char>)> {
    names.map_values(|n: (String, String)| (n.0@, n.1@))
}

/// The position of the first entry named `name`.
pub open spec fn first_named(names: Seq<(Seq<char>, Seq<char>)>, name: Seq<char>) -> Option<int> {
    if exists|k: int| 0 <= k < names.len() && (#[trigger] names[k]).0 == name
        && forall|j: int| 0 <= j < k ==> (#[trigger] names[j]).0 != name {
        Some(choose|k: int| 0 <= k < names.len() && (#[trigger] names[k]).0 == name
            && forall|j: int| 0 <= j < k ==> (#[trigger] names[j]).0 != name)
    } else {
        None
    }
}

/// The diagnostic of a view named like one declared before, at `previous`.
pub open spec fn duplicate_failure(path: Seq<char>, name: Seq<char>, previous: Seq<char>) -> DiagnosticView {
    DiagnosticView {
        suggestion: Some("give each project-local view a unique name"@),
        ..view_failure(path, "E-VIEW-DUPLICATE-NAME"@,
            "view `"@ + name + "` is declared more than once (also in "@ + previous + ")"@, "ADV-VIEW-002"@, Some("name"@))
    }
}

/// What one view document yields, given the names declared before it: the
/// names after it, its diagnostics in the order they are found, and
/// whether it becomes a view.
pub open spec fn view_step(
    names: Seq<(Seq<char>, Seq<char>)>,
    entry: (String, ViewDocument),
    files: Seq<LoadedDocument>,
    table_fields: Seq<(String, Vec<(String, Option<ExpressionType>)>)>,
    enums: Seq<(String, ScalarType)>,
) -> (Seq<(Seq<char>, Seq<char>)>, Seq<DiagnosticView>, bool) {
    let path = entry.0@;
    let view = entry.1;
    let (go_on, header) = header_outcome(path, view);
    if !go_on {
        (names, header, false)
    } else {
        match first_named(names, view.name@) {
            Some(k) => (names.update(k, (names[k].0, path)), header.push(duplicate_failure(path, view.name@, names[k].1)), false),
            None => {
                let declared = names.push((view.name@, path));
                let found = table_schemas(files, view.table@);
                if found.len() == 0 {
                    (declared, header.push(unknown_target(path, view)), false)
                } else if found.len() > 1 {
                    (declared, header.push(ambiguous_target(path, view)), false)
                } else if view.columns@.len() == 0 {
                    (declared, header.push(no_columns(path, view)), false)
                } else {
                    let failures = column_failures(view.columns@, view.columns@.len() as int,
                        fields_view(table_field_types(table_fields, view.table@)), enums_view(enums), path);
                    (declared, header + failures, failures.len() == 0)
                }
            },
        }
    }
}

/// The pass over the first `k` documents in `order`: the declared names,
/// the diagnostics in the order they are found, and the positions of the
/// documents that become views.
pub open spec fn view_pass(
    views: Seq<(String, ViewDocument)>,
    order: Seq<usize>,
    k: int,
    files: Seq<LoadedDocument>,
    table_fields: Seq<(String, Vec<(String, Option<ExpressionType>)>)>,
    enums: Seq<(String, ScalarType)>,
) -> (Seq<(Seq<char>, Seq<char>)>, Seq<DiagnosticView>, Seq<int>)
    decreases k,
{
    if k <= 0 {
        (Seq::empty(), Seq::empty(), Seq::empty())
    } else {
        let (names, diagnostics, accepted) = view_pass(views, order, k - 1, files, table_fields, enums);
        let position = order[k - 1] as int;
        let (after, found, becomes) = view_step(names, views[position], files, table_fields, enums);
        (after, diagnostics + found, if becomes { accepted.push(position) } else { accepted })
    }
}

/// `view` is declared by one of the accepted documents.
pub open spec fn declared_by_one_of(
    view: ResolvedComputedView,
    accepted: Seq<int>,
    views: Seq<(String, ViewDocument)>,
    table_fields: Seq<(String, Vec<(String, Option<ExpressionType>)>)>,
    enums: Seq<(String, ScalarType)>,
) -> bool {
    exists|k: int| 0 <= k < accepted.len() && #[trigger] declares(view, views[accepted[k]], table_fields, enums)
}

/// The document `entry` declares one of the resolved views.
pub open spec fn declared_in(
    resolved: Seq<ResolvedComputedView>,
    entry: (String, ViewDocument),
    table_fields: Seq<(String, Vec<(String, Option<ExpressionType>)>)>,
    enums: Seq<(String, ScalarType)>,
) -> bool {
    exists|a: int| 0 <= a < resolved.len() && #[trigger] declares(resolved[a], entry, table_fields, enums)
}

/// The resolved views are exactly one per accepted document, each
/// declared by it.
pub open spec fn views_of(
    resolved: Seq<ResolvedComputedView>,
    accepted: Seq<int>,
    views: Seq<(String, ViewDocument)>,
    table_fields: Seq<(String, Vec<(String, Option<ExpressionType>)>)>,
    enums: Seq<(String, ScalarType)>,
) -> bool {
    &&& resolved.len() == accepted.len()
    &&& forall|a: int| 0 <= a < resolved.len()
        ==> declared_by_one_of(#[trigger] resolved[a], accepted, views, table_fields, enums)
    &&& forall|k: int| 0 <= k < accepted.len()
        ==> declared_in(resolved, views[#[trigger] accepted[k]], table_fields, enums)
}

/// Whether some entry of `names` is `name`.
pub open spec fn name_declared(names: Seq<(Seq<char>, Seq<char>)>, name: Seq<char>) -> bool {
    exists|j: int| 0 <= j < names.len() && (#[trigger] names[j]).0 == name
}

/// Each resolved view's name is declared among `names`, and no two
/// resolved views share a name.
pub open spec fn names_hold(names: Seq<(Seq<char>, Seq<char>)>, resolved: Seq<ResolvedComputedView>) -> bool {
    &&& forall|a: int| 0 <= a < resolved.len() ==> name_declared(names, (#[trigger] resolved[a]).name@)
    &&& forall|a: int, b: int| 0 <= a < b < resolved.len() ==> (#[trigger] resolved[a]).name@ != (#[trigger] resolved[b]).name@
}

proof fn lemma_names_hold_update(names: Seq<(Seq<char>, Seq<char>)>, k: int, path: Seq<char>, resolved: Seq<ResolvedComputedView>)
    requires
        0 <= k < names.len(),
        names_hold(names, resolved),
    ensures
        names_hold(names.update(k, (names[k].0, path)), resolved),
{
    let after = names.update(k, (names[k].0, path));
    assert forall|a: int| 0 <= a < resolved.len() implies name_declared(after, (#[trigger] resolved[a]).name@) by {
        assert(name_declared(names, resolved[a].name@));
        let j = choose|j: int| 0 <= j < names.len() && (#[trigger] names[j]).0 == resolved[a].name@;
        assert(after[j].0 == names[j].0);
    }
}

proof fn lemma_names_hold_push(names: Seq<(Seq<char>, Seq<char>)>, entry: (Seq<char>, Seq<char>), resolved: Seq<ResolvedComputedView>)
    requires
        names_hold(names, resolved),
    ensures
        names_hold(names.push(entry), resolved),
{
    let after = names.push(entry);
    assert forall|a: int| 0 <= a < resolved.len() implies name_declared(after, (#[trigger] resolved[a]).name@) by {
        assert(name_declared(names, resolved[a].name@));
        let j = choose|j: int| 0 <= j < names.len() && (#[trigger] names[j]).0 == resolved[a].name@;
        assert(after[j] == names[j]);
    }
}

#[verifier::spinoff_prover]
#[verifier::rlimit(60)]
proof fn lemma_accept(
    old_resolved: Seq<ResolvedComputedView>,
    resolved: Seq<ResolvedComputedView>,
    added: ResolvedComputedView,
    k: int,
    accepted: Seq<int>,
    position: int,
    views: Seq<(String, ViewDocument)>,
    table_fields: Seq<(String, Vec<(String, Option<ExpressionType>)>)>,
    enums: Seq<(String, ScalarType)>,
)
    requires
        0 <= k <= old_resolved.len(),
        resolved == old_resolved.insert(k, added),
        views_of(old_resolved, accepted, views, table_fields, enums),
        declares(added, views[position], table_fields, enums),
    ensures
        views_of(resolved, accepted.push(position), views, table_fields, enums),
{
    let acc = accepted.push(position);
    assert forall|a: int| 0 <= a < resolved.len() implies
        declared_by_one_of(#[trigger] resolved[a], acc, views, table_fields, enums) by {
        if a == k {
            assert(acc[accepted.len() as int] == position);
            assert(declares(resolved[a], views[acc[accepted.len() as int]], table_fields, enums));
        } else {
            let b = if a < k { a } else { a - 1 };
            assert(resolved[a] == old_resolved[b]);
            assert(declared_by_one_of(old_resolved[b], accepted, views, table_fields, enums));
            let m = choose|m: int| 0 <= m < accepted.len()
                && #[trigger] declares(old_resolved[b], views[accepted[m]], table_fields, enums);
            assert(acc[m] == accepted[m]);
            assert(declares(resolved[a], views[acc[m]], table_fields, enums));
        }
    }
    assert forall|m: int| 0 <= m < acc.len() implies declared_in(resolved, views[#[trigger] acc[m]], table_fields, enums) by {
        if m == accepted.len() {
            assert(resolved[k] == added);
            assert(acc[m] == position);
            assert(declares(resolved[k], views[acc[m]], table_fields, enums));
        } else {
            assert(acc[m] == accepted[m]);
            assert(declared_in(old_resolved, views[accepted[m]], table_fields, enums));
            let b = choose|b: int| 0 <= b < old_resolved.len()
                && #[trigger] declares(old_resolved[b], views[accepted[m]], table_fields, enums);
            let a = if b < k { b } else { b + 1 };
            assert(resolved[a] == old_resolved[b]);
            assert(declares(resolved[a], views[acc[m]], table_fields, enums));
        }
    }
}

proof fn lemma_accept_names(
    names: Seq<(Seq<char>, Seq<char>)>,
    old_resolved: Seq<ResolvedComputedView>,
    resolved: Seq<ResolvedComputedView>,
    added: ResolvedComputedView,
    k: int,
)
    requires
        0 <= k <= old_resolved.len(),
        resolved == old_resolved.insert(k, added),
        names_hold(names, old_resolved),
        forall|a: int| 0 <= a < old_resolved.len() ==> (#[trigger] old_resolved[a]).name@ != added.name@,
        name_declared(names, added.name@),
    ensures
        names_hold(names, resolved),
{
    assert forall|a: int| 0 <= a < resolved.len() implies name_declared(names, (#[trigger] resolved[a]).name@) by {
        if a != k {
            let b = if a < k { a } else { a - 1 };
            assert(resolved[a] == old_resolved[b]);
            assert(name_declared(names, old_resolved[b].name@));
        } else {
            assert(resolved[a] == added);
        }
    }
    assert forall|a: int, b: int| 0 <= a < b < resolved.len() implies
        (#[trigger] resolved[a]).name@ != (#[trigger] resolved[b]).name@ by {
        if a < k && b < k {
            assert(old_resolved[a].name@ != old_resolved[b].name@);
        } else if a < k && b == k {
            assert(old_resolved[a].name@ != added.name@);
        } else if a < k {
            assert(old_resolved[a].name@ != old_resolved[b - 1].name@);
        } else if a == k {
            assert(old_resolved[b - 1].name@ != added.name@);
        } else {
            assert(old_resolved[a - 1].name@ != old_resolved[b - 1].name@);
        }
    }
}

/// Takes the view document at `index` through the steps of `view_step`.
fn resolve_view_document(
    documents: &ProjectDocuments,
    views: &Vec<(String, ViewDocument)>,
    index: usize,
    table_fields: &Vec<(String, Vec<(String, Option<ExpressionType>)>)>,
    enums: &Vec<(String, ScalarType)>,
    empty: &Vec<(String, Option<ExpressionType>)>,
    names: &mut Vec<(String, String)>,
    resolved: &mut Vec<ResolvedComputedView>,
    diagnostics: &mut Vec<Diagnostic>,
    Ghost(accepted): Ghost<Seq<int>>,
)
    requires
        index < views@.len(),
        empty@.len() == 0,
        views_of(old(resolved)@, accepted, views@, table_fields@, enums@),
        views_ordered(old(resolved)@),
        names_hold(names_view(old(names)@), old(resolved)@),
        diagnostics_ordered(old(diagnostics)@.map_values(|d: Diagnostic| d@)),
    ensures
        ({
            let step = view_step(names_view(old(names)@), views@[index as int], documents.files@, table_fields@, enums@);
            &&& names_view(final(names)@) == step.0
            &&& final(diagnostics)@.map_values(|d: Diagnostic| d@).to_multiset()
                == old(diagnostics)@.map_values(|d: Diagnostic| d@).to_multiset().add(step.1.to_multiset())
            &&& views_of(final(resolved)@, if step.2 { accepted.push(index as int) } else { accepted }, views@,
                table_fields@, enums@)
        }),
        views_ordered(final(resolved)@),
        names_hold(names_view(final(names)@), final(resolved)@),
        diagnostics_ordered(final(diagnostics)@.map_values(|d: Diagnostic| d@)),
{
    let ghost old_names = names_view(names@);
    let ghost old_diags = diagnostics@.map_values(|d: Diagnostic| d@).to_multiset();
    let path = views[index].0.as_str();
    let view = &views[index].1;
    let (go_on, header) = check_view_header(path, view);
    let ghost header_view = header@.map_values(|d: Diagnostic| d@);
    insert_diagnostics(diagnostics, header);
    proof {
        assert(views@[index as int].0@ == path@);
        assert(views@[index as int].1 == *view);
    }
    if !go_on {
        return;
    }
    match find_name(names, view.name.as_str()) {
        Some(k) => {
            let message = two_part_message("view `", view.name.as_str(), "` is declared more than once (also in ",
                names[k].1.as_str(), ")");
            let d = view_diagnostic(path, "E-VIEW-DUPLICATE-NAME", message.as_str(), "ADV-VIEW-002", Some("name"))
                .with_suggestion("give each project-local view a unique name");
            let ghost before = names@;
            let entry = (names[k].0.clone(), views[index].0.clone());
            let ghost renamed = entry;
            names.remove(k);
            names.insert(k, entry);
            proof {
                assert(names@ =~= before.update(k as int, renamed));
                assert(names_view(names@) =~= old_names.update(k as int, (old_names[k as int].0, path@)));
                lemma_names_hold_update(old_names, k as int, path@, resolved@);
                assert(d@ == duplicate_failure(path@, view.name@, old_names[k as int].1));
            }
            insert_diagnostic(diagnostics, d);
            proof {
                vstd::seq_lib::to_multiset_build(header_view, d@);
                assert(old_diags.add(header_view.to_multiset()).insert(d@) =~= old_diags.add(header_view.push(d@).to_multiset()));
            }
        },
        None => {
            let entry = (view.name.clone(), views[index].0.clone());
            names.push(entry);
            proof {
                assert(names_view(names@) =~= old_names.push((view.name@, path@)));
                lemma_names_hold_push(old_names, (view.name@, path@), resolved@);
            }
            match view_target_schema(documents, view, path) {
                Err(d) => {
                    insert_diagnostic(diagnostics, d);
                    proof {
                        vstd::seq_lib::to_multiset_build(header_view, d@);
                        assert(old_diags.add(header_view.to_multiset()).insert(d@)
                            =~= old_diags.add(header_view.push(d@).to_multiset()));
                    }
                },
                Ok(_) => {
                    let fields = match find_table_fields(table_fields, view.table.as_str()) {
                        Some(f) => f,
                        None => empty,
                    };
                    proof {
                        assert(fields@ =~= table_field_types(table_fields@, view.table@));
                    }
                    let (body, problems) = resolve_view_body(path, view, fields, enums);
                    let ghost problem_view = problems@.map_values(|d: Diagnostic| d@);
                    insert_diagnostics(diagnostics, problems);
                    proof {
                        vstd::seq_lib::lemma_multiset_commutative(header_view, problem_view);
                        assert(old_diags.add(header_view.to_multiset()).add(problem_view.to_multiset())
                            =~= old_diags.add((header_view + problem_view).to_multiset()));
                        if view.columns@.len() == 0 {
                            assert(header_view + problem_view =~= header_view.push(no_columns(path@, *view)));
                        }
                    }
                    match body {
                        Some(v) => {
                            let ghost added = v;
                            let ghost old_resolved = resolved@;
                            proof {
                                assert(declares(added, views@[index as int], table_fields@, enums@));
                                assert forall|a: int| 0 <= a < old_resolved.len() implies
                                    (#[trigger] old_resolved[a]).name@ != added.name@ by {
                                    assert(name_declared(old_names, old_resolved[a].name@));
                                    let j = choose|j: int| 0 <= j < old_names.len()
                                        && (#[trigger] old_names[j]).0 == old_resolved[a].name@;
                                    assert(old_names[j].0 != view.name@);
                                }
                                assert(names_view(names@)[old_names.len() as int].0 == added.name@);
                                assert(name_declared(names_view(names@), added.name@));
                            }
                            insert_view(resolved, v);
                            proof {
                                let k = choose|k: int| 0 <= k <= old_resolved.len() && resolved@ == old_resolved.insert(k, added);
                                lemma_accept(old_resolved, resolved@, added, k, accepted, index as int, views@,
                                    table_fields@, enums@);
                                lemma_accept_names(names_view(names@), old_resolved, resolved@, added, k);
                            }
                        },
                        None => {},
                    }
                },
            }
        },
    }
}

/// Resolves the view documents of a project, taking them in path order
/// (`view_step`): a document of another kind, a name declared before, a
/// target table with no schema or with several, no column, or any column
/// that does not resolve yields its diagnostics and no view, so a valid
/// view stays available whatever the other documents hold. `table_fields`
/// gives the expression types of each table's fields, and `enums` the
/// normal enums by name. The views are exactly those of the accepted
/// documents, ordered by table, name and source, each name once; the
/// diagnostics are exactly those the steps find, ordered by source, schema
/// path, line, column and code.
pub fn resolve_computed_views(
    documents: &ProjectDocuments,
    views: &Vec<(String, ViewDocument)>,
    table_fields: &Vec<(String, Vec<(String, Option<ExpressionType>)>)>,
    enums: &Vec<(String, ScalarType)>,
) -> (build: ComputedViewBuild)
    ensures
        views_ordered(build.views@),
        diagnostics_ordered(build.diagnostics@.map_values(|d: Diagnostic| d@)),
        forall|a: int, b: int| 0 <= a < b < build.views@.len() ==>
            (#[trigger] build.views@[a]).name@ != (#[trigger] build.views@[b]).name@,
        exists|order: Seq<usize>| #[trigger] path_ordered(views@, order) && {
            let pass = view_pass(views@, order, views@.len() as int, documents.files@, table_fields@, enums@);
            &&& views_of(build.views@, pass.2, views@, table_fields@, enums@)
            &&& build.diagnostics@.map_values(|d: Diagnostic| d@).to_multiset() == pass.1.to_multiset()
        },
{
    let order = path_order(views);
    let empty: Vec<(String, Option<ExpressionType>)> = Vec::new();
    let mut names: Vec<(String, String)> = Vec::new();
    let mut resolved: Vec<ResolvedComputedView> = Vec::new();
    let mut diagnostics: Vec<Diagnostic> = Vec::new();
    proof {
        assert(diagnostics@.map_values(|d: Diagnostic| d@) =~= Seq::<DiagnosticView>::empty());
        assert(names_view(names@) =~= Seq::<(Seq<char>, Seq<char>)>::empty());
        assert(Seq::<DiagnosticView>::empty().to_multiset() =~= Multiset::<DiagnosticView>::empty()) by {
            broadcast use vstd::seq_lib::group_to_multiset_ensures;
        }
    }
    let mut t: usize = 0;
    while t < order.len()
        invariant
            path_ordered(views@, order@),
            t <= order@.len(),
            empty@.len() == 0,
            ({
                let pass = view_pass(views@, order@, t as int, documents.files@, table_fields@, enums@);
                &&& names_view(names@) == pass.0
                &&& diagnostics@.map_values(|d: Diagnostic| d@).to_multiset() == pass.1.to_multiset()
                &&& views_of(resolved@, pass.2, views@, table_fields@, enums@)
            }),
            views_ordered(resolved@),
            names_hold(names_view(names@), resolved@),
            diagnostics_ordered(diagnostics@.map_values(|d: Diagnostic| d@)),
        decreases order@.len() - t,
    {
        let ghost pass = view_pass(views@, order@, t as int, documents.files@, table_fields@, enums@);
        let position = order[t];
        resolve_view_document(documents, views, position, table_fields, enums, &empty, &mut names, &mut resolved,
            &mut diagnostics, Ghost(pass.2));
        proof {
            let step = view_step(pass.0, views@[position as int], documents.files@, table_fields@, enums@);
            vstd::seq_lib::lemma_multiset_commutative(pass.1, step.1);
        }
        t = t + 1;
    }
    ComputedViewBuild { views: resolved, diagnostics }
}

/// The diagnostics of a project's view documents: those that
/// `resolve_computed_views` reports, in report order.
pub fn validate_computed_views(
    documents: &ProjectDocuments,
    views: &Vec<(String, ViewDocument)>,
    table_fields: &Vec<(String, Vec<(String, Option<ExpressionType>)>)>,
    enums: &Vec<(String, ScalarType)>,
) -> (diagnostics: Vec<Diagnostic>)
    ensures
        diagnostics_ordered(diagnostics@.map_values(|d: Diagnostic| d@)),
        exists|order: Seq<usize>| #[trigger] path_ordered(views@, order)
            && diagnostics@.map_values(|d: Diagnostic| d@).to_multiset()
                == view_pass(views@, order, views@.len() as int, documents.files@, table_fields@, enums@).1.to_multiset(),
{
    resolve_computed_views(documents, views, table_fields, enums).diagnostics
}

} // verus!
