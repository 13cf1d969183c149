//! The order of key shapes — ordered lists of field names — as `Ord` on
//! `Vec<String>` orders them, and the ascending, duplicate-free list of the
//! shapes of two sides.

use vstd::prelude::*;
use crate::text::str_eq;
use crate::text_order::{lemma_text_lt_irreflexive, lemma_text_lt_transitive, lemma_text_lt_trichotomy, text_less, text_lt};

verus! {

/// `a < b` lexicographically, names compared by `text_lt`.
pub open spec fn shape_lt(a: Seq<Seq<char>>, b: Seq<Seq<char>>) -> bool
    decreases a.len(),
{
    if a.len() == 0 {
        b.len() > 0
    } else if b.len() == 0 {
        false
    } else if a[0] != b[0] {
        text_lt(a[0], b[0])
    } else {
        shape_lt(a.drop_first(), b.drop_first())
    }
}

pub proof fn lemma_shape_lt_irreflexive(a: Seq<Seq<char>>)
    ensures
        !shape_lt(a, a),
    decreases a.len(),
{
    if a.len() > 0 {
        lemma_shape_lt_irreflexive(a.drop_first());
    }
}

pub proof fn lemma_shape_lt_trichotomy(a: Seq<Seq<char>>, b: Seq<Seq<char>>)
    ensures
        a == b || shape_lt(a, b) || shape_lt(b, a),
        !(shape_lt(a, b) && shape_lt(b, a)),
    decreases a.len(),
{
    if a.len() > 0 && b.len() > 0 {
        if a[0] == b[0] {
            lemma_shape_lt_trichotomy(a.drop_first(), b.drop_first());
            if a.drop_first() == b.drop_first() {
                assert(a =~= seq![a[0]] + a.drop_first());
                assert(b =~= seq![b[0]] + b.drop_first());
            }
        } else {
            lemma_text_lt_trichotomy(a[0], b[0]);
        }
    } else if a.len() == 0 && b.len() == 0 {
        assert(a =~= b);
    }
}

pub proof fn lemma_shape_lt_transitive(a: Seq<Seq<char>>, b: Seq<Seq<char>>, c: Seq<Seq<char>>)
    requires
        shape_lt(a, b),
        shape_lt(b, c),
    ensures
        shape_lt(a, c),
    decreases a.len(),
{
    if a.len() > 0 && b.len() > 0 && c.len() > 0 {
        if a[0] != b[0] {
            if b[0] != c[0] {
                lemma_text_lt_transitive(a[0], b[0], c[0]);
                lemma_text_lt_irreflexive(a[0]);
            }
        } else if b[0] != c[0] {
        } else {
            lemma_shape_lt_transitive(a.drop_first(), b.drop_first(), c.drop_first());
        }
    }
}

/// The names of a shape.
pub open spec fn shape_view(shape: Vec<String>) -> Seq<Seq<char>> {
    shape.deep_view()
}

/// Whether `a` sorts before `b`.
pub fn shape_less(a: &Vec<String>, b: &Vec<String>) -> (less: bool)
    ensures
        less == shape_lt(shape_view(*a), shape_view(*b)),
{
    let ghost x = shape_view(*a);
    let ghost y = shape_view(*b);
    let mut i: usize = 0;
    proof {
        assert(x.skip(0) =~= x);
        assert(y.skip(0) =~= y);
    }
    while i < a.len() && i < b.len()
        invariant
            i <= a@.len(),
            i <= b@.len(),
            x == shape_view(*a),
            y == shape_view(*b),
            x.len() == a@.len(),
            y.len() == b@.len(),
            shape_lt(x, y) == shape_lt(x.skip(i as int), y.skip(i as int)),
        decreases a@.len() - i,
    {
        proof {
            assert(x.skip(i as int)[0] == a@[i as int]@);
            assert(y.skip(i as int)[0] == b@[i as int]@);
            assert(x.skip(i as int).drop_first() =~= x.skip(i + 1));
            assert(y.skip(i as int).drop_first() =~= y.skip(i + 1));
        }
        if !str_eq(a[i].as_str(), b[i].as_str()) {
            return text_less(a[i].as_str(), b[i].as_str());
        }
        i = i + 1;
    }
    i == a.len() && i < b.len()
}

/// Whether two shapes hold the same names in the same order.
pub fn same_shape(a: &Vec<String>, b: &Vec<String>) -> (same: bool)
    ensures
        same == (shape_view(*a) == shape_view(*b)),
{
    if a.len() != b.len() {
        proof {
            assert(shape_view(*a).len() != shape_view(*b).len());
        }
        return false;
    }
    let mut i: usize = 0;
    while i < a.len()
        invariant
            a@.len() == b@.len(),
            i <= a@.len(),
            forall|j: int| 0 <= j < i ==> shape_view(*a)[j] == shape_view(*b)[j],
        decreases a@.len() - i,
    {
        if !str_eq(a[i].as_str(), b[i].as_str()) {
            proof {
                assert(shape_view(*a)[i as int] != shape_view(*b)[i as int]);
            }
            return false;
        }
        i = i + 1;
    }
    proof {
        assert(shape_view(*a) =~= shape_view(*b));
    }
    true
}

/// Each shape sorts before every later one.
pub open spec fn shapes_ascending(shapes: Seq<Seq<Seq<char>>>) -> bool {
    forall|i: int, j: int| 0 <= i < j < shapes.len() ==> shape_lt(shapes[i], shapes[j])
}

pub open spec fn shape_views(shapes: Seq<Vec<String>>) -> Seq<Seq<Seq<char>>> {
    shapes.map_values(|s: Vec<String>| shape_view(s))
}

/// The shapes that occur in `a` or in `b`, each once, in ascending order.
pub open spec fn ascending_shapes(a: Seq<Seq<Seq<char>>>, b: Seq<Seq<Seq<char>>>) -> Seq<Seq<Seq<char>>> {
    choose|s: Seq<Seq<Seq<char>>>| shapes_ascending(s) && forall|x: Seq<Seq<char>>| s.contains(x) <==> (a.contains(x) || b.contains(x))
}

proof fn lemma_ascending_shapes_unique(s: Seq<Seq<Seq<char>>>, t: Seq<Seq<Seq<char>>>)
    requires
        shapes_ascending(s),
        shapes_ascending(t),
        forall|x: Seq<Seq<char>>| s.contains(x) <==> t.contains(x),
    ensures
        s == t,
    decreases s.len(),
{
    if s.len() == 0 {
        if t.len() > 0 {
            assert(t.contains(t[0]));
        }
        assert(s =~= t);
    } else {
        assert(s.contains(s[0]));
        let k = choose|k: int| 0 <= k < t.len() && t[k] == s[0];
        assert(t.contains(t[0]));
        let m = choose|m: int| 0 <= m < s.len() && s[m] == t[0];
        if k > 0 {
            assert(shape_lt(t[0], t[k]));
            if m > 0 {
                assert(shape_lt(s[0], s[m]));
                lemma_shape_lt_trichotomy(s[0], t[0]);
            } else {
                lemma_shape_lt_irreflexive(s[0]);
            }
        }
        let s2 = s.drop_first();
        let t2 = t.drop_first();
        assert forall|x: Seq<Seq<char>>| s2.contains(x) <==> t2.contains(x) by {
            if s2.contains(x) {
                let i = choose|i: int| 0 <= i < s2.len() && s2[i] == x;
                assert(s[i + 1] == x);
                assert(shape_lt(s[0], x));
                lemma_shape_lt_irreflexive(x);
                assert(s.contains(x));
                let j = choose|j: int| 0 <= j < t.len() && t[j] == x;
                assert(j != 0);
                assert(t2[j - 1] == x);
            }
            if t2.contains(x) {
                let i = choose|i: int| 0 <= i < t2.len() && t2[i] == x;
                assert(t[i + 1] == x);
                assert(shape_lt(t[0], x));
                lemma_shape_lt_irreflexive(x);
                assert(t.contains(x));
                let j = choose|j: int| 0 <= j < s.len() && s[j] == x;
                assert(j != 0);
                assert(s2[j - 1] == x);
            }
        }
        lemma_ascending_shapes_unique(s2, t2);
        assert(s =~= seq![s[0]] + s2);
        assert(t =~= seq![t[0]] + t2);
    }
}

fn insert_shape(shapes: &mut Vec<Vec<String>>, shape: &Vec<String>)
    requires
        shapes_ascending(shape_views(old(shapes)@)),
    ensures
        shapes_ascending(shape_views(final(shapes)@)),
        forall|x: Seq<Seq<char>>| shape_views(final(shapes)@).contains(x) <==> (shape_views(old(shapes)@).contains(x) || x == shape_view(*shape)),
{
    let ghost before = shape_views(shapes@);
    let ghost key = shape_view(*shape);
    let mut i: usize = 0;
    while i < shapes.len() && shape_less(&shapes[i], shape)
        invariant
            i <= shapes@.len(),
            before == shape_views(shapes@),
            key == shape_view(*shape),
            shapes_ascending(before),
            forall|j: int| 0 <= j < i ==> shape_lt(#[trigger] before[j], key),
        decreases shapes@.len() - i,
    {
        i = i + 1;
    }
    if i < shapes.len() && same_shape(&shapes[i], shape) {
        proof {
            assert(before[i as int] == key);
        }
        return;
    }
    proof {
        if i < shapes@.len() {
            lemma_shape_lt_trichotomy(before[i as int], key);
        }
    }
    shapes.insert(i, shape.clone());
    proof {
        let after = shape_views(shapes@);
        assert(shape_view(shapes@[i as int]) == key);
        assert(after =~= before.insert(i as int, key));
        assert forall|p: int, q: int| 0 <= p < q < after.len() implies shape_lt(after[p], after[q]) by {
            if q < i {
            } else if q == i {
            } else if p < i {
                assert(after[q] == before[q - 1]);
                if q - 1 > i as int {
                    assert(shape_lt(before[i as int], before[q - 1]));
                    lemma_shape_lt_transitive(key, before[i as int], before[q - 1]);
                }
                lemma_shape_lt_transitive(before[p], key, before[q - 1]);
            } else if p == i {
                if q - 1 > i as int {
                    assert(shape_lt(before[i as int], before[q - 1]));
                    lemma_shape_lt_transitive(key, before[i as int], before[q - 1]);
                }
            } else {
                assert(after[p] == before[p - 1]);
                assert(after[q] == before[q - 1]);
            }
        }
        assert forall|x: Seq<Seq<char>>| after.contains(x) <==> (before.contains(x) || x == key) by {
            if after.contains(x) {
                let j = choose|j: int| 0 <= j < after.len() && after[j] == x;
                if j < i {
                    assert(before[j] == x);
                } else if j > i {
                    assert(before[j - 1] == x);
                }
            }
            if before.contains(x) {
                let j = choose|j: int| 0 <= j < before.len() && before[j] == x;
                if j < i {
                    assert(after[j] == x);
                } else {
                    assert(after[j + 1] == x);
                }
            }
            if x == key {
                assert(after[i as int] == x);
            }
        }
    }
}

/// The shapes of both lists, each once, in ascending order (the keys of a
/// `BTreeSet` built from both).
pub fn union_shapes(a: &Vec<Vec<String>>, b: &Vec<Vec<String>>) -> (shapes: Vec<Vec<String>>)
    ensures
        shape_views(shapes@) == ascending_shapes(shape_views(a@), shape_views(b@)),
{
    let mut shapes: Vec<Vec<String>> = Vec::new();
    let mut i: usize = 0;
    while i < a.len()
        invariant
            i <= a@.len(),
            shapes_ascending(shape_views(shapes@)),
            forall|x: Seq<Seq<char>>| shape_views(shapes@).contains(x) <==> shape_views(a@).take(i as int).contains(x),
        decreases a@.len() - i,
    {
        insert_shape(&mut shapes, &a[i]);
        proof {
            let sa = shape_views(a@);
            let next = sa.take(i + 1);
            let prev = sa.take(i as int);
            assert forall|x: Seq<Seq<char>>| next.contains(x) <==> (prev.contains(x) || x == sa[i as int]) by {
                if next.contains(x) {
                    let j = choose|j: int| 0 <= j < next.len() && next[j] == x;
                    if j < i {
                        assert(prev[j] == x);
                    }
                }
                if prev.contains(x) {
                    let j = choose|j: int| 0 <= j < prev.len() && prev[j] == x;
                    assert(next[j] == x);
                }
                if x == sa[i as int] {
                    assert(next[i as int] == x);
                }
            }
        }
        i = i + 1;
    }
    proof {
        assert(shape_views(a@).take(a@.len() as int) =~= shape_views(a@));
    }
    let mut k: usize = 0;
    while k < b.len()
        invariant
            k <= b@.len(),
            shapes_ascending(shape_views(shapes@)),
            forall|x: Seq<Seq<char>>| shape_views(shapes@).contains(x) <==> (shape_views(a@).contains(x) || shape_views(b@).take(k as int).contains(x)),
        decreases b@.len() - k,
    {
        insert_shape(&mut shapes, &b[k]);
        proof {
            let sb = shape_views(b@);
            let next = sb.take(k + 1);
            let prev = sb.take(k as int);
            assert forall|x: Seq<Seq<char>>| next.contains(x) <==> (prev.contains(x) || x == sb[k as int]) by {
                if next.contains(x) {
                    let j = choose|j: int| 0 <= j < next.len() && next[j] == x;
                    if j < k {
                        assert(prev[j] == x);
                    }
                }
                if prev.contains(x) {
                    let j = choose|j: int| 0 <= j < prev.len() && prev[j] == x;
                    assert(next[j] == x);
                }
                if x == sb[k as int] {
                    assert(next[k as int] == x);
                }
            }
        }
        k = k + 1;
    }
    proof {
        assert(shape_views(b@).take(b@.len() as int) =~= shape_views(b@));
        let u = ascending_shapes(shape_views(a@), shape_views(b@));
        assert(shapes_ascending(u) && forall|x: Seq<Seq<char>>| u.contains(x) <==> (shape_views(a@).contains(x) || shape_views(b@).contains(x)));
        lemma_ascending_shapes_unique(u, shape_views(shapes@));
    }
    shapes
}

} // verus!
