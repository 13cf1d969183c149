//! The order of `String` keys (by character, as `Ord` on `String` orders
//! them) and the ascending, duplicate-free list of the keys of two sides.

use vstd::prelude::*;
use crate::text::{chars_of, str_eq};
use crate::authoring_query::Comparison;

verus! {

/// `a < b` in the lexicographic order of characters.
pub open spec fn text_lt(a: Seq<char>, b: Seq<char>) -> bool
    decreases a.len(),
{
    if a.len() == 0 {
        b.len() > 0
    } else if b.len() == 0 {
        false
    } else if a[0] != b[0] {
        a[0] < b[0]
    } else {
        text_lt(a.drop_first(), b.drop_first())
    }
}

pub proof fn lemma_text_lt_irreflexive(a: Seq<char>)
    ensures
        !text_lt(a, a),
    decreases a.len(),
{
    if a.len() > 0 {
        lemma_text_lt_irreflexive(a.drop_first());
    }
}

pub proof fn lemma_text_lt_trichotomy(a: Seq<char>, b: Seq<char>)
    ensures
        a == b || text_lt(a, b) || text_lt(b, a),
        !(text_lt(a, b) && text_lt(b, a)),
    decreases a.len(),
{
    if a.len() > 0 && b.len() > 0 {
        if a[0] == b[0] {
            lemma_text_lt_trichotomy(a.drop_first(), b.drop_first());
            if a.drop_first() == b.drop_first() {
                assert(a =~= seq![a[0]] + a.drop_first());
                assert(b =~= seq![b[0]] + b.drop_first());
            }
        }
    } else if a.len() == 0 && b.len() == 0 {
        assert(a =~= b);
    }
}

pub proof fn lemma_text_lt_transitive(a: Seq<char>, b: Seq<char>, c: Seq<char>)
    requires
        text_lt(a, b),
        text_lt(b, c),
    ensures
        text_lt(a, c),
    decreases a.len(),
{
    if a.len() > 0 && b.len() > 0 && c.len() > 0 {
        if a[0] == b[0] && b[0] == c[0] {
            lemma_text_lt_transitive(a.drop_first(), b.drop_first(), c.drop_first());
        }
    }
}

/// Whether `a` sorts before `b` (`a < b` on `String`).
pub fn text_less(a: &str, b: &str) -> (less: bool)
    ensures
        less == text_lt(a@, b@),
{
    let x = chars_of(a);
    let y = chars_of(b);
    let mut i: usize = 0;
    proof {
        assert(x@.skip(0) =~= x@);
        assert(y@.skip(0) =~= y@);
    }
    while i < x.len() && i < y.len()
        invariant
            i <= x@.len(),
            i <= y@.len(),
            x@ == a@,
            y@ == b@,
            text_lt(a@, b@) == text_lt(x@.skip(i as int), y@.skip(i as int)),
        decreases x@.len() - i,
    {
        if x[i] != y[i] {
            return x[i] < y[i];
        }
        proof {
            assert(x@.skip(i as int).drop_first() =~= x@.skip(i + 1));
            assert(y@.skip(i as int).drop_first() =~= y@.skip(i + 1));
        }
        i = i + 1;
    }
    i == x.len() && i < y.len()
}

/// Each name sorts before every later one: ascending, without repeats.
pub open spec fn strictly_ascending(names: Seq<Seq<char>>) -> bool {
    forall|i: int, j: int| 0 <= i < j < names.len() ==> text_lt(names[i], names[j])
}

/// The characters of each string.
pub open spec fn texts(names: Seq<String>) -> Seq<Seq<char>> {
    names.map_values(|s: String| s@)
}

/// The names that occur in `a` or in `b`, each once, in ascending order.
pub open spec fn ascending_union(a: Seq<Seq<char>>, b: Seq<Seq<char>>) -> Seq<Seq<char>> {
    choose|s: Seq<Seq<char>>| strictly_ascending(s) && forall|x: Seq<char>| s.contains(x) <==> (a.contains(x) || b.contains(x))
}

/// Two ascending lists of the same names are the same list.
pub proof fn lemma_ascending_unique(s: Seq<Seq<char>>, t: Seq<Seq<char>>)
    requires
        strictly_ascending(s),
        strictly_ascending(t),
        forall|x: Seq<char>| s.contains(x) <==> t.contains(x),
    ensures
        s == t,
    decreases s.len(),
{
    if s.len() == 0 {
        if t.len() > 0 {
            assert(t.contains(t[0]));
        }
        assert(s =~= t);
    } else {
        assert(s.contains(s[0]));
        let k = choose|k: int| 0 <= k < t.len() && t[k] == s[0];
        assert(t.contains(t[0]));
        let m = choose|m: int| 0 <= m < s.len() && s[m] == t[0];
        if k > 0 {
            assert(text_lt(t[0], t[k]));
            if m > 0 {
                assert(text_lt(s[0], s[m]));
                lemma_text_lt_trichotomy(s[0], t[0]);
            } else {
                lemma_text_lt_irreflexive(s[0]);
            }
        }
        assert(t.len() > 0 && t[0] == s[0]);
        let s2 = s.drop_first();
        let t2 = t.drop_first();
        assert forall|x: Seq<char>| s2.contains(x) <==> t2.contains(x) by {
            if s2.contains(x) {
                let i = choose|i: int| 0 <= i < s2.len() && s2[i] == x;
                assert(s[i + 1] == x);
                assert(text_lt(s[0], x));
                lemma_text_lt_irreflexive(x);
                assert(s.contains(x));
                let j = choose|j: int| 0 <= j < t.len() && t[j] == x;
                assert(j != 0);
                assert(t2[j - 1] == x);
            }
            if t2.contains(x) {
                let i = choose|i: int| 0 <= i < t2.len() && t2[i] == x;
                assert(t[i + 1] == x);
                assert(text_lt(t[0], x));
                lemma_text_lt_irreflexive(x);
                assert(t.contains(x));
                let j = choose|j: int| 0 <= j < s.len() && s[j] == x;
                assert(j != 0);
                assert(s2[j - 1] == x);
            }
        }
        lemma_ascending_unique(s2, t2);
        assert(s =~= seq![s[0]] + s2);
        assert(t =~= seq![t[0]] + t2);
    }
}

/// A witness of `ascending_union` is `ascending_union`.
pub proof fn lemma_ascending_union_is(s: Seq<Seq<char>>, a: Seq<Seq<char>>, b: Seq<Seq<char>>)
    requires
        strictly_ascending(s),
        forall|x: Seq<char>| s.contains(x) <==> (a.contains(x) || b.contains(x)),
    ensures
        ascending_union(a, b) == s,
{
    let u = ascending_union(a, b);
    assert(strictly_ascending(u) && forall|x: Seq<char>| u.contains(x) <==> (a.contains(x) || b.contains(x)));
    lemma_ascending_unique(u, s);
}

/// Puts `name` into the ascending list `names` unless it is there already.
fn insert_name(names: &mut Vec<String>, name: &String)
    requires
        strictly_ascending(texts(old(names)@)),
    ensures
        strictly_ascending(texts(final(names)@)),
        forall|x: Seq<char>| texts(final(names)@).contains(x) <==> (texts(old(names)@).contains(x) || x == name@),
{
    let ghost before = texts(names@);
    let mut i: usize = 0;
    while i < names.len() && text_less(names[i].as_str(), name.as_str())
        invariant
            i <= names@.len(),
            before == texts(names@),
            strictly_ascending(before),
            forall|j: int| 0 <= j < i ==> text_lt(#[trigger] before[j], name@),
        decreases names@.len() - i,
    {
        i = i + 1;
    }
    if i < names.len() && str_eq(names[i].as_str(), name.as_str()) {
        proof {
            assert(before[i as int] == name@);
        }
        return;
    }
    proof {
        if i < names@.len() {
            lemma_text_lt_trichotomy(before[i as int], name@);
        }
    }
    names.insert(i, name.clone());
    proof {
        let after = texts(names@);
        assert(after =~= before.insert(i as int, name@));
        assert forall|p: int, q: int| 0 <= p < q < after.len() implies text_lt(after[p], after[q]) by {
            if q < i {
            } else if q == i {
            } else if p < i {
                assert(after[q] == before[q - 1]);
                if q - 1 > i as int {
                    assert(text_lt(before[i as int], before[q - 1]));
                    lemma_text_lt_transitive(name@, before[i as int], before[q - 1]);
                }
                lemma_text_lt_transitive(before[p], name@, before[q - 1]);
            } else if p == i {
                if q - 1 > i as int {
                    assert(text_lt(before[i as int], before[q - 1]));
                    lemma_text_lt_transitive(name@, before[i as int], before[q - 1]);
                }
            } else {
                assert(after[p] == before[p - 1]);
                assert(after[q] == before[q - 1]);
            }
        }
        assert forall|x: Seq<char>| after.contains(x) <==> (before.contains(x) || x == name@) by {
            if after.contains(x) {
                let j = choose|j: int| 0 <= j < after.len() && after[j] == x;
                if j < i {
                    assert(before[j] == x);
                } else if j > i {
                    assert(before[j - 1] == x);
                }
            }
            if before.contains(x) {
                let j = choose|j: int| 0 <= j < before.len() && before[j] == x;
                if j < i {
                    assert(after[j] == x);
                } else {
                    assert(after[j + 1] == x);
                }
            }
            if x == name@ {
                assert(after[i as int] == x);
            }
        }
    }
}

/// The names of both lists, each once, in ascending order (the keys of a
/// `BTreeSet` built from both).
pub fn union_ascending(a: &Vec<String>, b: &Vec<String>) -> (names: Vec<String>)
    ensures
        texts(names@) == ascending_union(texts(a@), texts(b@)),
        strictly_ascending(texts(names@)),
        forall|x: Seq<char>| texts(names@).contains(x) <==> (texts(a@).contains(x) || texts(b@).contains(x)),
{
    let mut names: Vec<String> = Vec::new();
    let mut i: usize = 0;
    while i < a.len()
        invariant
            i <= a@.len(),
            strictly_ascending(texts(names@)),
            forall|x: Seq<char>| texts(names@).contains(x) <==> texts(a@).take(i as int).contains(x),
        decreases a@.len() - i,
    {
        insert_name(&mut names, &a[i]);
        proof {
            let ta = texts(a@);
            let next = ta.take(i + 1);
            let prev = ta.take(i as int);
            assert forall|x: Seq<char>| next.contains(x) <==> (prev.contains(x) || x == ta[i as int]) by {
                if next.contains(x) {
                    let j = choose|j: int| 0 <= j < next.len() && next[j] == x;
                    if j < i {
                        assert(prev[j] == x);
                    }
                }
                if prev.contains(x) {
                    let j = choose|j: int| 0 <= j < prev.len() && prev[j] == x;
                    assert(next[j] == x);
                }
                if x == ta[i as int] {
                    assert(next[i as int] == x);
                }
            }
        }
        i = i + 1;
    }
    let mut k: usize = 0;
    proof {
        assert(texts(a@).take(a@.len() as int) =~= texts(a@));
    }
    while k < b.len()
        invariant
            k <= b@.len(),
            i == a@.len(),
            strictly_ascending(texts(names@)),
            forall|x: Seq<char>| texts(names@).contains(x) <==> (texts(a@).contains(x) || texts(b@).take(k as int).contains(x)),
        decreases b@.len() - k,
    {
        insert_name(&mut names, &b[k]);
        proof {
            let tb = texts(b@);
            let next = tb.take(k + 1);
            let prev = tb.take(k as int);
            assert forall|x: Seq<char>| next.contains(x) <==> (prev.contains(x) || x == tb[k as int]) by {
                if next.contains(x) {
                    let j = choose|j: int| 0 <= j < next.len() && next[j] == x;
                    if j < k {
                        assert(prev[j] == x);
                    }
                }
                if prev.contains(x) {
                    let j = choose|j: int| 0 <= j < prev.len() && prev[j] == x;
                    assert(next[j] == x);
                }
                if x == tb[k as int] {
                    assert(next[k as int] == x);
                }
            }
        }
        k = k + 1;
    }
    proof {
        assert(texts(a@).take(a@.len() as int) =~= texts(a@));
        assert(texts(b@).take(b@.len() as int) =~= texts(b@));
        lemma_ascending_union_is(texts(names@), texts(a@), texts(b@));
    }
    names
}

/// The order of two texts as `Ord` on `String` gives it.
pub open spec fn text_cmp(a: Seq<char>, b: Seq<char>) -> Comparison {
    if a == b {
        Comparison::Equal
    } else if text_lt(a, b) {
        Comparison::Less
    } else {
        Comparison::Greater
    }
}

pub proof fn lemma_text_cmp_properties(a: Seq<char>, b: Seq<char>, c: Seq<char>)
    ensures
        text_cmp(a, b) == Comparison::Less <==> text_cmp(b, a) == Comparison::Greater,
        text_cmp(a, b) == Comparison::Equal <==> a == b,
        text_cmp(a, b) == Comparison::Less && text_cmp(b, c) == Comparison::Less ==> text_cmp(a, c) == Comparison::Less,
{
    lemma_text_lt_trichotomy(a, b);
    lemma_text_lt_trichotomy(b, c);
    lemma_text_lt_trichotomy(a, c);
    lemma_text_lt_irreflexive(a);
    if text_cmp(a, b) == Comparison::Less && text_cmp(b, c) == Comparison::Less {
        lemma_text_lt_transitive(a, b, c);
        lemma_text_lt_irreflexive(c);
    }
}

/// The order of two strings.
pub fn text_compare(a: &str, b: &str) -> (order: Comparison)
    ensures
        order == text_cmp(a@, b@),
{
    if str_eq(a, b) {
        Comparison::Equal
    } else if text_less(a, b) {
        Comparison::Less
    } else {
        Comparison::Greater
    }
}

} // verus!
