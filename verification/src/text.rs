use vstd::prelude::*;
use vstd::std_specs::iter::IteratorSpec;

verus! {

/// The characters of a string, in order.
pub fn chars_of(text: &str) -> (chars: Vec<char>)
    ensures
        chars@ == text@,
{
    let mut chars: Vec<char> = Vec::new();
    let mut iter = text.chars();
    let ghost all = text@;
    loop
        invariant
            iter.obeys_prophetic_iter_laws(),
            all == text@,
            chars@ + iter.remaining() == all,
            iter.decrease() is Some,
        ensures
            chars@ == text@,
        decreases iter.decrease()->0,
    {
        let ghost before = iter.remaining();
        match iter.next() {
            Some(c) => {
                proof {
                    assert(before.len() > 0);
                }
                chars.push(c);
                proof {
                    assert(chars@ + iter.remaining() =~= all);
                }
            },
            None => {
                proof {
                    assert(before.len() == 0);
                    assert(chars@ =~= all);
                }
                break;
            },
        }
    }
    chars
}

/// Appends one character (std `String::push`).
#[verifier::external_body]
pub fn push_char(text: &mut String, c: char)
    ensures
        final(text)@ == old(text)@.push(c),
{
    text.push(c);
}

/// The string made of the given characters.
pub fn string_from_chars(chars: &[char]) -> (text: String)
    ensures
        text@ == chars@,
{
    let mut text = String::new();
    let mut i: usize = 0;
    while i < chars.len()
        invariant
            i <= chars@.len(),
            text@ == chars@.subrange(0, i as int),
        decreases chars@.len() - i,
    {
        push_char(&mut text, chars[i]);
        proof {
            assert(chars@.subrange(0, i + 1) =~= chars@.subrange(0, i as int).push(chars@[i as int]));
        }
        i = i + 1;
    }
    proof {
        assert(chars@.subrange(0, chars@.len() as int) =~= chars@);
    }
    text
}

/// The string made of `chars[start..end]`.
pub fn string_from_range(chars: &[char], start: usize, end: usize) -> (text: String)
    requires
        start <= end <= chars@.len(),
    ensures
        text@ == chars@.subrange(start as int, end as int),
{
    let mut text = String::new();
    let mut i: usize = start;
    while i < end
        invariant
            start <= i <= end,
            end <= chars@.len(),
            text@ == chars@.subrange(start as int, i as int),
        decreases end - i,
    {
        push_char(&mut text, chars[i]);
        proof {
            assert(chars@.subrange(start as int, i + 1) =~= chars@.subrange(start as int, i as int).push(chars@[i as int]));
        }
        i = i + 1;
    }
    text
}

/// Whether two strings hold the same characters.
pub fn str_eq(left: &str, right: &str) -> (equal: bool)
    ensures
        equal == (left@ == right@),
{
    let l = chars_of(left);
    let r = chars_of(right);
    chars_eq(&l, &r)
}

/// Whether two character sequences are equal.
pub fn chars_eq(left: &[char], right: &[char]) -> (equal: bool)
    ensures
        equal == (left@ == right@),
{
    if left.len() != right.len() {
        return false;
    }
    let mut i: usize = 0;
    while i < left.len()
        invariant
            left@.len() == right@.len(),
            i <= left@.len(),
            forall|j: int| 0 <= j < i ==> left@[j] == right@[j],
        decreases left@.len() - i,
    {
        if left[i] != right[i] {
            return false;
        }
        i = i + 1;
    }
    proof {
        assert(left@ =~= right@);
    }
    true
}

/// Whether `needle` occurs in `hay` starting at `at`.
pub open spec fn occurs_at(hay: Seq<char>, needle: Seq<char>, at: int) -> bool {
    0 <= at && at + needle.len() <= hay.len() && hay.subrange(at, at + needle.len()) == needle
}

/// Whether `needle` occurs anywhere in `hay` (`str::contains`).
pub open spec fn contains_text(hay: Seq<char>, needle: Seq<char>) -> bool {
    exists|at: int| occurs_at(hay, needle, at)
}

/// Whether `needle` occurs in `hay` at position `at`.
pub fn matches_at(hay: &[char], needle: &[char], at: usize) -> (found: bool)
    ensures
        found == occurs_at(hay@, needle@, at as int),
{
    if at > hay.len() || needle.len() > hay.len() - at {
        return false;
    }
    let mut j: usize = 0;
    while j < needle.len()
        invariant
            hay@.len() <= usize::MAX,
            at + needle@.len() <= hay@.len(),
            j <= needle@.len(),
            forall|k: int| 0 <= k < j ==> hay@[at + k] == needle@[k],
        decreases needle@.len() - j,
    {
        if hay[at + j] != needle[j] {
            proof {
                assert(hay@.subrange(at as int, at + needle@.len())[j as int] != needle@[j as int]);
            }
            return false;
        }
        j = j + 1;
    }
    proof {
        assert(hay@.subrange(at as int, at + needle@.len()) =~= needle@);
    }
    true
}

/// Substring search (`str::contains`).
pub fn contains_chars(hay: &[char], needle: &[char]) -> (found: bool)
    ensures
        found == contains_text(hay@, needle@),
{
    if needle.len() > hay.len() {
        proof {
            assert forall|at: int| !occurs_at(hay@, needle@, at) by {}
        }
        return false;
    }
    let last = hay.len() - needle.len();
    let mut at: usize = 0;
    loop
        invariant
            last == hay@.len() - needle@.len(),
            needle@.len() <= hay@.len(),
            at <= last,
            forall|k: int| 0 <= k < at ==> !occurs_at(hay@, needle@, k),
        ensures
            forall|k: int| 0 <= k <= last ==> !occurs_at(hay@, needle@, k),
        decreases last - at,
    {
        if matches_at(hay, needle, at) {
            return true;
        }
        if at == last {
            break;
        }
        at = at + 1;
    }
    proof {
        assert forall|k: int| !occurs_at(hay@, needle@, k) by {
            if 0 <= k <= last {
            }
        }
    }
    false
}

/// The text without leading and trailing ASCII whitespace.
pub open spec fn is_ascii_whitespace(c: char) -> bool {
    c == ' ' || c == '\t' || c == '\n' || c == '\r' || c == '\x0C'
}

/// Whether a list of strings holds `item`.
pub fn strings_contain(list: &Vec<String>, item: &str) -> (found: bool)
    ensures
        found == list.deep_view().contains(item@),
{
    let mut i: usize = 0;
    while i < list.len()
        invariant
            i <= list@.len(),
            forall|j: int| 0 <= j < i ==> list@[j]@ != item@,
        decreases list@.len() - i,
    {
        if str_eq(list[i].as_str(), item) {
            proof {
                assert(list.deep_view()[i as int] == item@);
            }
            return true;
        }
        i = i + 1;
    }
    proof {
        if list.deep_view().contains(item@) {
            let k = choose|k: int| 0 <= k < list.deep_view().len() && list.deep_view()[k] == item@;
            assert(list@[k]@ == item@);
        }
    }
    false
}

/// `text[..first] + insert + text[last..]`.
pub fn splice_chars(text: &Vec<char>, first: usize, last: usize, insert: &Vec<char>) -> (out: Vec<char>)
    requires
        first <= last <= text@.len(),
    ensures
        out@ == text@.subrange(0, first as int) + insert@ + text@.subrange(last as int, text@.len() as int),
{
    let mut out: Vec<char> = Vec::new();
    let mut i: usize = 0;
    while i < first
        invariant
            i <= first <= last <= text@.len(),
            out@ == text@.subrange(0, i as int),
        decreases first - i,
    {
        out.push(text[i]);
        proof {
            assert(text@.subrange(0, i + 1) =~= text@.subrange(0, i as int).push(text@[i as int]));
        }
        i = i + 1;
    }
    let mut j: usize = 0;
    while j < insert.len()
        invariant
            j <= insert@.len(),
            out@ == text@.subrange(0, first as int) + insert@.subrange(0, j as int),
        decreases insert@.len() - j,
    {
        out.push(insert[j]);
        proof {
            assert(insert@.subrange(0, j + 1) =~= insert@.subrange(0, j as int).push(insert@[j as int]));
        }
        j = j + 1;
    }
    proof {
        assert(insert@.subrange(0, j as int) =~= insert@);
    }
    let mut k: usize = last;
    while k < text.len()
        invariant
            last <= k <= text@.len(),
            out@ == text@.subrange(0, first as int) + insert@ + text@.subrange(last as int, k as int),
        decreases text@.len() - k,
    {
        out.push(text[k]);
        proof {
            assert(text@.subrange(last as int, k + 1) =~= text@.subrange(last as int, k as int).push(text@[k as int]));
        }
        k = k + 1;
    }
    out
}

} // verus!
