//! The outcome of semantic build preparation.

use vstd::prelude::*;

use crate::authoring_query::Comparison;
use crate::document::{LoadedDocument, ProjectDocuments, SourceDocument};
use crate::source_edit::{hex_string, hex_text, sha256, sha256_digest};
use crate::text::{chars_of, push_char};
use crate::text_order::{lemma_text_cmp_properties, text_cmp, text_compare};

verus! {

/// Where a prepared build stands: ready for the .NET builder.
#[derive(Debug, Clone, Copy, PartialEq, Eq, Structural)]
pub enum BuildStatus {
    ReadyForDotnet,
}

/// A path compared component by component: the separator stands below
/// every other character.
pub open spec fn component_key(path: Seq<char>) -> Seq<char> {
    path.map_values(|c: char| if c == '/' { '\0' } else { c })
}

/// Whether `a` comes strictly before `b` in path order.
pub open spec fn path_before(a: Seq<char>, b: Seq<char>) -> bool {
    text_cmp(component_key(a), component_key(b)) == Comparison::Less
}

/// The path and source of each schema and type document, in load order.
pub open spec fn schema_sources(files: Seq<LoadedDocument>) -> Seq<(Seq<char>, Seq<char>)>
    decreases files.len(),
{
    if files.len() == 0 {
        Seq::empty()
    } else {
        let rest = schema_sources(files.drop_last());
        match files.last().document {
            SourceDocument::Schema(_) | SourceDocument::Type(_) => rest.push((files.last().path@, files.last().source@)),
            _ => rest,
        }
    }
}

/// `entry` put into `sorted` after every entry whose path does not come
/// after its own.
pub open spec fn insert_by_path(sorted: Seq<(Seq<char>, Seq<char>)>, entry: (Seq<char>, Seq<char>))
    -> Seq<(Seq<char>, Seq<char>)>
    decreases sorted.len(),
{
    if sorted.len() == 0 {
        seq![entry]
    } else if path_before(entry.0, sorted.last().0) {
        insert_by_path(sorted.drop_last(), entry).push(sorted.last())
    } else {
        sorted.push(entry)
    }
}

/// The entries in ascending path order; entries with equal paths keep
/// their order.
pub open spec fn sort_by_path(entries: Seq<(Seq<char>, Seq<char>)>) -> Seq<(Seq<char>, Seq<char>)>
    decreases entries.len(),
{
    if entries.len() == 0 {
        Seq::empty()
    } else {
        insert_by_path(sort_by_path(entries.drop_last()), entries.last())
    }
}

/// The UTF-8 bytes of each entry's source, each followed by one zero byte.
pub open spec fn joined_sources(entries: Seq<(Seq<char>, Seq<char>)>) -> Seq<u8>
    decreases entries.len(),
{
    if entries.len() == 0 {
        Seq::empty()
    } else {
        joined_sources(entries.drop_last()) + vstd::utf8::encode_utf8(entries.last().1).push(0u8)
    }
}

/// The bytes that the schema source hash covers: the UTF-8 bytes of each
/// schema and type source in ascending path order, each followed by one
/// zero byte.
pub open spec fn schema_source_bytes(files: Seq<LoadedDocument>) -> Seq<u8> {
    joined_sources(sort_by_path(schema_sources(files)))
}

/// The paths and sources held as text.
pub open spec fn entries_view(entries: Seq<(String, String)>) -> Seq<(Seq<char>, Seq<char>)> {
    entries.map_values(|e: (String, String)| (e.0@, e.1@))
}

fn component_key_of(path: &str) -> (key: String)
    ensures
        key@ == component_key(path@),
{
    let chars = chars_of(path);
    let mut key = String::new();
    let mut i: usize = 0;
    while i < chars.len()
        invariant
            i <= chars@.len(),
            chars@ == path@,
            key@.len() == i,
            forall|j: int| 0 <= j < i ==> #[trigger] key@[j] == (if path@[j] == '/' { '\0' } else { path@[j] }),
        decreases chars@.len() - i,
    {
        let c = chars[i];
        if c == '/' {
            push_char(&mut key, '\0');
        } else {
            push_char(&mut key, c);
        }
        i = i + 1;
    }
    proof {
        assert(key@ =~= component_key(path@));
    }
    key
}

fn path_precedes(a: &str, b: &str) -> (before: bool)
    ensures
        before == path_before(a@, b@),
{
    let key_a = component_key_of(a);
    let key_b = component_key_of(b);
    text_compare(key_a.as_str(), key_b.as_str()) == Comparison::Less
}

fn insert_source(sorted: &mut Vec<(String, String)>, entry: (String, String))
    ensures
        entries_view(final(sorted)@) == insert_by_path(entries_view(old(sorted)@), (entry.0@, entry.1@)),
{
    let ghost s = entries_view(sorted@);
    let ghost e = (entry.0@, entry.1@);
    let mut k: usize = sorted.len();
    proof {
        assert(s.take(k as int) =~= s);
        assert(s.skip(k as int) =~= Seq::<(Seq<char>, Seq<char>)>::empty());
    }
    while k > 0 && path_precedes(entry.0.as_str(), sorted[k - 1].0.as_str())
        invariant
            k <= sorted@.len(),
            s == entries_view(sorted@),
            e == (entry.0@, entry.1@),
            insert_by_path(s, e) == insert_by_path(s.take(k as int), e) + s.skip(k as int),
        decreases k,
    {
        proof {
            let t = s.take(k as int);
            assert(t.drop_last() =~= s.take(k - 1));
            assert(t.last() == s[k - 1]);
            assert(insert_by_path(t, e) == insert_by_path(s.take(k - 1), e).push(s[k - 1]));
            assert(insert_by_path(s.take(k - 1), e).push(s[k - 1]) + s.skip(k as int)
                =~= insert_by_path(s.take(k - 1), e) + s.skip(k - 1));
        }
        k = k - 1;
    }
    proof {
        if k == 0 {
            assert(s.take(0) =~= Seq::<(Seq<char>, Seq<char>)>::empty());
        } else {
            let t = s.take(k as int);
            assert(t.last() == s[k - 1]);
            assert(insert_by_path(t, e) == t.push(e));
        }
    }
    sorted.insert(k, entry);
    proof {
        assert(entries_view(sorted@) =~= insert_by_path(s, e));
    }
}

fn append_source(bytes: &mut Vec<u8>, source: &str)
    ensures
        final(bytes)@ == old(bytes)@ + vstd::utf8::encode_utf8(source@).push(0u8),
{
    let encoded = source.as_bytes();
    let ghost start = bytes@;
    let mut i: usize = 0;
    proof {
        assert(encoded@.take(0) =~= Seq::<u8>::empty());
        assert(start + encoded@.take(0) =~= start);
    }
    while i < encoded.len()
        invariant
            i <= encoded@.len(),
            encoded@ == vstd::utf8::encode_utf8(source@),
            bytes@ == start + encoded@.take(i as int),
        decreases encoded@.len() - i,
    {
        bytes.push(encoded[i]);
        proof {
            assert(start + encoded@.take(i + 1) =~= (start + encoded@.take(i as int)).push(encoded@[i as int]));
        }
        i = i + 1;
    }
    bytes.push(0u8);
    proof {
        assert(encoded@.take(i as int) =~= encoded@);
        assert(bytes@ =~= start + encoded@.push(0u8));
    }
}

/// The schema source content hash of a project: the lowercase hexadecimal
/// SHA-256 digest of the UTF-8 bytes of its schema and type sources, taken
/// in ascending path order, each followed by one zero byte. It hashes the
/// source texts as written, not their meaning.
pub fn compute_schema_source_content_hash(documents: &ProjectDocuments) -> (hash: String)
    ensures
        hash@ == hex_text(sha256_digest(schema_source_bytes(documents.files@))),
{
    let files = &documents.files;
    let mut sorted: Vec<(String, String)> = Vec::new();
    let mut i: usize = 0;
    proof {
        assert(files@.take(0) =~= Seq::<LoadedDocument>::empty());
        assert(entries_view(sorted@) =~= Seq::<(Seq<char>, Seq<char>)>::empty());
    }
    while i < files.len()
        invariant
            i <= files@.len(),
            files@ == documents.files@,
            entries_view(sorted@) == sort_by_path(schema_sources(files@.take(i as int))),
        decreases files@.len() - i,
    {
        let ghost before = schema_sources(files@.take(i as int));
        proof {
            assert(files@.take(i + 1).drop_last() =~= files@.take(i as int));
            assert(files@.take(i + 1).last() == files@[i as int]);
        }
        match &files[i].document {
            SourceDocument::Schema(_) | SourceDocument::Type(_) => {
                let entry = (files[i].path.clone(), files[i].source.clone());
                insert_source(&mut sorted, entry);
                proof {
                    let e = (files@[i as int].path@, files@[i as int].source@);
                    assert(schema_sources(files@.take(i + 1)) == before.push(e));
                    assert(before.push(e).drop_last() =~= before);
                }
            },
            _ => {},
        }
        i = i + 1;
    }
    proof {
        assert(files@.take(i as int) =~= files@);
    }
    let ghost entries = entries_view(sorted@);
    let mut bytes: Vec<u8> = Vec::new();
    let mut j: usize = 0;
    proof {
        assert(entries.take(0) =~= Seq::<(Seq<char>, Seq<char>)>::empty());
    }
    while j < sorted.len()
        invariant
            j <= sorted@.len(),
            entries == entries_view(sorted@),
            bytes@ == joined_sources(entries.take(j as int)),
        decreases sorted@.len() - j,
    {
        append_source(&mut bytes, sorted[j].1.as_str());
        proof {
            assert(entries.take(j + 1).drop_last() =~= entries.take(j as int));
            assert(entries.take(j + 1).last() == entries[j as int]);
        }
        j = j + 1;
    }
    proof {
        assert(entries.take(j as int) =~= entries);
    }
    let digest = sha256(bytes.as_slice());
    hex_string(&digest)
}

proof fn lemma_insert_by_path_keeps_entries(sorted: Seq<(Seq<char>, Seq<char>)>, entry: (Seq<char>, Seq<char>))
    ensures
        insert_by_path(sorted, entry).to_multiset() =~= sorted.to_multiset().insert(entry),
    decreases sorted.len(),
{
    broadcast use vstd::seq_lib::group_to_multiset_ensures;
    if sorted.len() == 0 {
        assert(seq![entry] =~= Seq::<(Seq<char>, Seq<char>)>::empty().push(entry));
    } else {
        assert(sorted =~= sorted.drop_last().push(sorted.last()));
        if path_before(entry.0, sorted.last().0) {
            lemma_insert_by_path_keeps_entries(sorted.drop_last(), entry);
        }
    }
}

proof fn lemma_sort_by_path_keeps_entries(entries: Seq<(Seq<char>, Seq<char>)>)
    ensures
        sort_by_path(entries).to_multiset() =~= entries.to_multiset(),
    decreases entries.len(),
{
    broadcast use vstd::seq_lib::group_to_multiset_ensures;
    if entries.len() > 0 {
        lemma_sort_by_path_keeps_entries(entries.drop_last());
        lemma_insert_by_path_keeps_entries(sort_by_path(entries.drop_last()), entries.last());
        assert(entries =~= entries.drop_last().push(entries.last()));
    }
}

proof fn lemma_schema_sources_are_the_schema_and_type_files(files: Seq<LoadedDocument>)
    ensures
        forall|i: int| #![trigger files[i]] 0 <= i < files.len()
            && (files[i].document is Schema || files[i].document is Type)
            ==> schema_sources(files).contains((files[i].path@, files[i].source@)),
        forall|k: int| #![trigger schema_sources(files)[k]] 0 <= k < schema_sources(files).len() ==> exists|i: int| #![trigger files[i]] 0 <= i < files.len()
            && (files[i].document is Schema || files[i].document is Type)
            && schema_sources(files)[k] == (files[i].path@, files[i].source@),
    decreases files.len(),
{
    if files.len() > 0 {
        let before = files.drop_last();
        lemma_schema_sources_are_the_schema_and_type_files(before);
        let rest = schema_sources(before);
        let now = schema_sources(files);
        assert forall|i: int| #![trigger files[i]] 0 <= i < files.len()
            && (files[i].document is Schema || files[i].document is Type)
            implies now.contains((files[i].path@, files[i].source@)) by {
            if i < files.len() - 1 {
                assert(before[i] == files[i]);
                let k = choose|k: int| 0 <= k < rest.len() && rest[k] == (before[i].path@, before[i].source@);
                assert(now[k] == rest[k]);
            } else {
                assert(now[now.len() - 1] == (files[i].path@, files[i].source@));
            }
        }
        assert forall|k: int| #![trigger now[k]] 0 <= k < now.len() implies exists|i: int| #![trigger files[i]] 0 <= i < files.len()
            && (files[i].document is Schema || files[i].document is Type)
            && now[k] == (files[i].path@, files[i].source@) by {
            if k < rest.len() {
                assert(now[k] == rest[k]);
                let i = choose|i: int| #![trigger before[i]] 0 <= i < before.len()
                    && (before[i].document is Schema || before[i].document is Type)
                    && rest[k] == (before[i].path@, before[i].source@);
                assert(before[i] == files[i]);
            } else {
                assert(files[files.len() - 1] == files.last());
            }
        }
    }
}

/// The sources that the schema source hash covers are exactly those of
/// the schema and type documents: every schema and every type document's
/// path and source is among the hashed entries, and every hashed entry is
/// the path and source of a schema or type document. Data and view
/// documents are never hashed.
pub proof fn law_schema_hash_covers_schema_and_type_sources(files: Seq<LoadedDocument>)
    ensures
        forall|i: int| #![trigger files[i]] 0 <= i < files.len()
            && (files[i].document is Schema || files[i].document is Type)
            ==> sort_by_path(schema_sources(files)).contains((files[i].path@, files[i].source@)),
        forall|e: (Seq<char>, Seq<char>)| #[trigger] sort_by_path(schema_sources(files)).contains(e)
            ==> exists|i: int| #![trigger files[i]] 0 <= i < files.len()
                && (files[i].document is Schema || files[i].document is Type)
                && e == (files[i].path@, files[i].source@),
        sort_by_path(schema_sources(files)).len() == schema_sources(files).len(),
{
    broadcast use vstd::seq_lib::group_to_multiset_ensures;
    let entries = schema_sources(files);
    let sorted = sort_by_path(entries);
    lemma_sort_by_path_keeps_entries(entries);
    lemma_schema_sources_are_the_schema_and_type_files(files);
    assert forall|i: int| #![trigger files[i]] 0 <= i < files.len()
        && (files[i].document is Schema || files[i].document is Type)
        implies sorted.contains((files[i].path@, files[i].source@)) by {
        let e = (files[i].path@, files[i].source@);
        assert(entries.contains(e));
        assert(entries.to_multiset().count(e) > 0);
        assert(sorted.to_multiset().count(e) > 0);
    }
    assert forall|e: (Seq<char>, Seq<char>)| #[trigger] sorted.contains(e) implies exists|i: int| #![trigger files[i]]
        0 <= i < files.len() && (files[i].document is Schema || files[i].document is Type)
        && e == (files[i].path@, files[i].source@) by {
        assert(sorted.to_multiset().count(e) > 0);
        assert(entries.to_multiset().count(e) > 0);
        assert(entries.contains(e));
        let k = choose|k: int| 0 <= k < entries.len() && entries[k] == e;
        assert(entries[k] == e);
    }
    assert(sorted.to_multiset().len() == entries.to_multiset().len());
}

/// Each hashed source is in the hashed byte stream: its UTF-8 bytes
/// followed by one zero byte, at some offset.
pub proof fn law_hashed_entries_are_in_the_byte_stream(entries: Seq<(Seq<char>, Seq<char>)>, k: int)
    requires
        0 <= k < entries.len(),
    ensures
        exists|at: int| 0 <= at && at + vstd::utf8::encode_utf8(entries[k].1).len() + 1 <= joined_sources(entries).len()
            && #[trigger] joined_sources(entries).subrange(at, at + vstd::utf8::encode_utf8(entries[k].1).len() + 1)
                == vstd::utf8::encode_utf8(entries[k].1).push(0u8),
    decreases entries.len(),
{
    let before = entries.drop_last();
    let piece = vstd::utf8::encode_utf8(entries.last().1).push(0u8);
    let whole = joined_sources(entries);
    assert(whole == joined_sources(before) + piece);
    if k == entries.len() - 1 {
        let at = joined_sources(before).len() as int;
        let enc = vstd::utf8::encode_utf8(entries[k].1);
        assert(entries.last() == entries[k]);
        assert(whole.subrange(at, at + enc.len() + 1) =~= enc.push(0u8));
    } else {
        law_hashed_entries_are_in_the_byte_stream(before, k);
        assert(before[k] == entries[k]);
        let enc = vstd::utf8::encode_utf8(entries[k].1);
        let at = choose|at: int| 0 <= at && at + enc.len() + 1 <= joined_sources(before).len()
            && #[trigger] joined_sources(before).subrange(at, at + enc.len() + 1) == enc.push(0u8);
        assert(whole.subrange(at, at + enc.len() + 1) =~= joined_sources(before).subrange(at, at + enc.len() + 1));
        assert(whole.subrange(at, at + enc.len() + 1) == enc.push(0u8));
    }
}

/// Whether the entries stand in ascending path order: none comes after
/// an entry whose path comes after its own.
pub open spec fn path_ascending(entries: Seq<(Seq<char>, Seq<char>)>) -> bool {
    forall|a: int, b: int| 0 <= a < b < entries.len() ==> !path_before(#[trigger] entries[b].0, #[trigger] entries[a].0)
}

proof fn lemma_path_before_order(x: Seq<char>, y: Seq<char>, z: Seq<char>)
    ensures
        path_before(x, y) ==> !path_before(y, x),
        !path_before(x, y) && !path_before(y, z) ==> !path_before(x, z),
{
    lemma_text_cmp_properties(component_key(x), component_key(y), component_key(z));
    lemma_text_cmp_properties(component_key(y), component_key(x), component_key(z));
    lemma_text_cmp_properties(component_key(z), component_key(y), component_key(x));
    lemma_text_cmp_properties(component_key(x), component_key(z), component_key(y));
    lemma_text_cmp_properties(component_key(y), component_key(z), component_key(x));
    lemma_text_cmp_properties(component_key(z), component_key(x), component_key(y));
}

proof fn lemma_insert_by_path_ascending(sorted: Seq<(Seq<char>, Seq<char>)>, entry: (Seq<char>, Seq<char>))
    requires
        path_ascending(sorted),
    ensures
        path_ascending(insert_by_path(sorted, entry)),
        insert_by_path(sorted, entry).len() == sorted.len() + 1,
        forall|k: int| 0 <= k < insert_by_path(sorted, entry).len() ==> (#[trigger] insert_by_path(sorted, entry)[k] == entry
            || sorted.contains(insert_by_path(sorted, entry)[k])),
    decreases sorted.len(),
{
    if sorted.len() > 0 {
        let last = sorted.last();
        let rest = sorted.drop_last();
        if path_before(entry.0, last.0) {
            assert(path_ascending(rest));
            lemma_insert_by_path_ascending(rest, entry);
            let inner = insert_by_path(rest, entry);
            let result = inner.push(last);
            assert forall|a: int, b: int| 0 <= a < b < result.len() implies !path_before(#[trigger] result[b].0, #[trigger] result[a].0) by {
                if b == result.len() - 1 {
                    assert(result[b] == last);
                    assert(result[a] == inner[a]);
                    if inner[a] == entry {
                        lemma_path_before_order(entry.0, last.0, last.0);
                    } else {
                        let m = choose|m: int| 0 <= m < rest.len() && rest[m] == inner[a];
                        assert(sorted[m] == rest[m]);
                        assert(sorted[sorted.len() - 1] == last);
                    }
                } else {
                    assert(result[a] == inner[a] && result[b] == inner[b]);
                }
            }
            assert forall|k: int| 0 <= k < result.len() implies (#[trigger] result[k] == entry || sorted.contains(result[k])) by {
                if k == result.len() - 1 {
                    assert(sorted[sorted.len() - 1] == last);
                } else {
                    assert(result[k] == inner[k]);
                    if inner[k] != entry {
                        let m = choose|m: int| 0 <= m < rest.len() && rest[m] == inner[k];
                        assert(sorted[m] == rest[m]);
                    }
                }
            }
        } else {
            let result = sorted.push(entry);
            assert forall|a: int, b: int| 0 <= a < b < result.len() implies !path_before(#[trigger] result[b].0, #[trigger] result[a].0) by {
                if b == result.len() - 1 {
                    assert(result[b] == entry);
                    assert(result[a] == sorted[a]);
                    if a < sorted.len() - 1 {
                        assert(!path_before(sorted[sorted.len() - 1].0, sorted[a].0));
                    }
                    lemma_path_before_order(entry.0, last.0, sorted[a].0);
                } else {
                    assert(result[a] == sorted[a] && result[b] == sorted[b]);
                }
            }
            assert forall|k: int| 0 <= k < result.len() implies (#[trigger] result[k] == entry || sorted.contains(result[k])) by {
                if k < sorted.len() {
                    assert(result[k] == sorted[k]);
                }
            }
        }
    }
}

proof fn lemma_sort_by_path_ascending(entries: Seq<(Seq<char>, Seq<char>)>)
    ensures
        path_ascending(sort_by_path(entries)),
    decreases entries.len(),
{
    if entries.len() > 0 {
        lemma_sort_by_path_ascending(entries.drop_last());
        lemma_insert_by_path_ascending(sort_by_path(entries.drop_last()), entries.last());
    }
}

/// The hashed sources stand in ascending path order.
pub proof fn law_schema_hash_takes_sources_in_path_order(files: Seq<LoadedDocument>)
    ensures
        path_ascending(sort_by_path(schema_sources(files))),
{
    lemma_sort_by_path_ascending(schema_sources(files));
}

} // verus!
