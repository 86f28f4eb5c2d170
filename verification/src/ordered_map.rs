use vstd::prelude::*;
use indexmap::IndexMap;
use crate::clipboard::{ClipboardEntry, ClipboardEntryView};

verus! {

#[verifier::external_type_specification]
#[verifier::external_body]
#[verifier::reject_recursive_types(K)]
#[verifier::reject_recursive_types(V)]
#[verifier::reject_recursive_types(S)]
pub struct ExIndexMap<K, V, S>(IndexMap<K, V, S>);

/// The key-value pairs that a map of favourites holds, in the map's order.
pub uninterp spec fn favourite_pairs(m: IndexMap<String, String>) -> Seq<(Seq<char>, Seq<char>)>;

/// The key-value pairs that a map of clipboard entries holds, in the map's order.
pub uninterp spec fn entry_pairs(m: IndexMap<String, ClipboardEntry>) -> Seq<(Seq<char>, ClipboardEntryView)>;

/// The place of the first pair of `pairs` whose key is `key`.
pub open spec fn key_index<V>(pairs: Seq<(Seq<char>, V)>, key: Seq<char>) -> Option<int>
    decreases pairs.len(),
{
    if pairs.len() == 0 {
        None
    } else if pairs[0].0 == key {
        Some(0)
    } else {
        match key_index(pairs.drop_first(), key) {
            Some(i) => Some(i + 1),
            None => None,
        }
    }
}

/// The value that `pairs` holds under `key`.
pub open spec fn lookup<V>(pairs: Seq<(Seq<char>, V)>, key: Seq<char>) -> Option<V> {
    match key_index(pairs, key) {
        Some(i) => Some(pairs[i].1),
        None => None,
    }
}

/// `pairs` after an insertion of `value` under `key`: a key already there keeps its
/// place and takes the new value; a new key goes last.
pub open spec fn insert_pair<V>(pairs: Seq<(Seq<char>, V)>, key: Seq<char>, value: V) -> Seq<(Seq<char>, V)> {
    match key_index(pairs, key) {
        Some(i) => pairs.update(i, (key, value)),
        None => pairs.push((key, value)),
    }
}

/// `pairs` after the insertion of each of `added`, in order.
pub open spec fn insert_all<V>(pairs: Seq<(Seq<char>, V)>, added: Seq<(Seq<char>, V)>) -> Seq<(Seq<char>, V)>
    decreases added.len(),
{
    if added.len() == 0 {
        pairs
    } else {
        insert_pair(insert_all(pairs, added.drop_last()), added.last().0, added.last().1)
    }
}

/// Whether no key occurs twice in `pairs`.
pub open spec fn keys_unique<V>(pairs: Seq<(Seq<char>, V)>) -> bool {
    forall|i: int, j: int| 0 <= i < j < pairs.len() ==> pairs[i].0 != pairs[j].0
}

/// The keys of `pairs`, in order.
pub open spec fn keys_of<V>(pairs: Seq<(Seq<char>, V)>) -> Seq<Seq<char>> {
    pairs.map_values(|p: (Seq<char>, V)| p.0)
}

/// Calls `IndexMap::new`. Claimed: the map is empty.
#[verifier::external_body]
pub(crate) fn favourites_new() -> (m: IndexMap<String, String>)
    ensures
        favourite_pairs(m) == Seq::<(Seq<char>, Seq<char>)>::empty(),
{
    IndexMap::new()
}

/// Calls `IndexMap::insert`. Claimed, as its documentation says: a key already present
/// keeps its place and takes the new value; a new key is appended last.
#[verifier::external_body]
pub(crate) fn favourites_insert(m: &mut IndexMap<String, String>, key: String, value: String)
    ensures
        favourite_pairs(*final(m)) == insert_pair(favourite_pairs(*old(m)), key@, value@),
{
    m.insert(key, value);
}

/// Calls `IndexMap::len`. Claimed: the number of pairs.
#[verifier::external_body]
pub(crate) fn favourites_len(m: &IndexMap<String, String>) -> (n: usize)
    ensures
        n == favourite_pairs(*m).len(),
{
    m.len()
}

/// Calls `IndexMap::get_index`. Claimed: the pair at place `i` in the map's order, if
/// there is one.
#[verifier::external_body]
pub(crate) fn favourites_get_index(m: &IndexMap<String, String>, i: usize) -> (r: Option<(&String, &String)>)
    ensures
        match r {
            Some(p) => i < favourite_pairs(*m).len() && (p.0@, p.1@) == favourite_pairs(*m)[i as int],
            None => i >= favourite_pairs(*m).len(),
        },
{
    m.get_index(i)
}

/// Calls `IndexMap::new`. Claimed: the map is empty.
#[verifier::external_body]
pub(crate) fn entries_new() -> (m: IndexMap<String, ClipboardEntry>)
    ensures
        entry_pairs(m) == Seq::<(Seq<char>, ClipboardEntryView)>::empty(),
{
    IndexMap::new()
}

/// Calls `IndexMap::insert`. Claimed, as its documentation says: a key already present
/// keeps its place and takes the new value; a new key is appended last.
#[verifier::external_body]
pub(crate) fn entries_insert(m: &mut IndexMap<String, ClipboardEntry>, key: String, value: ClipboardEntry)
    ensures
        entry_pairs(*final(m)) == insert_pair(entry_pairs(*old(m)), key@, value@),
{
    m.insert(key, value);
}

/// Calls `IndexMap::len`. Claimed: the number of pairs.
#[verifier::external_body]
pub(crate) fn entries_len(m: &IndexMap<String, ClipboardEntry>) -> (n: usize)
    ensures
        n == entry_pairs(*m).len(),
{
    m.len()
}

/// Calls `IndexMap::get_index`. Claimed: the pair at place `i` in the map's order, if
/// there is one.
#[verifier::external_body]
pub(crate) fn entries_get_index(m: &IndexMap<String, ClipboardEntry>, i: usize) -> (r: Option<(&String, &ClipboardEntry)>)
    ensures
        match r {
            Some(p) => i < entry_pairs(*m).len() && (p.0@, p.1@) == entry_pairs(*m)[i as int],
            None => i >= entry_pairs(*m).len(),
        },
{
    m.get_index(i)
}

/// Calls `IndexMap::get`. Claimed: the value stored under `key`, if any (the map keeps
/// one pair per key, so it is the one at the key's first place).
#[verifier::external_body]
pub(crate) fn entries_get<'a>(m: &'a IndexMap<String, ClipboardEntry>, key: &str) -> (r: Option<&'a ClipboardEntry>)
    ensures
        match r {
            Some(e) => lookup(entry_pairs(*m), key@) == Some(e@),
            None => lookup(entry_pairs(*m), key@) is None,
        },
{
    m.get(key)
}

/// The place found for a key holds that key, and no earlier place does.
pub proof fn lemma_key_index<V>(pairs: Seq<(Seq<char>, V)>, key: Seq<char>)
    ensures
        match key_index(pairs, key) {
            Some(i) => 0 <= i < pairs.len() && pairs[i].0 == key
                && forall|j: int| 0 <= j < i ==> pairs[j].0 != key,
            None => forall|j: int| 0 <= j < pairs.len() ==> pairs[j].0 != key,
        },
    decreases pairs.len(),
{
    if pairs.len() > 0 && pairs[0].0 != key {
        let t = pairs.drop_first();
        lemma_key_index(t, key);
        match key_index(t, key) {
            Some(i) => {
                assert forall|j: int| 0 <= j < i + 1 implies pairs[j].0 != key by {
                    if j > 0 {
                        assert(pairs[j] == t[j - 1]);
                    }
                }
            },
            None => {
                assert forall|j: int| 0 <= j < pairs.len() implies pairs[j].0 != key by {
                    if j > 0 {
                        assert(pairs[j] == t[j - 1]);
                    }
                }
            },
        }
    }
}

/// Where no earlier place holds a key, the first place that does is found.
proof fn lemma_key_index_at<V>(pairs: Seq<(Seq<char>, V)>, key: Seq<char>, i: int)
    requires
        0 <= i < pairs.len(),
        pairs[i].0 == key,
        forall|j: int| 0 <= j < i ==> pairs[j].0 != key,
    ensures
        key_index(pairs, key) == Some(i),
{
    lemma_key_index(pairs, key);
    match key_index(pairs, key) {
        Some(k) => {
            if k < i {
            } else if k > i {
            }
        },
        None => {},
    }
}

/// Reading a key after an insertion gives the inserted value under that key, and what
/// was there before under every other key.
pub proof fn lemma_insert_then_lookup<V>(pairs: Seq<(Seq<char>, V)>, key: Seq<char>, value: V, other: Seq<char>)
    ensures
        lookup(insert_pair(pairs, key, value), key) == Some(value),
        other != key ==> lookup(insert_pair(pairs, key, value), other) == lookup(pairs, other),
{
    let r = insert_pair(pairs, key, value);
    lemma_key_index(pairs, key);
    lemma_key_index(pairs, other);
    match key_index(pairs, key) {
        Some(i) => {
            lemma_key_index_at(r, key, i);
            if other != key {
                match key_index(pairs, other) {
                    Some(k) => {
                        lemma_key_index_at(r, other, k);
                    },
                    None => {
                        lemma_key_index(r, other);
                        if key_index(r, other) is Some {
                            let k: int = key_index(r, other)->0;
                            assert(r[k].0 == pairs[k].0 || k == i);
                        }
                    },
                }
            }
        },
        None => {
            lemma_key_index_at(r, key, pairs.len() as int);
            if other != key {
                match key_index(pairs, other) {
                    Some(k) => {
                        lemma_key_index_at(r, other, k);
                    },
                    None => {
                        lemma_key_index(r, other);
                        if key_index(r, other) is Some {
                            let k: int = key_index(r, other)->0;
                            assert(k < pairs.len() ==> r[k] == pairs[k]);
                        }
                    },
                }
            }
        },
    }
}

/// An insertion keeps every key once, and adds one pair exactly when the key is new.
pub proof fn lemma_insert_keeps_keys_unique<V>(pairs: Seq<(Seq<char>, V)>, key: Seq<char>, value: V)
    requires
        keys_unique(pairs),
    ensures
        keys_unique(insert_pair(pairs, key, value)),
        insert_pair(pairs, key, value).len() == pairs.len() + (if lookup(pairs, key) is None { 1int } else { 0int }),
{
    lemma_key_index(pairs, key);
    let r = insert_pair(pairs, key, value);
    assert forall|i: int, j: int| 0 <= i < j < r.len() implies r[i].0 != r[j].0 by {
        if j == pairs.len() {
            assert(r[i] == pairs[i]);
        }
    }
}

/// The pairs that an insertion of each of `added` leaves, when no key of `added` occurs
/// twice: under each key of `added`, its value.
pub proof fn lemma_insert_all_lookup<V>(pairs: Seq<(Seq<char>, V)>, added: Seq<(Seq<char>, V)>, j: int)
    requires
        keys_unique(added),
        0 <= j < added.len(),
    ensures
        lookup(insert_all(pairs, added), added[j].0) == Some(added[j].1),
    decreases added.len(),
{
    let last = added.last();
    let rest = added.drop_last();
    lemma_insert_then_lookup(insert_all(pairs, rest), last.0, last.1, added[j].0);
    if j < added.len() - 1 {
        assert(rest[j] == added[j]);
        assert(keys_unique(rest));
        lemma_insert_all_lookup(pairs, rest, j);
    }
}

/// Inserting pairs whose keys are all different into nothing gives back those pairs.
pub proof fn lemma_insert_all_unique<V>(added: Seq<(Seq<char>, V)>)
    requires
        keys_unique(added),
    ensures
        insert_all(Seq::<(Seq<char>, V)>::empty(), added) == added,
    decreases added.len(),
{
    if added.len() > 0 {
        let rest = added.drop_last();
        assert(keys_unique(rest));
        lemma_insert_all_unique(rest);
        lemma_key_index(rest, added.last().0);
        assert forall|j: int| 0 <= j < rest.len() implies rest[j].0 != added.last().0 by {
            assert(rest[j] == added[j]);
        }
        assert(rest.push(added.last()) =~= added);
    }
}

} // verus!
