//! The insertion-ordered map of the `linked_hash_map` crate, as this library
//! uses it: with `usize` keys and values, as a sequence of entries that runs
//! from the oldest entry (the front) to the newest (the back).
//!
//! The functions at the end of this file call into that crate. Verus does not
//! see their bodies: what each contract says of the crate's map is assumed, not
//! proved.

use linked_hash_map::LinkedHashMap;
use vstd::prelude::*;

verus! {

/// The map type of the `linked_hash_map` crate. Nothing inside a value of it
/// is visible here.
#[verifier::external_type_specification]
#[verifier::external_body]
#[verifier::reject_recursive_types(K)]
#[verifier::reject_recursive_types(V)]
#[verifier::reject_recursive_types(S)]
pub struct ExLinkedHashMap<K, V, S>(LinkedHashMap<K, V, S>);

/// The entries of `map` as pairs of a key and its value, in the order in which
/// the map links them: the front entry first, the back entry last. Being a
/// map, it holds no key twice; the types that hold one prove as much of
/// theirs, from the contracts below.
pub uninterp spec fn entries(map: LinkedHashMap<usize, usize>) -> Seq<(usize, usize)>;

/// Some entry of `s` has the key `key`.
pub open spec fn has_key(s: Seq<(usize, usize)>, key: usize) -> bool {
    exists|i: int| 0 <= i < s.len() && (#[trigger] s[i]).0 == key
}

/// The place of an entry with the key `key`, where there is one.
pub open spec fn position(s: Seq<(usize, usize)>, key: usize) -> int {
    choose|i: int| 0 <= i < s.len() && (#[trigger] s[i]).0 == key
}

/// The value that `s` holds for `key`.
pub open spec fn value_of(s: Seq<(usize, usize)>, key: usize) -> Option<usize> {
    if has_key(s, key) {
        Some(s[position(s, key)].1)
    } else {
        None
    }
}

/// `s` with the entry for `key` taken out, the others keeping their order.
pub open spec fn without(s: Seq<(usize, usize)>, key: usize) -> Seq<(usize, usize)> {
    if has_key(s, key) {
        s.remove(position(s, key))
    } else {
        s
    }
}

/// No two entries of `s` share a key.
pub open spec fn distinct_keys(s: Seq<(usize, usize)>) -> bool {
    forall|i: int, j: int| 0 <= i < j < s.len() ==> (#[trigger] s[i]).0 != (#[trigger] s[j]).0
}

/// The keys of `s`, in its order.
pub open spec fn keys(s: Seq<(usize, usize)>) -> Seq<usize> {
    Seq::new(s.len(), |i: int| s[i].0)
}

/// Where keys are distinct, the entry for a key is found at one place only.
pub proof fn lemma_position(s: Seq<(usize, usize)>, i: int)
    requires
        distinct_keys(s),
        0 <= i < s.len(),
    ensures
        has_key(s, s[i].0),
        position(s, s[i].0) == i,
        value_of(s, s[i].0) == Some(s[i].1),
        without(s, s[i].0) == s.remove(i),
{
    let j = position(s, s[i].0);
    assert(0 <= j < s.len() && s[j].0 == s[i].0);
    if j < i {
        assert(s[j].0 != s[i].0);
    } else if i < j {
        assert(s[i].0 != s[j].0);
    }
}

/// Taking a key out leaves the keys distinct, leaves no entry for that key, and
/// leaves every other key with its value.
pub proof fn lemma_without(s: Seq<(usize, usize)>, key: usize)
    requires
        distinct_keys(s),
    ensures
        distinct_keys(without(s, key)),
        !has_key(without(s, key), key),
        without(s, key).len() == if has_key(s, key) {
            s.len() - 1
        } else {
            s.len() as int
        },
        forall|other: usize|
            other != key ==> has_key(without(s, key), other) == has_key(s, other) && value_of(
                without(s, key),
                other,
            ) == value_of(s, other),
{
    let t = without(s, key);
    if has_key(s, key) {
        let p = position(s, key);
        assert(0 <= p < s.len() && s[p].0 == key);
        assert forall|i: int| 0 <= i < t.len() implies #[trigger] t[i] == s[if i < p {
            i
        } else {
            i + 1
        }] by {}
        assert forall|i: int, j: int| 0 <= i < j < t.len() implies (#[trigger] t[i]).0 != (
        #[trigger] t[j]).0 by {
            let a = if i < p { i } else { i + 1 };
            let b = if j < p { j } else { j + 1 };
            assert(s[a].0 != s[b].0);
        }
        if has_key(t, key) {
            let q = position(t, key);
            let b = if q < p { q } else { q + 1 };
            assert(t[q] == s[b]);
            if b < p {
                assert(s[b].0 != s[p].0);
            } else {
                assert(s[p].0 != s[b].0);
            }
        }
        assert forall|other: usize| other != key implies has_key(t, other) == has_key(s, other)
            && value_of(t, other) == value_of(s, other) by {
            if has_key(s, other) {
                let a = position(s, other);
                assert(a != p);
                let q = if a < p { a } else { a - 1 };
                assert(t[q] == s[a]);
                lemma_position(t, q);
                lemma_position(s, a);
            }
            if has_key(t, other) {
                let q = position(t, other);
                let a = if q < p { q } else { q + 1 };
                assert(s[a] == t[q]);
                lemma_position(s, a);
                lemma_position(t, q);
            }
        }
    }
}

/// Putting an entry at the back of a sequence that holds no entry for its key
/// leaves the keys distinct; the new key then has the new value, and every
/// other key the value it had.
pub proof fn lemma_push(s: Seq<(usize, usize)>, key: usize, value: usize)
    requires
        distinct_keys(s),
        !has_key(s, key),
    ensures
        distinct_keys(s.push((key, value))),
        has_key(s.push((key, value)), key),
        value_of(s.push((key, value)), key) == Some(value),
        position(s.push((key, value)), key) == s.len(),
        forall|other: usize|
            other != key ==> has_key(s.push((key, value)), other) == has_key(s, other) && value_of(
                s.push((key, value)),
                other,
            ) == value_of(s, other),
{
    let t = s.push((key, value));
    assert forall|i: int, j: int| 0 <= i < j < t.len() implies (#[trigger] t[i]).0 != (
    #[trigger] t[j]).0 by {
        if j == s.len() {
            assert(t[i] == s[i]);
        } else {
            assert(t[i] == s[i] && t[j] == s[j]);
        }
    }
    assert(t[s.len() as int].0 == key);
    lemma_position(t, s.len() as int);
    assert forall|other: usize| other != key implies has_key(t, other) == has_key(s, other)
        && value_of(t, other) == value_of(s, other) by {
        if has_key(s, other) {
            let a = position(s, other);
            assert(t[a] == s[a]);
            lemma_position(t, a);
            lemma_position(s, a);
        }
        if has_key(t, other) {
            let q = position(t, other);
            assert(q != s.len());
            assert(s[q] == t[q]);
            lemma_position(s, q);
            lemma_position(t, q);
        }
    }
}

/// The keys of a sequence of entries are distinct just when no key occurs twice
/// in the sequence of its keys, and a key is held just when that sequence
/// contains it, at the place of its entry.
pub proof fn lemma_keys(s: Seq<(usize, usize)>)
    ensures
        keys(s).len() == s.len(),
        distinct_keys(s) <==> keys(s).no_duplicates(),
        forall|key: usize| has_key(s, key) <==> keys(s).contains(key),
        forall|key: usize|
            distinct_keys(s) && has_key(s, key) ==> position(s, key) == keys(s).index_of(key),
{
    let k = keys(s);
    if distinct_keys(s) {
        assert forall|i: int, j: int| 0 <= i < k.len() && 0 <= j < k.len() && i != j implies k[i]
            != k[j] by {
            if i < j {
                assert(s[i].0 != s[j].0);
            } else {
                assert(s[j].0 != s[i].0);
            }
        }
    }
    if k.no_duplicates() {
        assert forall|i: int, j: int| 0 <= i < j < s.len() implies (#[trigger] s[i]).0 != (
        #[trigger] s[j]).0 by {
            assert(k[i] != k[j]);
        }
    }
    assert forall|key: usize| has_key(s, key) <==> k.contains(key) by {
        if has_key(s, key) {
            let p = position(s, key);
            assert(k[p] == key);
        }
        if k.contains(key) {
            let i = choose|i: int| 0 <= i < k.len() && k[i] == key;
            assert(s[i].0 == key);
        }
    }
    assert forall|key: usize| distinct_keys(s) && has_key(s, key) implies position(s, key)
        == k.index_of(key) by {
        let p = position(s, key);
        assert(k[p] == key);
        let q = k.index_of(key);
        assert(0 <= q < k.len() && k[q] == key);
        assert(s[q].0 == key);
        lemma_position(s, q);
    }
}

/// The keys of a changed sequence of entries are the keys of the sequence,
/// changed in the same way.
pub proof fn lemma_keys_of_changes(s: Seq<(usize, usize)>, entry: (usize, usize), i: int)
    ensures
        keys(s.push(entry)) == keys(s).push(entry.0),
        s.len() > 0 ==> keys(s.drop_first()) == keys(s).drop_first(),
        0 <= i < s.len() ==> keys(s.remove(i)) == keys(s).remove(i),
{
    assert(keys(s.push(entry)) =~= keys(s).push(entry.0));
    if s.len() > 0 {
        assert(keys(s.drop_first()) =~= keys(s).drop_first());
    }
    if 0 <= i < s.len() {
        assert(keys(s.remove(i)) =~= keys(s).remove(i));
    }
}

/// `LinkedHashMap::new`: the new map has no entries.
#[verifier::external_body]
pub(crate) fn map_new() -> (map: LinkedHashMap<usize, usize>)
    ensures
        entries(map) == Seq::<(usize, usize)>::empty(),
{
    LinkedHashMap::new()
}

/// `LinkedHashMap::len`: the number of entries.
#[verifier::external_body]
pub(crate) fn map_len(map: &LinkedHashMap<usize, usize>) -> (n: usize)
    ensures
        n == entries(*map).len(),
{
    map.len()
}

/// `LinkedHashMap::get`: the value of the entry with this key, if the map has
/// one. No entry moves.
#[verifier::external_body]
pub(crate) fn map_get(map: &LinkedHashMap<usize, usize>, key: usize) -> (value: Option<usize>)
    ensures
        value == value_of(entries(*map), key),
{
    map.get(&key).copied()
}

/// `LinkedHashMap::insert`: an entry that the map had for this key leaves its
/// place; the new entry goes to the back. The value that the key had before is
/// returned.
#[verifier::external_body]
pub(crate) fn map_insert(map: &mut LinkedHashMap<usize, usize>, key: usize, value: usize) -> (before:
    Option<usize>)
    ensures
        entries(*final(map)) == without(entries(*old(map)), key).push((key, value)),
        before == value_of(entries(*old(map)), key),
{
    map.insert(key, value)
}

/// `LinkedHashMap::remove`: the entry for this key, if there is one, leaves
/// the map, and its value is returned. The other entries keep their order.
#[verifier::external_body]
pub(crate) fn map_remove(map: &mut LinkedHashMap<usize, usize>, key: usize) -> (before: Option<
    usize,
>)
    ensures
        entries(*final(map)) == without(entries(*old(map)), key),
        before == value_of(entries(*old(map)), key),
{
    map.remove(&key)
}

/// `LinkedHashMap::pop_front`: the front entry leaves the map and is returned;
/// an empty map stays as it is and gives `None`.
#[verifier::external_body]
pub(crate) fn map_pop_front(map: &mut LinkedHashMap<usize, usize>) -> (front: Option<
    (usize, usize),
>)
    ensures
        entries(*old(map)).len() == 0 ==> front.is_none() && entries(*final(map)) == entries(
            *old(map),
        ),
        entries(*old(map)).len() > 0 ==> front == Some(entries(*old(map)).first()) && entries(
            *final(map),
        ) == entries(*old(map)).drop_first(),
{
    map.pop_front()
}

/// `LinkedHashMap::front`: the front entry, if the map has any.
#[verifier::external_body]
pub(crate) fn map_front(map: &LinkedHashMap<usize, usize>) -> (front: Option<(usize, usize)>)
    ensures
        front == if entries(*map).len() == 0 {
            None
        } else {
            Some(entries(*map).first())
        },
{
    map.front().map(|entry| (*entry.0, *entry.1))
}

/// `LinkedHashMap::back`: the back entry, if the map has any.
#[verifier::external_body]
pub(crate) fn map_back(map: &LinkedHashMap<usize, usize>) -> (back: Option<(usize, usize)>)
    ensures
        back == if entries(*map).len() == 0 {
            None
        } else {
            Some(entries(*map).last())
        },
{
    map.back().map(|entry| (*entry.0, *entry.1))
}

/// `LinkedHashMap::iter`: the entries as the iterator hands them out, which
/// is from the front entry to the back entry.
#[verifier::external_body]
pub(crate) fn map_entries(map: &LinkedHashMap<usize, usize>) -> (list: Vec<(usize, usize)>)
    ensures
        list@ == entries(*map),
{
    map.iter().map(|entry| (*entry.0, *entry.1)).collect()
}

} // verus!
