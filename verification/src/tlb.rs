//! The translation look-aside buffer.

use crate::linked::{
    distinct_keys, entries, has_key, lemma_position, lemma_push, lemma_without, map_back,
    map_entries, map_front, map_get, map_insert, map_len, map_new, map_pop_front, map_remove, value_of,
    without,
};
use linked_hash_map::LinkedHashMap;
use vstd::prelude::*;

verus! {

/// A bounded cache of translations from page number to frame index. Its
/// entries are kept in the order in which they were cached, the oldest at the
/// front. A lookup moves nothing; caching a translation puts it at the back,
/// and where that would take the buffer over its bound, the front entry makes
/// room.
pub struct TLB {
    table_size: usize,
    map: LinkedHashMap<usize, usize>,
}

impl View for TLB {
    type V = Seq<(usize, usize)>;

    /// The cached translations, each a page number with its frame index, from
    /// the oldest to the newest.
    closed spec fn view(&self) -> Seq<(usize, usize)> {
        entries(self.map)
    }
}

/// What a buffer bounded by `capacity` holds after `key` was cached with
/// `value`, where it held `s` before.
pub open spec fn cached(s: Seq<(usize, usize)>, capacity: usize, key: usize, value: usize) -> Seq<
    (usize, usize),
> {
    if has_key(s, key) || s.len() < capacity {
        without(s, key).push((key, value))
    } else {
        s.drop_first().push((key, value))
    }
}

impl TLB {
    /// The most entries that the buffer holds.
    pub closed spec fn capacity(&self) -> usize {
        self.table_size
    }

    /// No page is cached twice, and the buffer is within its bound, which is
    /// not zero.
    pub open spec fn wf(&self) -> bool {
        &&& distinct_keys(self@)
        &&& 0 < self.capacity()
        &&& self@.len() <= self.capacity()
    }

    /// An empty buffer that holds up to `table_size` translations.
    pub fn build(table_size: usize) -> (tlb: Self)
        requires
            table_size > 0,
        ensures
            tlb.wf(),
            tlb.capacity() == table_size,
            tlb@ == Seq::<(usize, usize)>::empty(),
    {
        Self { table_size, map: map_new() }
    }

    /// The bound that the buffer was built with.
    pub fn table_size(&self) -> (n: usize)
        ensures
            n == self.capacity(),
    {
        self.table_size
    }

    /// The number of cached translations.
    pub fn len(&self) -> (n: usize)
        ensures
            n == self@.len(),
    {
        map_len(&self.map)
    }

    /// The frame that is cached for the page, if any. The order of the entries
    /// stays as it is.
    pub fn find(&self, page_number: usize) -> (frame: Option<usize>)
        ensures
            frame == value_of(self@, page_number),
    {
        map_get(&self.map, page_number)
    }

    /// The oldest cached translation, if the buffer holds any.
    pub fn front(&self) -> (entry: Option<(usize, usize)>)
        ensures
            entry == if self@.len() == 0 {
                None
            } else {
                Some(self@.first())
            },
    {
        map_front(&self.map)
    }

    /// The newest cached translation, if the buffer holds any.
    pub fn back(&self) -> (entry: Option<(usize, usize)>)
        ensures
            entry == if self@.len() == 0 {
                None
            } else {
                Some(self@.last())
            },
    {
        map_back(&self.map)
    }

    /// The cached translations, each a page number with its frame index, from
    /// the oldest to the newest.
    pub fn entries(&self) -> (list: Vec<(usize, usize)>)
        ensures
            list@ == self@,
    {
        map_entries(&self.map)
    }

    /// Caches the translation of page `key` to frame `value` as the newest
    /// entry. An entry that the page had leaves its place; where the page had
    /// none and the buffer is full, the oldest entry is dropped.
    pub fn cache_element(&mut self, key: usize, value: usize)
        requires
            old(self).wf(),
        ensures
            final(self).wf(),
            final(self).capacity() == old(self).capacity(),
            final(self)@ == cached(old(self)@, old(self).capacity(), key, value),
            value_of(final(self)@, key) == Some(value),
            final(self)@.last() == (key, value),
    {
        let ghost before = self@;
        if map_len(&self.map) == self.table_size && map_get(&self.map, key).is_none() {
            map_pop_front(&mut self.map);
            proof {
                lemma_drop_first(before, key);
            }
        }
        let ghost middle = self@;
        proof {
            lemma_without(middle, key);
        }
        map_insert(&mut self.map, key, value);
        proof {
            lemma_push(without(middle, key), key, value);
        }
    }

    /// Drops the translation of page `key`, if one is cached, and says whether
    /// one was.
    pub fn flush_element(&mut self, key: usize) -> (flushed: bool)
        requires
            old(self).wf(),
        ensures
            final(self).wf(),
            final(self).capacity() == old(self).capacity(),
            flushed == has_key(old(self)@, key),
            final(self)@ == without(old(self)@, key),
    {
        proof {
            lemma_without(self@, key);
        }
        map_remove(&mut self.map, key).is_some()
    }
}

/// Dropping the front entry of a sequence with distinct keys leaves the keys
/// distinct, and a key that the sequence did not hold is still not held.
pub proof fn lemma_drop_first(s: Seq<(usize, usize)>, key: usize)
    requires
        distinct_keys(s),
        s.len() > 0,
    ensures
        distinct_keys(s.drop_first()),
        !has_key(s, key) ==> !has_key(s.drop_first(), key),
        s.drop_first() == without(s, s.first().0),
{
    let t = s.drop_first();
    assert forall|i: int, j: int| 0 <= i < j < t.len() implies (#[trigger] t[i]).0 != (
    #[trigger] t[j]).0 by {
        assert(s[i + 1].0 != s[j + 1].0);
    }
    if has_key(t, key) {
        let q = crate::linked::position(t, key);
        assert(s[q + 1].0 == key);
    }
    lemma_position(s, 0);
    assert(s.remove(0) == t);
}

} // verus!
