//! The pool of frames.

use crate::linked::{
    entries, has_key, keys, lemma_keys, lemma_keys_of_changes, lemma_position, lemma_push,
    lemma_without, map_back, map_entries, map_front, map_insert, map_new, map_pop_front, map_remove, position,
};
use crate::storage::{chunk, holds_chunk, Error, Storage};
use linked_hash_map::LinkedHashMap;
use vstd::prelude::*;

verus! {

/// A frame: a buffer of bytes, and the page whose image the buffer holds, if
/// a page was ever loaded into it.
pub struct Frame {
    pub buffer: Vec<u8>,
    pub associated_page_id: Option<usize>,
}

impl Frame {
    /// A frame of `frame_size` zero bytes that holds no page.
    pub fn new(frame_size: u64) -> (frame: Self)
        requires
            frame_size <= usize::MAX,
        ensures
            frame.buffer@ == Seq::new(frame_size as nat, |i: int| 0u8),
            frame.associated_page_id.is_none(),
    {
        let buffer = vec![0u8; frame_size as usize];
        assert(buffer@ =~= Seq::new(frame_size as nat, |i: int| 0u8));
        Self { buffer, associated_page_id: None }
    }

    /// The number of bytes in the frame.
    pub fn size(&self) -> (n: u64)
        ensures
            n == self.buffer@.len(),
    {
        self.buffer.len() as u64
    }
}

/// Every index below `n` stands in `order` exactly once, and nothing else
/// stands in it.
pub open spec fn is_order(order: Seq<usize>, n: nat) -> bool {
    &&& order.len() == n
    &&& order.no_duplicates()
    &&& forall|i: int| 0 <= i < order.len() ==> (#[trigger] order[i]) < n
    &&& forall|f: usize| f < n ==> order.contains(f)
}

/// The order `order` after `index` was taken from its place and put at the
/// back.
pub open spec fn promote(order: Seq<usize>, index: usize) -> Seq<usize> {
    order.remove(order.index_of(index)).push(index)
}

/// Where `index` stands at the place `place` of an order without repeats,
/// promoting it takes it from that place.
pub proof fn lemma_promote_at(order: Seq<usize>, place: int)
    requires
        order.no_duplicates(),
        0 <= place < order.len(),
    ensures
        promote(order, order[place]) == order.remove(place).push(order[place]),
{
    let found = order.index_of(order[place]);
    assert(0 <= found < order.len() && order[found] == order[place]);
    assert(found == place);
}

/// A fixed number of frames of one size, with the order in which they were
/// last referenced: the least recently referenced frame is at the front of
/// the order, and is the one that an allocation hands out.
pub struct FrameTable {
    frame_size: u64,
    entries: Vec<Frame>,
    victimizer: LinkedHashMap<usize, usize>,
}

impl FrameTable {
    /// The page that each frame holds, by frame index.
    pub closed spec fn owners(&self) -> Seq<Option<usize>> {
        Seq::new(self.entries@.len(), |f: int| self.entries@[f].associated_page_id)
    }

    /// The bytes of each frame, by frame index.
    pub closed spec fn buffers(&self) -> Seq<Seq<u8>> {
        Seq::new(self.entries@.len(), |f: int| self.entries@[f].buffer@)
    }

    /// The number of bytes in each frame.
    pub closed spec fn spec_frame_size(&self) -> u64 {
        self.frame_size
    }

    /// The indices of the frames, from the least to the most recently
    /// referenced.
    pub closed spec fn lru(&self) -> Seq<usize> {
        keys(entries(self.victimizer))
    }

    /// Every frame index stands in the order exactly once, and every frame
    /// has the size of the table's frames.
    pub open spec fn wf(&self) -> bool {
        &&& self.buffers().len() == self.owners().len()
        &&& is_order(self.lru(), self.owners().len())
        &&& forall|f: int|
            0 <= f < self.buffers().len() ==> (#[trigger] self.buffers()[f]).len()
                == self.spec_frame_size()
    }

    /// A table of `table_size` frames of `frame_size` zero bytes each. No
    /// frame holds a page, and the frames stand in the order of their indices.
    pub fn build(table_size: usize, frame_size: u64) -> (table: Self)
        requires
            frame_size <= usize::MAX,
        ensures
            table.wf(),
            table.spec_frame_size() == frame_size,
            table.lru() == Seq::new(table_size as nat, |i: int| i as usize),
            table.owners() == Seq::new(table_size as nat, |f: int| None::<usize>),
            table.buffers() == Seq::new(
                table_size as nat,
                |f: int| Seq::new(frame_size as nat, |i: int| 0u8),
            ),
    {
        let mut entries: Vec<Frame> = Vec::with_capacity(table_size);
        let mut victimizer = map_new();
        let mut index: usize = 0;
        while index < table_size
            invariant
                index <= table_size,
                frame_size <= usize::MAX,
                entries@.len() == index,
                crate::linked::entries(victimizer) == Seq::new(
                    index as nat,
                    |i: int| (i as usize, i as usize),
                ),
                forall|f: int|
                    0 <= f < index ==> (#[trigger] entries@[f]).associated_page_id.is_none()
                        && entries@[f].buffer@ == Seq::new(frame_size as nat, |i: int| 0u8),
            decreases table_size - index,
        {
            let ghost before = crate::linked::entries(victimizer);
            entries.push(Frame::new(frame_size));
            proof {
                if has_key(before, index) {
                    let p = position(before, index);
                    assert(before[p].0 == p);
                }
            }
            map_insert(&mut victimizer, index, index);
            assert(crate::linked::entries(victimizer) =~= Seq::new(
                (index + 1) as nat,
                |i: int| (i as usize, i as usize),
            ));
            index += 1;
        }
        let table = Self { frame_size, entries, victimizer };
        proof {
            let order = table.lru();
            assert(order =~= Seq::new(table_size as nat, |i: int| i as usize));
            assert forall|f: usize| f < table_size implies order.contains(f) by {
                assert(order[f as int] == f);
            }
            assert(table.owners() =~= Seq::new(table_size as nat, |f: int| None::<usize>));
            assert(table.buffers() =~= Seq::new(
                table_size as nat,
                |f: int| Seq::new(frame_size as nat, |i: int| 0u8),
            ));
        }
        table
    }

    /// The number of frames.
    pub fn len(&self) -> (n: usize)
        ensures
            n == self.owners().len(),
            n == self.buffers().len(),
    {
        self.entries.len()
    }

    /// The number of bytes in each frame.
    pub fn frame_size(&self) -> (n: u64)
        ensures
            n == self.spec_frame_size(),
    {
        self.frame_size
    }

    /// The frame with this index.
    pub fn frame(&self, index: usize) -> (frame: &Frame)
        requires
            index < self.owners().len(),
        ensures
            frame.associated_page_id == self.owners()[index as int],
            frame.buffer@ == self.buffers()[index as int],
    {
        &self.entries[index]
    }

    /// The least recently referenced frame, if the table has any frame.
    pub fn front(&self) -> (index: Option<usize>)
        ensures
            index == if self.lru().len() == 0 {
                None
            } else {
                Some(self.lru().first())
            },
    {
        match map_front(&self.victimizer) {
            Some(entry) => Some(entry.0),
            None => None,
        }
    }

    /// The most recently referenced frame, if the table has any frame.
    pub fn back(&self) -> (index: Option<usize>)
        ensures
            index == if self.lru().len() == 0 {
                None
            } else {
                Some(self.lru().last())
            },
    {
        match map_back(&self.victimizer) {
            Some(entry) => Some(entry.0),
            None => None,
        }
    }

    /// The indices of the frames, from the least to the most recently
    /// referenced.
    pub fn order(&self) -> (list: Vec<usize>)
        ensures
            list@ == self.lru(),
    {
        let linked = map_entries(&self.victimizer);
        let mut list: Vec<usize> = Vec::new();
        let mut i: usize = 0;
        while i < linked.len()
            invariant
                i <= linked@.len(),
                list@ == keys(linked@).take(i as int),
            decreases linked@.len() - i,
        {
            list.push(linked[i].0);
            i += 1;
            assert(list@ =~= keys(linked@).take(i as int));
        }
        assert(list@ =~= keys(linked@));
        list
    }

    /// Hands out the least recently referenced frame, which thereby becomes
    /// the most recently referenced one. What the frame holds stays in it.
    pub fn allocate(&mut self) -> (index: usize)
        requires
            old(self).wf(),
            old(self).owners().len() > 0,
        ensures
            final(self).wf(),
            final(self).owners() == old(self).owners(),
            final(self).buffers() == old(self).buffers(),
            final(self).spec_frame_size() == old(self).spec_frame_size(),
            index == old(self).lru().first(),
            index < old(self).owners().len(),
            final(self).lru() == old(self).lru().drop_first().push(index),
            final(self).lru() == promote(old(self).lru(), index),
    {
        let ghost before = entries(self.victimizer);
        proof {
            lemma_keys(before);
            lemma_keys_of_changes(before, before.first(), 0);
            crate::tlb::lemma_drop_first(before, before.first().0);
            lemma_without(before, before.first().0);
            lemma_position(before, 0);
        }
        let front = map_pop_front(&mut self.victimizer);
        let value = match front {
            Some(entry) => entry.0,
            None => 0,
        };
        let ghost middle = entries(self.victimizer);
        proof {
            lemma_without(middle, value);
            lemma_push(middle, value, value);
            lemma_keys_of_changes(middle, (value, value), 0);
        }
        map_insert(&mut self.victimizer, value, value);
        proof {
            lemma_keys(entries(self.victimizer));
            lemma_promoted(old(self).lru(), self.lru(), value, old(self).owners().len());
            assert(keys(before).index_of(value) == 0);
            assert(keys(before).remove(0) == keys(before).drop_first());
        }
        value
    }

    /// Makes the frame `index` the most recently referenced one.
    pub fn reference(&mut self, index: usize)
        requires
            old(self).wf(),
            index < old(self).owners().len(),
        ensures
            final(self).wf(),
            final(self).owners() == old(self).owners(),
            final(self).buffers() == old(self).buffers(),
            final(self).spec_frame_size() == old(self).spec_frame_size(),
            final(self).lru() == promote(old(self).lru(), index),
            forall|place: int|
                0 <= place < old(self).lru().len() && old(self).lru()[place] == index
                    ==> final(self).lru() == old(self).lru().remove(place).push(index),
    {
        let ghost before = entries(self.victimizer);
        proof {
            assert forall|place: int|
                0 <= place < old(self).lru().len() && old(self).lru()[place]
                    == index implies promote(old(self).lru(), index) == old(self).lru().remove(
                place,
            ).push(index) by {
                lemma_promote_at(old(self).lru(), place);
            }
            lemma_keys(before);
            lemma_without(before, index);
            assert(has_key(before, index));
            lemma_keys_of_changes(before, (index, index), position(before, index));
        }
        map_remove(&mut self.victimizer, index);
        let ghost middle = entries(self.victimizer);
        proof {
            lemma_without(middle, index);
            lemma_push(middle, index, index);
            lemma_keys_of_changes(middle, (index, index), 0);
        }
        map_insert(&mut self.victimizer, index, index);
        proof {
            lemma_keys(entries(self.victimizer));
            lemma_promoted(old(self).lru(), self.lru(), index, old(self).owners().len());
        }
    }

    /// The page that the frame holds, if it holds one.
    pub fn owner(&self, index: usize) -> (page_id: Option<usize>)
        requires
            index < self.owners().len(),
        ensures
            page_id == self.owners()[index as int],
    {
        self.entries[index].associated_page_id
    }

    /// Records that the frame holds the page `page_id`.
    pub fn set_owner(&mut self, index: usize, page_id: usize)
        requires
            old(self).wf(),
            index < old(self).owners().len(),
        ensures
            final(self).wf(),
            final(self).lru() == old(self).lru(),
            final(self).spec_frame_size() == old(self).spec_frame_size(),
            final(self).owners() == old(self).owners().update(index as int, Some(page_id)),
            final(self).buffers() == old(self).buffers(),
    {
        self.entries[index].associated_page_id = Some(page_id);
        assert(self.owners() =~= old(self).owners().update(index as int, Some(page_id)));
        assert(self.buffers() =~= old(self).buffers());
    }

    /// Fills the frame `index` with chunk number `seek_multiplier` of the
    /// backing store, the chunks being as long as a frame. Where the store
    /// does not hold the whole chunk, the frame is left as it was.
    pub fn load(&mut self, index: usize, storage: &Storage, seek_multiplier: u64) -> (result:
        Result<(), Error>)
        requires
            old(self).wf(),
            index < old(self).owners().len(),
        ensures
            final(self).wf(),
            final(self).lru() == old(self).lru(),
            final(self).spec_frame_size() == old(self).spec_frame_size(),
            final(self).owners() == old(self).owners(),
            result is Ok <==> holds_chunk(
                storage@,
                seek_multiplier as int,
                old(self).spec_frame_size() as int,
            ),
            result is Ok ==> final(self).buffers() == old(self).buffers().update(
                index as int,
                chunk(storage@, seek_multiplier as int, old(self).spec_frame_size() as int),
            ),
            result is Err ==> final(self).buffers() == old(self).buffers(),
    {
        assert(self.buffers()[index as int].len() == self.spec_frame_size());
        let result = storage.read(seek_multiplier, &mut self.entries[index].buffer);
        proof {
            assert(self.owners() =~= old(self).owners());
            if result is Ok {
                assert(self.buffers() =~= old(self).buffers().update(
                    index as int,
                    chunk(storage@, seek_multiplier as int, old(self).spec_frame_size() as int),
                ));
            } else {
                assert(self.buffers() =~= old(self).buffers());
            }
        }
        result
    }

    /// Writes `value` at `offset` in the frame `index`.
    pub fn store(&mut self, index: usize, offset: usize, value: u8)
        requires
            old(self).wf(),
            index < old(self).buffers().len(),
            offset < old(self).spec_frame_size(),
        ensures
            final(self).wf(),
            final(self).lru() == old(self).lru(),
            final(self).spec_frame_size() == old(self).spec_frame_size(),
            final(self).owners() == old(self).owners(),
            final(self).buffers() == old(self).buffers().update(
                index as int,
                old(self).buffers()[index as int].update(offset as int, value),
            ),
    {
        assert(self.buffers()[index as int].len() == self.spec_frame_size());
        self.entries[index].buffer[offset] = value;
        assert(self.owners() =~= old(self).owners());
        assert(self.buffers() =~= old(self).buffers().update(
            index as int,
            old(self).buffers()[index as int].update(offset as int, value),
        ));
    }

    /// The byte at `offset` in the frame `index`.
    pub fn byte(&self, index: usize, offset: usize) -> (value: u8)
        requires
            index < self.buffers().len(),
            offset < self.buffers()[index as int].len(),
        ensures
            value == self.buffers()[index as int][offset as int],
    {
        self.entries[index].buffer[offset]
    }
}

/// An order in which every index below `n` stands exactly once is still such
/// an order after one of them was put at the back.
pub proof fn lemma_promoted(before: Seq<usize>, after: Seq<usize>, index: usize, n: nat)
    requires
        is_order(before, n),
        index < n,
        after == promote(before, index),
    ensures
        is_order(after, n),
{
    assert(before.contains(index));
    let p = before.index_of(index);
    assert(0 <= p < before.len() && before[p] == index);
    let rest = before.remove(p);
    assert forall|i: int| 0 <= i < rest.len() implies #[trigger] rest[i] == before[if i < p {
        i
    } else {
        i + 1
    }] by {}
    assert forall|i: int, j: int| 0 <= i < after.len() && 0 <= j < after.len() && i != j implies after[i]
        != after[j] by {
        let a = if i < p { i } else { i + 1 };
        let b = if j < p { j } else { j + 1 };
        if i == rest.len() {
            assert(after[j] == before[b]);
            assert(b != p);
        } else if j == rest.len() {
            assert(after[i] == before[a]);
            assert(a != p);
        } else {
            assert(after[i] == before[a] && after[j] == before[b]);
        }
    }
    assert forall|i: int| 0 <= i < after.len() implies (#[trigger] after[i]) < n by {
        if i < rest.len() {
            assert(after[i] == rest[i]);
        }
    }
    assert forall|f: usize| f < n implies after.contains(f) by {
        if f == index {
            assert(after[rest.len() as int] == f);
        } else {
            assert(before.contains(f));
            let a = before.index_of(f);
            assert(0 <= a < before.len() && before[a] == f);
            let q = if a < p { a } else { a - 1 };
            assert(after[q] == rest[q]);
            assert(after[q] == f);
        }
    }
}

} // verus!
