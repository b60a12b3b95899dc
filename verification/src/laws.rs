//! What holds of the translator whatever it is asked.

use crate::address::VirtualAddress;
use crate::frame_table::{is_order, lemma_promoted, promote};
use crate::linked::{
    distinct_keys, has_key, lemma_position, lemma_push, lemma_without, value_of, without,
};
use crate::machine::{
    free_first, occupied, physical, resident_in, signed, MemoryState, PageState,
};
use crate::page_table::Page;
use crate::storage::{chunk, holds_chunk, lemma_chunk};
use crate::tlb::{cached, lemma_drop_first};
use vstd::prelude::*;

verus! {

/// No more frames hold a page than there are frames. Recording a page for a
/// frame adds one to their number where the frame held none, and leaves the
/// number as it is where it held one.
pub proof fn lemma_occupied(owners: Seq<Option<usize>>, frame: int, page: usize)
    requires
        0 <= frame < owners.len(),
    ensures
        occupied(owners) <= owners.len(),
        occupied(owners.update(frame, Some(page))) == occupied(owners) + if owners[frame].is_some() {
            0nat
        } else {
            1nat
        },
    decreases owners.len(),
{
    let updated = owners.update(frame, Some(page));
    if frame == owners.len() - 1 {
        assert(updated.drop_last() =~= owners.drop_last());
        lemma_occupied_bound(owners.drop_last());
    } else {
        lemma_occupied(owners.drop_last(), frame, page);
        assert(updated.drop_last() =~= owners.drop_last().update(frame, Some(page)));
    }
}

/// No more frames hold a page than there are frames.
pub proof fn lemma_occupied_bound(owners: Seq<Option<usize>>)
    ensures
        occupied(owners) <= owners.len(),
    decreases owners.len(),
{
    if owners.len() > 0 {
        lemma_occupied_bound(owners.drop_last());
    }
}

/// Where no frame holds a page, the number of frames that hold one is zero.
pub proof fn lemma_occupied_none(n: nat)
    ensures
        occupied(Seq::new(n, |f: int| None::<usize>)) == 0,
    decreases n,
{
    if n > 0 {
        lemma_occupied_none((n - 1) as nat);
        assert(Seq::new(n, |f: int| None::<usize>).drop_last() =~= Seq::new(
            (n - 1) as nat,
            |f: int| None::<usize>,
        ));
    }
}

/// A translator that has served no access yet is in order.
pub proof fn lemma_initial(tlb_size: usize, frame_table_size: usize, frame_size: u64, image: Seq<u8>)
    requires
        tlb_size > 0,
        frame_table_size > 0,
    ensures
        MemoryState::initial(tlb_size, frame_table_size, frame_size, image).inv(),
{
    let s = MemoryState::initial(tlb_size, frame_table_size, frame_size, image);
    assert forall|f: usize| f < s.owners.len() implies s.lru.contains(f) by {
        assert(s.lru[f as int] == f);
    }
    lemma_occupied_none(frame_table_size as nat);
    assert(s.pages.dom() =~= Set::<usize>::empty());
    assert forall|page: usize| !has_key(s.tlb, page) by {}
}

/// In a translator between two accesses, the frame in which an access finds
/// its page is one of the translator's frames, and it has the frame size.
pub proof fn lemma_frame_for(s: MemoryState, page: usize)
    requires
        s.inv(),
    ensures
        s.frame_for(page) < s.owners.len(),
        s.buffers[s.frame_for(page) as int].len() == s.frame_size,
        has_key(s.tlb, page) ==> s.resident(page) && s.frame_for(page)
            == s.pages[page].frame_index,
{
    if has_key(s.tlb, page) {
        assert(s.resident(page));
    } else if s.resident(page) {
    } else {
        assert(s.lru[0] < s.owners.len());
    }
}

/// A page fault that finds its page in the backing store leaves the caches in
/// agreement. The page is then resident in the frame that was the least
/// recently used one, and it is not cached yet.
pub proof fn lemma_retrieve(s: MemoryState, page: usize)
    requires
        s.well_formed(),
        s.coherent(),
        s.faults(page),
        holds_chunk(s.image, page as int, s.frame_size as int),
    ensures
        s.retrieve(page).well_formed(),
        s.retrieve(page).coherent(),
        s.retrieve(page).resident(page),
        s.retrieve(page).pages[page].frame_index == s.victim(),
        !has_key(s.retrieve(page).tlb, page),
        s.retrieve(page).tlb_size == s.tlb_size,
{
    let f = s.victim();
    let n = s.owners.len();
    let m = s.evict(page);
    let t = m.load(page, f);
    assert(s.lru[0] < n);
    lemma_promoted(s.lru, m.lru, f, n);
    lemma_chunk(s.image, page as int, s.frame_size as int);
    lemma_eviction(s, page);
    assert(t.well_formed());
    assert forall|q: usize| #[trigger] has_key(t.tlb, q) implies resident_in(t.pages, q)
        && value_of(t.tlb, q) == Some(t.pages[q].frame_index) by {
        assert(has_key(s.tlb, q));
        assert(resident_in(s.pages, q));
    }
    assert forall|q: usize| #[trigger] resident_in(t.pages, q) implies t.pages[q].frame_index
        < t.owners.len() && t.owners[t.pages[q].frame_index as int] == Some(q) by {
        if q != page {
            assert(resident_in(s.pages, q));
        }
    }
    assert forall|g: int| 0 <= g < t.owners.len() implies match #[trigger] t.owners[g] {
        Some(q) => {
            &&& resident_in(t.pages, q)
            &&& t.pages[q].frame_index == g
            &&& holds_chunk(t.image, q as int, t.frame_size as int)
            &&& t.buffers[g] == chunk(t.image, q as int, t.frame_size as int)
        },
        None => true,
    } by {
        if g != f {
            assert(t.owners[g] == s.owners[g]);
            if let Some(q) = s.owners[g] {
                assert(resident_in(s.pages, q));
            }
        }
    }
}

/// The first half of a page fault. The page that held the least recently used
/// frame is afterwards neither resident nor cached; every other page is
/// resident, and cached, as before, and with the same frame.
pub proof fn lemma_eviction(s: MemoryState, page: usize)
    requires
        s.well_formed(),
        s.coherent(),
        s.faults(page),
    ensures
        distinct_keys(s.evict(page).tlb),
        s.evict(page).tlb.len() <= s.tlb.len(),
        s.evict(page).pages.dom().finite(),
        s.evict(page).pages.dom() == s.pages.dom(),
        !has_key(s.evict(page).tlb, page),
        !s.evict(page).resident(page),
        match s.owners[s.victim() as int] {
            Some(previous) => {
                &&& previous != page
                &&& s.resident(previous)
                &&& s.evict(page).pages.contains_key(previous)
                &&& !s.evict(page).pages[previous].valid
                &&& !has_key(s.evict(page).tlb, previous)
                &&& forall|q: usize|
                    q != previous ==> has_key(s.evict(page).tlb, q) == has_key(s.tlb, q)
                        && value_of(s.evict(page).tlb, q) == value_of(s.tlb, q)
                        && s.evict(page).resident(q) == s.resident(q)
                        && s.evict(page).pages.contains_key(q) == s.pages.contains_key(q)
                        && s.evict(page).pages[q] == s.pages[q]
            },
            None => s.evict(page).tlb == s.tlb && s.evict(page).pages == s.pages,
        },
{
    let f = s.victim();
    let m = s.evict(page);
    assert(s.lru[0] < s.owners.len());
    match s.owners[f as int] {
        Some(previous) => {
            assert(s.resident(previous));
            lemma_without(s.tlb, previous);
            assert(m.pages.dom() =~= s.pages.dom());
        },
        None => {},
    }
}

/// Caching the translation of a resident page leaves the caches in
/// agreement.
pub proof fn lemma_cached(s: MemoryState, page: usize)
    requires
        s.well_formed(),
        s.coherent(),
        s.resident(page),
    ensures
        (MemoryState {
            tlb: cached(s.tlb, s.tlb_size, page, s.pages[page].frame_index),
            ..s
        }).well_formed(),
        (MemoryState {
            tlb: cached(s.tlb, s.tlb_size, page, s.pages[page].frame_index),
            ..s
        }).coherent(),
        has_key(cached(s.tlb, s.tlb_size, page, s.pages[page].frame_index), page),
        value_of(cached(s.tlb, s.tlb_size, page, s.pages[page].frame_index), page) == Some(
            s.pages[page].frame_index,
        ),
{
    let frame = s.pages[page].frame_index;
    let t = MemoryState { tlb: cached(s.tlb, s.tlb_size, page, frame), ..s };
    let rest = if has_key(s.tlb, page) || s.tlb.len() < s.tlb_size {
        without(s.tlb, page)
    } else {
        s.tlb.drop_first()
    };
    lemma_without(s.tlb, page);
    if !(has_key(s.tlb, page) || s.tlb.len() < s.tlb_size) {
        lemma_drop_first(s.tlb, page);
        lemma_without(s.tlb, s.tlb.first().0);
    }
    lemma_push(rest, page, frame);
    assert forall|q: usize| #[trigger] has_key(t.tlb, q) implies resident_in(t.pages, q)
        && value_of(t.tlb, q) == Some(t.pages[q].frame_index) by {
        if q != page {
            assert(has_key(rest, q));
            assert(has_key(s.tlb, q));
        }
    }
}

/// An access that does not fail leaves the translator in order.
pub proof fn lemma_step(s: MemoryState, page: usize)
    requires
        s.inv(),
        !s.fails(page),
        s.tracker.attempted_memory_accesses < usize::MAX,
    ensures
        s.step(page).inv(),
        s.step(page).resident(page),
        s.step(page).pages[page].frame_index == s.frame_for(page),
        value_of(s.step(page).tlb, page) == Some(s.frame_for(page)),
        s.step(page).lru.last() == s.frame_for(page),
{
    let counted = MemoryState { tracker: s.count(page), ..s };
    let frame = s.frame_for(page);
    lemma_frame_for(s, page);
    assert(counted.well_formed() && counted.coherent());
    let found = if has_key(s.tlb, page) {
        counted
    } else {
        let present = if s.resident(page) {
            counted
        } else {
            counted.retrieve(page)
        };
        MemoryState { tlb: cached(present.tlb, present.tlb_size, page, frame), ..present }
    };
    if has_key(s.tlb, page) {
    } else if s.resident(page) {
        lemma_cached(counted, page);
    } else {
        lemma_retrieve(counted, page);
        lemma_cached(counted.retrieve(page), page);
        lemma_eviction(counted, page);
        lemma_occupied(s.owners, s.victim() as int, page);
        assert(found.pages.dom() =~= s.pages.dom().insert(page));
    }
    assert(found.well_formed() && found.coherent());
    let t = s.step(page);
    assert(t == MemoryState { lru: promote(found.lru, frame), ..found });
    lemma_promoted(found.lru, t.lru, frame, s.owners.len());
    assert(resident_in(found.pages, page));
    lemma_promoted_free_first(found.lru, found.owners, frame);
    assert(t.coherent());
    assert(t.accounted());
}

/// Putting a frame that holds a page at the back of the order leaves the
/// frames that hold none in front.
pub proof fn lemma_promoted_free_first(order: Seq<usize>, owners: Seq<Option<usize>>, index: usize)
    requires
        is_order(order, owners.len()),
        free_first(order, owners),
        index < owners.len(),
        owners[index as int].is_some(),
    ensures
        free_first(promote(order, index), owners),
{
    let after = promote(order, index);
    assert(order.contains(index));
    let p = order.index_of(index);
    assert(0 <= p < order.len() && order[p] == index);
    let rest = order.remove(p);
    assert forall|i: int, j: int|
        0 <= i < j < after.len() && owners[#[trigger] after[j] as int].is_none() implies owners[
        #[trigger] after[i] as int].is_none() by {
        if j < rest.len() {
            let a = if i < p { i } else { i + 1 };
            let b = if j < p { j } else { j + 1 };
            assert(after[i] == order[a] && after[j] == order[b]);
        }
    }
}

/// A frame that is already the most recently referenced one stays where it
/// is when it is referenced again.
pub proof fn lemma_promote_last(order: Seq<usize>)
    requires
        order.no_duplicates(),
        order.len() > 0,
    ensures
        promote(order, order.last()) == order,
{
    let p = order.index_of(order.last());
    assert(order[order.len() - 1] == order.last());
    assert(0 <= p < order.len() && order[p] == order.last());
    assert(p == order.len() - 1);
    assert(order.remove(p).push(order.last()) =~= order);
}

/// An access that does not fail returns the byte that the backing store holds
/// for the logical address, as a signed number, and the place of that byte in
/// the frame that holds the page after the access. Where the frames fit in
/// 32 bits, the physical address is the frame index times the frame size,
/// plus the offset.
pub proof fn lemma_access_reads_store(s: MemoryState, address: VirtualAddress)
    requires
        s.inv(),
        !s.fails(address.number_page as usize),
        s.tracker.attempted_memory_accesses < usize::MAX,
        address.number_offset < s.frame_size,
    ensures
        s.outcome(address) is Ok,
        s.outcome(address).unwrap().virtual_address == address,
        address.number_page * s.frame_size + address.number_offset < s.image.len(),
        s.outcome(address).unwrap().value == signed(
            s.image[address.number_page * s.frame_size + address.number_offset],
        ),
        s.outcome(address).unwrap().physical_address == physical(
            s.step(address.number_page as usize).pages[address.number_page as usize].frame_index,
            s.frame_size,
            address.number_offset as usize,
        ),
        s.owners.len() * s.frame_size <= 0x1_0000_0000 ==> s.outcome(
            address,
        ).unwrap().physical_address == s.step(
            address.number_page as usize,
        ).pages[address.number_page as usize].frame_index * s.frame_size + address.number_offset,
{
    let page = address.number_page as usize;
    let offset = address.number_offset as int;
    let t = s.step(page);
    let frame = s.frame_for(page);
    let size = s.frame_size as int;
    lemma_step(s, page);
    lemma_frame_for(s, page);
    assert(resident_in(t.pages, page));
    assert(t.owners[frame as int] == Some(page));
    lemma_chunk(t.image, page as int, size);
    assert(t.image == s.image && t.frame_size == s.frame_size);
    assert(t.buffers[frame as int][offset] == s.image[page * size + offset]);
    if s.owners.len() * s.frame_size <= 0x1_0000_0000 {
        assert(frame * size + offset < 0x1_0000_0000 && 0 <= frame * size) by (nonlinear_arith)
            requires
                0 <= frame < s.owners.len(),
                0 <= offset < size,
                s.owners.len() * size <= 0x1_0000_0000,
        ;
    }
}

/// The counters add up. Every access was a hit in the buffer of
/// translations, a hit in the page table or a page fault; and the number of
/// pages that were ever loaded is at most the number of accesses, and at most
/// the number of frames plus the number of evictions.
pub proof fn lemma_accounting(s: MemoryState)
    requires
        s.inv(),
    ensures
        s.tracker.tlb_hits + s.tracker.page_hits + s.tracker.page_faults()
            == s.tracker.attempted_memory_accesses,
        0 <= s.tracker.page_faults(),
        0 <= s.evictions(),
        s.loaded_pages() <= s.tracker.attempted_memory_accesses,
        s.loaded_pages() <= s.owners.len() + s.evictions(),
{
    lemma_occupied_bound(s.owners);
}

/// The order of reference holds as many indices as there are frames, and
/// none of them twice.
pub proof fn lemma_order(s: MemoryState)
    requires
        s.inv(),
    ensures
        s.lru.len() == s.owners.len(),
        s.lru.no_duplicates(),
        forall|f: usize| f < s.owners.len() ==> s.lru.contains(f),
{
}

/// A translator that is in order is still in order after any number of
/// accesses of which none fails, and has counted each of them.
pub proof fn lemma_replay(s: MemoryState, pages: Seq<usize>)
    requires
        s.inv(),
        s.serves(pages),
        s.tracker.attempted_memory_accesses + pages.len() <= usize::MAX,
    ensures
        s.replay(pages).inv(),
        s.replay(pages).tracker.attempted_memory_accesses == s.tracker.attempted_memory_accesses
            + pages.len(),
        s.replay(pages).owners.len() == s.owners.len(),
    decreases pages.len(),
{
    if pages.len() > 0 {
        lemma_replay(s, pages.drop_last());
        lemma_step(s.replay(pages.drop_last()), pages.last());
    }
}

/// After any number of accesses to a new translator, of which none fails, the
/// number of pages that were loaded is at most the number of accesses, and at
/// most the number of frames plus the number of evictions; and every frame
/// index stands exactly once in the order of reference.
pub proof fn lemma_after_accesses(
    tlb_size: usize,
    frame_table_size: usize,
    frame_size: u64,
    image: Seq<u8>,
    pages: Seq<usize>,
)
    requires
        tlb_size > 0,
        frame_table_size > 0,
        pages.len() <= usize::MAX,
        MemoryState::initial(tlb_size, frame_table_size, frame_size, image).serves(pages),
    ensures
        ({
            let s = MemoryState::initial(tlb_size, frame_table_size, frame_size, image).replay(
                pages,
            );
            &&& s.tracker.attempted_memory_accesses == pages.len()
            &&& s.tracker.tlb_hits + s.tracker.page_hits + s.tracker.page_faults() == pages.len()
            &&& s.loaded_pages() <= pages.len()
            &&& s.loaded_pages() <= frame_table_size + s.evictions()
            &&& is_order(s.lru, frame_table_size as nat)
        }),
{
    let start = MemoryState::initial(tlb_size, frame_table_size, frame_size, image);
    lemma_initial(tlb_size, frame_table_size, frame_size, image);
    lemma_replay(start, pages);
    lemma_accounting(start.replay(pages));
}

/// Two accesses to one logical address in a row return the same, and the
/// second is a hit in the buffer of translations: it changes nothing but the
/// two counters of the accesses and of those hits.
pub proof fn lemma_access_twice(s: MemoryState, address: VirtualAddress)
    requires
        s.inv(),
        !s.fails(address.number_page as usize),
        s.tracker.attempted_memory_accesses + 1 < usize::MAX,
    ensures
        ({
            let page = address.number_page as usize;
            let first = s.step(page);
            let second = first.step(page);
            &&& first.outcome(address) == s.outcome(address)
            &&& has_key(first.tlb, page)
            &&& second.tracker.tlb_hits == first.tracker.tlb_hits + 1
            &&& second == MemoryState {
                tracker: crate::tracker::Tracker {
                    attempted_memory_accesses: (first.tracker.attempted_memory_accesses
                        + 1) as usize,
                    tlb_hits: (first.tracker.tlb_hits + 1) as usize,
                    ..first.tracker
                },
                ..first
            }
        }),
{
    let page = address.number_page as usize;
    let first = s.step(page);
    lemma_step(s, page);
    lemma_promote_last(first.lru);
    assert(has_key(first.tlb, page));
}

/// When a page fault takes a frame from the page that held it, that page is
/// afterwards neither valid in the page table nor found in the buffer of
/// translations: not in the middle of the fault, and not at the end of the
/// access that faulted.
pub proof fn lemma_eviction_coherence(s: MemoryState, page: usize, previous: usize)
    requires
        s.inv(),
        s.faults(page),
        s.owners[s.victim() as int] == Some(previous),
    ensures
        s.retrieve(page).pages.contains_key(previous),
        !s.retrieve(page).pages[previous].valid,
        value_of(s.retrieve(page).tlb, previous).is_none(),
        s.step(page).pages.contains_key(previous),
        !s.step(page).pages[previous].valid,
        value_of(s.step(page).tlb, previous).is_none(),
{
    let counted = MemoryState { tracker: s.count(page), ..s };
    lemma_eviction(s, page);
    lemma_eviction(counted, page);
    if !s.fails(page) {
        let present = counted.retrieve(page);
        lemma_retrieve(counted, page);
        let frame = s.frame_for(page);
        lemma_without(present.tlb, page);
        if !(has_key(present.tlb, page) || present.tlb.len() < present.tlb_size) {
            lemma_drop_first(present.tlb, previous);
            lemma_push(present.tlb.drop_first(), page, frame);
        } else {
            lemma_push(present.tlb, page, frame);
        }
    }
}

/// As long as some frame holds no page, the frame that a page fault hands out
/// holds none: no page loses its frame while a frame is free.
pub proof fn lemma_free_frames_first(s: MemoryState, free: usize)
    requires
        s.inv(),
        free < s.owners.len(),
        s.owners[free as int].is_none(),
    ensures
        s.owners[s.victim() as int].is_none(),
{
    assert(s.lru.contains(free));
    let j = s.lru.index_of(free);
    assert(0 <= j < s.lru.len() && s.lru[j] == free);
    if j > 0 {
        assert(s.owners[s.lru[j] as int].is_none());
        assert(s.owners[s.lru[0] as int].is_none());
    }
}

/// Between two accesses, a cached translation names the frame that holds its
/// page, no two frames hold the same page, and a frame holds the image of its
/// page.
pub proof fn lemma_coherence(s: MemoryState)
    requires
        s.inv(),
    ensures
        forall|i: int|
            0 <= i < s.tlb.len() ==> {
                let page = (#[trigger] s.tlb[i]).0;
                let frame = s.tlb[i].1;
                &&& frame < s.owners.len()
                &&& s.owners[frame as int] == Some(page)
                &&& s.pages.contains_key(page)
                &&& s.pages[page] == (Page { frame_index: frame, valid: true })
            },
        forall|f: int, g: int|
            0 <= f < s.owners.len() && 0 <= g < s.owners.len() && s.owners[f].is_some()
                && #[trigger] s.owners[f] == #[trigger] s.owners[g] ==> f == g,
        forall|f: int|
            0 <= f < s.owners.len() ==> (#[trigger] s.owners[f] matches Some(page)
                ==> s.buffers[f] == chunk(s.image, page as int, s.frame_size as int)),
{
    assert forall|i: int| 0 <= i < s.tlb.len() implies {
        let page = (#[trigger] s.tlb[i]).0;
        let frame = s.tlb[i].1;
        &&& frame < s.owners.len()
        &&& s.owners[frame as int] == Some(page)
        &&& s.pages.contains_key(page)
        &&& s.pages[page] == (Page { frame_index: frame, valid: true })
    } by {
        lemma_position(s.tlb, i);
        assert(resident_in(s.pages, s.tlb[i].0));
    }
    assert forall|f: int, g: int|
        0 <= f < s.owners.len() && 0 <= g < s.owners.len() && s.owners[f].is_some()
            && #[trigger] s.owners[f] == #[trigger] s.owners[g] implies f == g by {
        let page = s.owners[f].unwrap();
        assert(s.pages[page].frame_index == f);
        assert(s.pages[page].frame_index == g);
    }
}

/// What an access that does not fail does to where the pages stand. The page
/// that is accessed is resident afterwards. Another page stays where it
/// stood, but for the page that held the frame which a page fault hands out:
/// that page is evicted. No page becomes unknown again.
pub proof fn lemma_page_states(s: MemoryState, accessed: usize, other: usize)
    requires
        s.inv(),
        !s.fails(accessed),
        s.tracker.attempted_memory_accesses < usize::MAX,
        other != accessed,
    ensures
        s.step(accessed).page_state(accessed) == PageState::Resident,
        s.faults(accessed) && s.owners[s.victim() as int] == Some(other) ==> s.page_state(other)
            == PageState::Resident && s.step(accessed).page_state(other) == PageState::Evicted,
        !(s.faults(accessed) && s.owners[s.victim() as int] == Some(other)) ==> s.step(
            accessed,
        ).page_state(other) == s.page_state(other),
{
    lemma_step(s, accessed);
    if s.faults(accessed) {
        let counted = MemoryState { tracker: s.count(accessed), ..s };
        lemma_eviction(counted, accessed);
        assert(s.lru[0] < s.owners.len());
    }
}

} // verus!
