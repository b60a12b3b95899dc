//! The translator as a state machine over mathematical values: what it holds,
//! what must be true of it between two accesses, and what one access does.

use crate::address::VirtualAddress;
use crate::frame_table::{is_order, promote};
use crate::linked::{distinct_keys, has_key, value_of, without};
use crate::page_table::Page;
use crate::storage::{chunk, holds_chunk};
use crate::tlb::cached;
use crate::tracker::Tracker;
use crate::virtual_memory::{AccessResult, Error};
use vstd::prelude::*;

verus! {

/// All that the translator holds.
pub struct MemoryState {
    /// The cached translations, page number and frame index, oldest first.
    pub tlb: Seq<(usize, usize)>,
    /// The bound on the number of cached translations.
    pub tlb_size: usize,
    /// The page table.
    pub pages: Map<usize, Page>,
    /// For each frame, the page it holds, if any.
    pub owners: Seq<Option<usize>>,
    /// For each frame, its bytes.
    pub buffers: Seq<Seq<u8>>,
    /// The frame indices, from the least to the most recently referenced.
    pub lru: Seq<usize>,
    /// The number of bytes in a frame, and in a page.
    pub frame_size: u64,
    /// The bytes of the backing store.
    pub image: Seq<u8>,
    /// The counters.
    pub tracker: Tracker,
}

/// Where a page stands.
#[derive(Debug, PartialEq, Eq, Structural, Clone, Copy)]
pub enum PageState {
    /// The page was never loaded: the page table has no entry for it.
    Unknown,
    /// The page has a valid entry, and a frame holds it.
    Resident,
    /// The page has an entry that is not valid: it lost its frame.
    Evicted,
}

/// The byte `byte` read as a signed number: the same eight bits.
pub open spec fn signed(byte: u8) -> i8 {
    if byte < 128 {
        byte as i8
    } else {
        (byte - 256) as i8
    }
}

/// The physical address of the byte at `offset` in the frame `frame`, in 32
/// bits.
pub open spec fn physical(frame: usize, frame_size: u64, offset: usize) -> u32 {
    ((frame * frame_size + offset) % 0x1_0000_0000) as u32
}

/// The number of frames that hold a page.
pub open spec fn occupied(owners: Seq<Option<usize>>) -> nat
    decreases owners.len(),
{
    if owners.len() == 0 {
        0
    } else {
        occupied(owners.drop_last()) + if owners.last().is_some() {
            1nat
        } else {
            0nat
        }
    }
}

/// The page has a valid entry in the page table `pages`.
pub open spec fn resident_in(pages: Map<usize, Page>, page: usize) -> bool {
    pages.contains_key(page) && pages[page].valid
}

/// Every cached translation is the one of a valid entry of the page table.
pub open spec fn tlb_agrees(tlb: Seq<(usize, usize)>, pages: Map<usize, Page>) -> bool {
    forall|page: usize| #[trigger]
        has_key(tlb, page) ==> resident_in(pages, page) && value_of(tlb, page) == Some(
            pages[page].frame_index,
        )
}

/// Every valid entry of the page table points at a frame that holds its
/// page.
pub open spec fn pages_agree(pages: Map<usize, Page>, owners: Seq<Option<usize>>) -> bool {
    forall|page: usize| #[trigger]
        resident_in(pages, page) ==> pages[page].frame_index < owners.len()
            && owners[pages[page].frame_index as int] == Some(page)
}

/// Every frame that holds a page is the one that the page's valid entry
/// points at, and has the bytes of the page's image in the backing store.
pub open spec fn frames_agree(
    owners: Seq<Option<usize>>,
    buffers: Seq<Seq<u8>>,
    pages: Map<usize, Page>,
    image: Seq<u8>,
    frame_size: u64,
) -> bool {
    forall|f: int|
        0 <= f < owners.len() ==> match #[trigger] owners[f] {
            Some(page) => {
                &&& resident_in(pages, page)
                &&& pages[page].frame_index == f
                &&& holds_chunk(image, page as int, frame_size as int)
                &&& buffers[f] == chunk(image, page as int, frame_size as int)
            },
            None => true,
        }
}

/// In the order of reference, the frames that hold no page stand before
/// those that hold one.
pub open spec fn free_first(lru: Seq<usize>, owners: Seq<Option<usize>>) -> bool {
    forall|i: int, j: int|
        0 <= i < j < lru.len() && owners[#[trigger] lru[j] as int].is_none()
            ==> owners[#[trigger] lru[i] as int].is_none()
}

impl MemoryState {
    /// The state of a translator that has served no access yet.
    pub open spec fn initial(
        tlb_size: usize,
        frame_table_size: usize,
        frame_size: u64,
        image: Seq<u8>,
    ) -> MemoryState {
        MemoryState {
            tlb: Seq::empty(),
            tlb_size,
            pages: Map::empty(),
            owners: Seq::new(frame_table_size as nat, |f: int| None::<usize>),
            buffers: Seq::new(
                frame_table_size as nat,
                |f: int| Seq::new(frame_size as nat, |i: int| 0u8),
            ),
            lru: Seq::new(frame_table_size as nat, |i: int| i as usize),
            frame_size,
            image,
            tracker: Tracker {
                page_hits: 0,
                tlb_hits: 0,
                tlb_flushes: 0,
                attempted_memory_accesses: 0,
                correct_memory_accesses: 0,
            },
        }
    }

    /// The page has a valid entry in the page table.
    pub open spec fn resident(self, page: usize) -> bool {
        resident_in(self.pages, page)
    }

    /// Where the page stands.
    pub open spec fn page_state(self, page: usize) -> PageState {
        if !self.pages.contains_key(page) {
            PageState::Unknown
        } else if self.pages[page].valid {
            PageState::Resident
        } else {
            PageState::Evicted
        }
    }

    /// The frame that the next page fault hands out: the least recently
    /// referenced one.
    pub open spec fn victim(self) -> usize {
        self.lru.first()
    }

    /// The number of pages that were ever loaded.
    pub open spec fn loaded_pages(self) -> nat {
        self.pages.dom().len()
    }

    /// The number of page faults that took a frame from the page it held.
    pub open spec fn evictions(self) -> int {
        self.tracker.page_faults() - occupied(self.owners)
    }

    /// There is a frame; every frame index stands once in the order of
    /// reference, the frames that hold no page first; every frame has the
    /// frame size; and the buffer of translations holds no page twice and is
    /// within its bound.
    pub open spec fn well_formed(self) -> bool {
        &&& self.owners.len() > 0
        &&& self.buffers.len() == self.owners.len()
        &&& is_order(self.lru, self.owners.len())
        &&& forall|f: int|
            0 <= f < self.buffers.len() ==> (#[trigger] self.buffers[f]).len() == self.frame_size
        &&& distinct_keys(self.tlb)
        &&& 0 < self.tlb_size
        &&& self.tlb.len() <= self.tlb_size
        &&& self.pages.dom().finite()
        &&& free_first(self.lru, self.owners)
    }

    /// The three caches agree. A cached translation is the one of a valid
    /// entry of the page table; a valid entry points at a frame that holds
    /// its page; and a frame that holds a page is the one that the page's
    /// valid entry points at, and has the bytes of the page's image in the
    /// backing store.
    pub open spec fn coherent(self) -> bool {
        &&& tlb_agrees(self.tlb, self.pages)
        &&& pages_agree(self.pages, self.owners)
        &&& frames_agree(self.owners, self.buffers, self.pages, self.image, self.frame_size)
    }

    /// The counters agree with what the caches hold. Every access was served
    /// in one of three ways; no more pages were loaded, and no more frames
    /// filled, than there were page faults; and a translation was flushed
    /// only when a page lost its frame.
    pub open spec fn accounted(self) -> bool {
        &&& self.tracker.tlb_hits + self.tracker.page_hits
            <= self.tracker.attempted_memory_accesses
        &&& self.loaded_pages() <= self.tracker.page_faults()
        &&& occupied(self.owners) <= self.tracker.page_faults()
        &&& self.tracker.tlb_flushes <= self.evictions()
    }

    /// What holds of the translator between two accesses.
    pub open spec fn inv(self) -> bool {
        &&& self.well_formed()
        &&& self.coherent()
        &&& self.accounted()
    }

    /// The first half of a page fault on `page`. The least recently referenced
    /// frame becomes the most recently referenced one. The page that it held
    /// loses its valid entry and its cached translation, and a translation
    /// that was flushed is counted. The frame is then recorded as holding
    /// `page`.
    pub open spec fn evict(self, page: usize) -> MemoryState {
        let frame = self.victim();
        let flushed = match self.owners[frame as int] {
            Some(previous) if self.pages.contains_key(previous) => MemoryState {
                pages: self.pages.insert(
                    previous,
                    Page { frame_index: self.pages[previous].frame_index, valid: false },
                ),
                tlb: without(self.tlb, previous),
                tracker: if has_key(self.tlb, previous) {
                    Tracker {
                        tlb_flushes: (self.tracker.tlb_flushes + 1) as usize,
                        ..self.tracker
                    }
                } else {
                    self.tracker
                },
                ..self
            },
            _ => self,
        };
        MemoryState {
            lru: promote(self.lru, frame),
            owners: self.owners.update(frame as int, Some(page)),
            ..flushed
        }
    }

    /// The second half of a page fault on `page`: the frame gets the bytes of
    /// the page's image, and the page a valid entry that points at the frame.
    pub open spec fn load(self, page: usize, frame: usize) -> MemoryState {
        MemoryState {
            buffers: self.buffers.update(
                frame as int,
                chunk(self.image, page as int, self.frame_size as int),
            ),
            pages: self.pages.insert(page, Page { frame_index: frame, valid: true }),
            ..self
        }
    }

    /// The state after a page fault on `page`. Where the backing store does
    /// not hold the page, the fault stops after its first half.
    pub open spec fn retrieve(self, page: usize) -> MemoryState {
        if holds_chunk(self.image, page as int, self.frame_size as int) {
            self.evict(page).load(page, self.victim())
        } else {
            self.evict(page)
        }
    }

    /// The page is found neither in the buffer of translations nor, as valid,
    /// in the page table.
    pub open spec fn faults(self, page: usize) -> bool {
        !has_key(self.tlb, page) && !self.resident(page)
    }

    /// The access to `page` cannot be served: the page has to be loaded and
    /// the backing store does not hold it.
    pub open spec fn fails(self, page: usize) -> bool {
        self.faults(page) && !holds_chunk(self.image, page as int, self.frame_size as int)
    }

    /// The frame in which an access to `page` finds the page.
    pub open spec fn frame_for(self, page: usize) -> usize {
        if has_key(self.tlb, page) {
            value_of(self.tlb, page).unwrap()
        } else if self.resident(page) {
            self.pages[page].frame_index
        } else {
            self.victim()
        }
    }

    /// The counters after an access to `page` was counted.
    pub open spec fn count(self, page: usize) -> Tracker {
        let attempted = (self.tracker.attempted_memory_accesses + 1) as usize;
        if has_key(self.tlb, page) {
            Tracker {
                attempted_memory_accesses: attempted,
                tlb_hits: (self.tracker.tlb_hits + 1) as usize,
                ..self.tracker
            }
        } else if self.resident(page) {
            Tracker {
                attempted_memory_accesses: attempted,
                page_hits: (self.tracker.page_hits + 1) as usize,
                ..self.tracker
            }
        } else {
            Tracker { attempted_memory_accesses: attempted, ..self.tracker }
        }
    }

    /// The state after an access to `page`.
    pub open spec fn step(self, page: usize) -> MemoryState {
        let counted = MemoryState { tracker: self.count(page), ..self };
        if self.fails(page) {
            counted.evict(page)
        } else {
            let frame = self.frame_for(page);
            let found = if has_key(self.tlb, page) {
                counted
            } else {
                let present = if self.resident(page) {
                    counted
                } else {
                    counted.retrieve(page)
                };
                MemoryState {
                    tlb: cached(present.tlb, present.tlb_size, page, frame),
                    ..present
                }
            };
            MemoryState { lru: promote(found.lru, frame), ..found }
        }
    }

    /// The state after the accesses to `pages`, one after the other.
    pub open spec fn replay(self, pages: Seq<usize>) -> MemoryState
        decreases pages.len(),
    {
        if pages.len() == 0 {
            self
        } else {
            self.replay(pages.drop_last()).step(pages.last())
        }
    }

    /// None of the accesses to `pages`, one after the other, fails.
    pub open spec fn serves(self, pages: Seq<usize>) -> bool
        decreases pages.len(),
    {
        pages.len() == 0 || (self.serves(pages.drop_last()) && !self.replay(
            pages.drop_last(),
        ).fails(pages.last()))
    }

    /// What an access to `address` returns.
    pub open spec fn outcome(self, address: VirtualAddress) -> Result<AccessResult, Error> {
        let page = address.number_page as usize;
        let offset = address.number_offset as usize;
        if self.fails(page) {
            Err(Error::BackingRead(crate::storage::Error::UnexpectedEof))
        } else {
            let frame = self.frame_for(page);
            Ok(
                AccessResult {
                    virtual_address: address,
                    physical_address: physical(frame, self.frame_size, offset),
                    value: signed(self.step(page).buffers[frame as int][offset as int]),
                },
            )
        }
    }
}

} // verus!
