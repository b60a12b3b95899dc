//! The translator: what an access to a logical address returns, and how it
//! changes the translation look-aside buffer, the page table and the frames.

use crate::address::VirtualAddress;
use crate::frame_table::FrameTable;
use crate::linked::value_of;
use crate::machine::{physical, signed, MemoryState};
use crate::page_table::{Page, PageTable};
use crate::storage;
use crate::storage::{holds_chunk, Storage};
use crate::tlb::TLB;
use crate::tracker::Tracker;
use vstd::prelude::*;
use vstd::std_specs::cmp::PartialEqSpecImpl;
use vstd::std_specs::convert::FromSpecImpl;

verus! {

/// Why an access failed.
#[derive(Debug, PartialEq, Eq, Structural, Clone, Copy)]
pub enum Error {
    /// The page had to be loaded, and the backing store does not hold it.
    BackingRead(storage::Error),
}

impl FromSpecImpl<storage::Error> for Error {
    open spec fn obeys_from_spec() -> bool {
        true
    }

    open spec fn from_spec(value: storage::Error) -> Self {
        Error::BackingRead(value)
    }
}

impl From<storage::Error> for Error {
    fn from(value: storage::Error) -> (error: Self) {
        Error::BackingRead(value)
    }
}

/// The outcome of an access: the logical address that was asked for, the
/// physical address it was translated to, and the byte read there, as a
/// signed number.
#[derive(Debug, Clone, Copy)]
pub struct AccessResult {
    pub virtual_address: VirtualAddress,
    pub physical_address: u32,
    pub value: i8,
}

impl PartialEqSpecImpl for AccessResult {
    open spec fn obeys_eq_spec() -> bool {
        true
    }

    open spec fn eq_spec(&self, other: &AccessResult) -> bool {
        self.virtual_address == other.virtual_address && self.value == other.value
    }
}

impl PartialEq for AccessResult {
    /// Two outcomes are equal when they are for the same logical address and
    /// read the same value. Where the byte was found in physical memory does
    /// not count.
    fn eq(&self, other: &Self) -> (equal: bool) {
        self.virtual_address == other.virtual_address && self.value == other.value
    }
}

/// The translator. It owns the buffer of translations, the page table, the
/// frames, the backing store and the counters, and keeps them in agreement
/// from one access to the next.
pub struct VirtualMemory {
    tlb: TLB,
    pages: PageTable,
    frames: FrameTable,
    storage: Storage,
    tracker: Tracker,
}

impl View for VirtualMemory {
    type V = MemoryState;

    /// All that the translator holds, as mathematical values.
    closed spec fn view(&self) -> MemoryState {
        MemoryState {
            tlb: self.tlb@,
            tlb_size: self.tlb.capacity(),
            pages: self.pages@,
            owners: self.frames.owners(),
            buffers: self.frames.buffers(),
            lru: self.frames.lru(),
            frame_size: self.frames.spec_frame_size(),
            image: self.storage@,
            tracker: self.tracker,
        }
    }
}

/// The byte read as a signed number.
fn to_signed(byte: u8) -> (value: i8)
    ensures
        value == signed(byte),
{
    let value = byte as i8;
    assert(value == (if byte < 128 {
        byte as i8
    } else {
        (byte - 256) as i8
    })) by (bit_vector)
        requires
            value == byte as i8,
    ;
    value
}

/// The physical address of a byte, in 32 bits.
fn to_physical(frame_index: usize, frame_size: u64, offset: usize) -> (address: u32)
    ensures
        address == physical(frame_index, frame_size, offset),
{
    assert(frame_index * frame_size + offset <= u128::MAX) by (nonlinear_arith)
        requires
            frame_index <= 0xFFFF_FFFF_FFFF_FFFF,
            frame_size <= 0xFFFF_FFFF_FFFF_FFFF,
            offset <= 0xFFFF_FFFF_FFFF_FFFF,
            u128::MAX == 0xFFFF_FFFF_FFFF_FFFF_FFFF_FFFF_FFFF_FFFF,
    ;
    assert(0 <= frame_index * frame_size <= frame_index * frame_size + offset) by (nonlinear_arith);
    let wide: u128 = (frame_index as u128) * (frame_size as u128) + (offset as u128);
    (wide % 0x1_0000_0000) as u32
}

impl VirtualMemory {
    /// What holds of the translator between two accesses.
    pub open spec fn wf(&self) -> bool {
        self@.inv()
    }

    /// A translator that has served no access yet, with a buffer of up to
    /// `tlb_size` translations and `frame_table_size` frames of `frame_size`
    /// bytes over the backing store `storage`.
    pub fn build(tlb_size: usize, frame_table_size: usize, frame_size: u64, storage: Storage) -> (memory:
        Self)
        requires
            tlb_size > 0,
            frame_table_size > 0,
            frame_size <= usize::MAX,
        ensures
            memory@ == MemoryState::initial(tlb_size, frame_table_size, frame_size, storage@),
            memory.wf(),
    {
        proof {
            crate::laws::lemma_initial(tlb_size, frame_table_size, frame_size, storage@);
        }
        Self {
            tlb: TLB::build(tlb_size),
            pages: PageTable::build(),
            frames: FrameTable::build(frame_table_size, frame_size),
            storage,
            tracker: Tracker::new(),
        }
    }

    /// The buffer of translations.
    pub fn tlb(&self) -> (tlb: &TLB)
        ensures
            tlb@ == self@.tlb,
            tlb.capacity() == self@.tlb_size,
    {
        &self.tlb
    }

    /// The page table.
    pub fn pages(&self) -> (pages: &PageTable)
        ensures
            pages@ == self@.pages,
    {
        &self.pages
    }

    /// The frames.
    pub fn frames(&self) -> (frames: &FrameTable)
        ensures
            frames.owners() == self@.owners,
            frames.buffers() == self@.buffers,
            frames.lru() == self@.lru,
            frames.spec_frame_size() == self@.frame_size,
    {
        &self.frames
    }

    /// The counters.
    pub fn tracker(&self) -> (tracker: &Tracker)
        ensures
            *tracker == self@.tracker,
    {
        &self.tracker
    }

    /// Translates the logical address and reads the byte there.
    ///
    /// The page is looked up in the buffer of translations, then in the page
    /// table; where neither has it, it is loaded into the least recently used
    /// frame, whose page thereby loses its entry in both. The frame that is
    /// found becomes the most recently used one.
    ///
    /// The access fails just when the page has to be loaded and the backing
    /// store does not hold it; the translator is then left in the middle of
    /// the page fault and serves no further access.
    pub fn access(&mut self, virtual_address: VirtualAddress) -> (result: Result<
        AccessResult,
        Error,
    >)
        requires
            old(self).wf(),
            old(self)@.tracker.attempted_memory_accesses < usize::MAX,
            virtual_address.number_offset < old(self)@.frame_size,
        ensures
            final(self)@ == old(self)@.step(virtual_address.number_page as usize),
            result == old(self)@.outcome(virtual_address),
            result is Err <==> old(self)@.fails(virtual_address.number_page as usize),
            result is Ok ==> final(self).wf(),
            result is Ok ==> {
                let page = virtual_address.number_page as usize;
                &&& final(self)@.resident(page)
                &&& value_of(final(self)@.tlb, page) == Some(final(self)@.pages[page].frame_index)
                &&& final(self)@.lru.last() == final(self)@.pages[page].frame_index
            },
            result matches Ok(found) ==> {
                &&& found.virtual_address == virtual_address
                &&& found.value == signed(
                    old(self)@.image[virtual_address.number_page * old(self)@.frame_size
                        + virtual_address.number_offset],
                )
                &&& found.physical_address == physical(
                    final(self)@.pages[virtual_address.number_page as usize].frame_index,
                    old(self)@.frame_size,
                    virtual_address.number_offset as usize,
                )
            },
    {
        let ghost before = self@;
        proof {
            if !before.fails(virtual_address.number_page as usize) {
                crate::laws::lemma_step(before, virtual_address.number_page as usize);
                crate::laws::lemma_access_reads_store(before, virtual_address);
            }
        }
        self.tracker.attempted_memory_accesses += 1;
        let page_number = virtual_address.number_page as usize;
        let offset = virtual_address.number_offset as usize;
        let frame_index = match self.tlb.find(page_number) {
            Some(cached_frame) => {
                self.tracker.tlb_hits += 1;
                cached_frame
            },
            None => {
                let resident = match self.pages.find(page_number) {
                    Some(page) if page.valid => Some(page.frame_index),
                    _ => None,
                };
                match resident {
                    Some(frame_index) => {
                        self.tracker.page_hits += 1;
                        self.tlb.cache_element(page_number, frame_index);
                        frame_index
                    },
                    None => {
                        let frame_index = match self.retrieve_frame(page_number) {
                            Ok(frame_index) => frame_index,
                            Err(error) => {
                                return Err(error);
                            },
                        };
                        self.tlb.cache_element(page_number, frame_index);
                        frame_index
                    },
                }
            },
        };
        proof {
            crate::laws::lemma_frame_for(before, page_number);
        }
        self.frames.reference(frame_index);
        Ok(
            AccessResult {
                virtual_address,
                physical_address: to_physical(frame_index, self.frames.frame_size(), offset),
                value: to_signed(self.frames.byte(frame_index, offset)),
            },
        )
    }

    /// Counts one more access whose outcome was the expected one.
    pub fn record_correct(&mut self)
        requires
            old(self)@.tracker.correct_memory_accesses < usize::MAX,
        ensures
            final(self)@ == (MemoryState {
                tracker: Tracker {
                    correct_memory_accesses: (old(self)@.tracker.correct_memory_accesses
                        + 1) as usize,
                    ..old(self)@.tracker
                },
                ..old(self)@
            }),
            old(self).wf() ==> final(self).wf(),
    {
        self.tracker.correct_memory_accesses += 1;
    }

    /// Serves a page fault: hands the least recently used frame to the page
    /// `page_number`, takes the frame from the page that held it, and loads
    /// the page from the backing store. Returns the frame.
    fn retrieve_frame(&mut self, page_number: usize) -> (result: Result<usize, Error>)
        requires
            old(self)@.well_formed(),
            old(self)@.tracker.tlb_flushes < usize::MAX,
        ensures
            final(self)@ == old(self)@.retrieve(page_number),
            final(self)@.well_formed(),
            result == if holds_chunk(
                old(self)@.image,
                page_number as int,
                old(self)@.frame_size as int,
            ) {
                Ok::<usize, Error>(old(self)@.victim())
            } else {
                Err::<usize, Error>(Error::BackingRead(storage::Error::UnexpectedEof))
            },
    {
        let frame_index = self.frames.allocate();
        if let Some(previous) = self.frames.owner(frame_index) {
            if let Some(page) = self.pages.find_mut(previous) {
                page.valid = false;
                if self.tlb.flush_element(previous) {
                    self.tracker.tlb_flushes += 1;
                }
            }
        }
        self.frames.set_owner(frame_index, page_number);
        match self.frames.load(frame_index, &self.storage, page_number as u64) {
            Ok(()) => {},
            Err(error) => {
                return Err(Error::from(error));
            },
        }
        self.pages.insert(page_number, Page { frame_index, valid: true });
        Ok(frame_index)
    }
}

} // verus!
