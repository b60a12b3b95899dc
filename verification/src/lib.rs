//! A demand-paged virtual memory simulator.
//!
//! A logical address is split into a page number and an offset. The page is
//! looked up in a translation look-aside buffer, then in a page table, and is
//! loaded from a read-only backing store into a pool of frames when it is
//! resident in neither. Both the buffer and the pool replace their least
//! recently used entry.

pub mod address;
pub mod config;
pub mod frame_table;
pub mod laws;
pub mod linked;
pub mod machine;
pub mod page_table;
pub mod stattrack;
pub mod storage;
pub mod text;
pub mod tlb;
pub mod tracker;
pub mod validator;
pub mod virtual_memory;

use crate::address::VirtualAddress;
use crate::config::Config;
use crate::machine::MemoryState;
use crate::storage::Storage;
use crate::tracker::Tracker;
use crate::virtual_memory::{AccessResult, Error, VirtualMemory};
use vstd::prelude::*;

verus! {

/// Selects the bits of an address that hold the page number.
pub const MASK_PAGE: u32 = 0x0000FF00;

/// Selects the bits of an address that hold the offset within the page.
pub const MASK_OFFSET: u32 = 0x000000FF;

/// The exit code of a run in which every access returned what was expected.
pub const EXIT_OK: u8 = 0;

/// The exit code of a program whose configuration was refused.
pub const EXIT_CONFIG: u8 = 1;

/// The exit code of a run in which some access returned something else.
pub const EXIT_MISMATCH: u8 = 2;

/// A run: a translator, and the count of its accesses that returned what the
/// validation trace expected.
pub struct Simulation {
    virtual_memory: VirtualMemory,
}

/// What one record of a run came to.
#[derive(Debug, Clone, Copy)]
pub struct Observation {
    /// What the access returned.
    pub received: AccessResult,
    /// Whether that is what was expected: the same logical address and the
    /// same value.
    pub correct: bool,
}

/// The counters `tracker` with one more correct access, where `correct`
/// holds.
pub open spec fn tally(tracker: Tracker, correct: bool) -> Tracker {
    if correct {
        Tracker {
            correct_memory_accesses: (tracker.correct_memory_accesses + 1) as usize,
            ..tracker
        }
    } else {
        tracker
    }
}

impl View for Simulation {
    type V = MemoryState;

    closed spec fn view(&self) -> MemoryState {
        self.virtual_memory@
    }
}

impl Simulation {
    /// The translator is in order, and no more accesses were counted as
    /// correct than were made.
    pub open spec fn wf(&self) -> bool {
        &&& self@.inv()
        &&& self@.tracker.correct_memory_accesses <= self@.tracker.attempted_memory_accesses
    }

    /// A run with the sizes of `config` over the backing store `storage`, if
    /// the configuration is acceptable.
    pub fn build(config: &Config, storage: Storage) -> (result: Result<Self, config::Error>)
        ensures
            match result {
                Ok(simulation) => {
                    &&& config.validate_spec() is Ok
                    &&& simulation.wf()
                    &&& simulation@ == MemoryState::initial(
                        config.size_tlb as usize,
                        config.size_table as usize,
                        config.size_frame as u64,
                        storage@,
                    )
                },
                Err(error) => config.validate_spec() == Err::<(), config::Error>(error),
            },
    {
        match config.validate() {
            Ok(()) => {},
            Err(error) => {
                return Err(error);
            },
        }
        Ok(
            Self {
                virtual_memory: VirtualMemory::build(
                    config.size_tlb as usize,
                    config.size_table as usize,
                    config.size_frame as u64,
                    storage,
                ),
            },
        )
    }

    /// The translator of the run.
    pub fn virtual_memory(&self) -> (memory: &VirtualMemory)
        ensures
            memory@ == self@,
    {
        &self.virtual_memory
    }

    /// Makes the access to `virtual_address`, holds what it returns against
    /// `validation_entry`, and counts the access as correct where the two are
    /// equal.
    pub fn step(&mut self, virtual_address: VirtualAddress, validation_entry: &AccessResult) -> (result:
        Result<Observation, Error>)
        requires
            old(self).wf(),
            old(self)@.tracker.attempted_memory_accesses < usize::MAX,
            virtual_address.number_offset < old(self)@.frame_size,
        ensures
            match result {
                Ok(observation) => {
                    let after = old(self)@.step(virtual_address.number_page as usize);
                    &&& old(self)@.outcome(virtual_address) == Ok::<AccessResult, Error>(
                        observation.received,
                    )
                    &&& observation.correct == (observation.received.virtual_address
                        == validation_entry.virtual_address && observation.received.value
                        == validation_entry.value)
                    &&& final(self)@ == (MemoryState {
                        tracker: tally(after.tracker, observation.correct),
                        ..after
                    })
                    &&& final(self).wf()
                },
                Err(error) => {
                    &&& old(self)@.outcome(virtual_address) == Err::<AccessResult, Error>(error)
                    &&& final(self)@ == old(self)@.step(virtual_address.number_page as usize)
                },
            },
    {
        let received = match self.virtual_memory.access(virtual_address) {
            Ok(received) => received,
            Err(error) => {
                return Err(error);
            },
        };
        let correct = received == *validation_entry;
        if correct {
            self.virtual_memory.record_correct();
        }
        Ok(Observation { received, correct })
    }

    /// The exit code of the run as it stands: success where every access so
    /// far returned what was expected.
    pub fn exit_code(&self) -> (code: u8)
        ensures
            code == if self@.tracker.attempted_memory_accesses
                == self@.tracker.correct_memory_accesses {
                EXIT_OK
            } else {
                EXIT_MISMATCH
            },
    {
        let tracker = self.virtual_memory.tracker();
        if tracker.attempted_memory_accesses == tracker.correct_memory_accesses {
            EXIT_OK
        } else {
            EXIT_MISMATCH
        }
    }
}

} // verus!
