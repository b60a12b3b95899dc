//! Counters of hits and faults that can be added up.

use crate::text::{padded, push_padded};
use std::ops::{Add, AddAssign};
use vstd::prelude::*;
use vstd::std_specs::ops::AddSpecImpl;

verus! {

/// Counts of the hits and the faults at each of the three caches, and of the
/// accesses that returned what was expected. Two records add up field by
/// field, so that each part of a run can keep its own.
#[derive(Debug, PartialEq, Eq, Structural, Copy, Clone)]
pub struct StatTracker {
    pub page_faults: usize,
    pub page_hits: usize,
    pub tlb_faults: usize,
    pub tlb_hits: usize,
    pub frame_hits: usize,
    pub frame_faults: usize,
    pub correct_memory_accesses: usize,
}

impl StatTracker {
    /// A record with every counter at zero.
    pub fn new() -> (tracker: Self)
        ensures
            tracker == (StatTracker {
                page_faults: 0,
                page_hits: 0,
                tlb_faults: 0,
                tlb_hits: 0,
                frame_hits: 0,
                frame_faults: 0,
                correct_memory_accesses: 0,
            }),
    {
        Self {
            page_faults: 0,
            page_hits: 0,
            tlb_faults: 0,
            tlb_hits: 0,
            frame_hits: 0,
            frame_faults: 0,
            correct_memory_accesses: 0,
        }
    }

    /// Every counter of the sum of the two records fits its field.
    pub open spec fn can_add(self, rhs: StatTracker) -> bool {
        &&& self.page_faults + rhs.page_faults <= usize::MAX
        &&& self.page_hits + rhs.page_hits <= usize::MAX
        &&& self.tlb_faults + rhs.tlb_faults <= usize::MAX
        &&& self.tlb_hits + rhs.tlb_hits <= usize::MAX
        &&& self.frame_hits + rhs.frame_hits <= usize::MAX
        &&& self.frame_faults + rhs.frame_faults <= usize::MAX
        &&& self.correct_memory_accesses + rhs.correct_memory_accesses <= usize::MAX
    }

    /// The sum of the two records, field by field.
    pub open spec fn sum(self, rhs: StatTracker) -> StatTracker {
        StatTracker {
            page_faults: (self.page_faults + rhs.page_faults) as usize,
            page_hits: (self.page_hits + rhs.page_hits) as usize,
            tlb_faults: (self.tlb_faults + rhs.tlb_faults) as usize,
            tlb_hits: (self.tlb_hits + rhs.tlb_hits) as usize,
            frame_hits: (self.frame_hits + rhs.frame_hits) as usize,
            frame_faults: (self.frame_faults + rhs.frame_faults) as usize,
            correct_memory_accesses: (self.correct_memory_accesses
                + rhs.correct_memory_accesses) as usize,
        }
    }

    /// The record as text: a heading, and a line for each counter, with the
    /// count in at least eight digits.
    pub open spec fn rendered(self) -> Seq<char> {
        "\nStats Tracked\n---------------------------------\npage_faults:             "@
            + padded(self.page_faults as nat, 8) + "\npage_hits:               "@ + padded(
            self.page_hits as nat,
            8,
        ) + "\ntlb_faults:              "@ + padded(self.tlb_faults as nat, 8)
            + "\ntlb_hits:                "@ + padded(self.tlb_hits as nat, 8)
            + "\nframe_hits:              "@ + padded(self.frame_hits as nat, 8)
            + "\nframe_faults:            "@ + padded(self.frame_faults as nat, 8)
            + "\ncorrect_memory_accesses: "@ + padded(self.correct_memory_accesses as nat, 8)
            + "\n               "@
    }

    /// The record as text.
    pub fn to_string(&self) -> (text: String)
        ensures
            text@ == self.rendered(),
    {
        let mut text = String::new();
        text.append(
            "\nStats Tracked\n---------------------------------\npage_faults:             ",
        );
        push_padded(&mut text, self.page_faults, 8);
        text.append("\npage_hits:               ");
        push_padded(&mut text, self.page_hits, 8);
        text.append("\ntlb_faults:              ");
        push_padded(&mut text, self.tlb_faults, 8);
        text.append("\ntlb_hits:                ");
        push_padded(&mut text, self.tlb_hits, 8);
        text.append("\nframe_hits:              ");
        push_padded(&mut text, self.frame_hits, 8);
        text.append("\nframe_faults:            ");
        push_padded(&mut text, self.frame_faults, 8);
        text.append("\ncorrect_memory_accesses: ");
        push_padded(&mut text, self.correct_memory_accesses, 8);
        text.append("\n               ");
        assert(text@ =~= self.rendered());
        text
    }
}

impl AddSpecImpl<StatTracker> for StatTracker {
    open spec fn obeys_add_spec() -> bool {
        true
    }

    open spec fn add_req(self, rhs: StatTracker) -> bool {
        self.can_add(rhs)
    }

    open spec fn add_spec(self, rhs: StatTracker) -> StatTracker {
        self.sum(rhs)
    }
}

impl Add<StatTracker> for StatTracker {
    type Output = StatTracker;

    /// The sum of the two records, field by field.
    fn add(self, rhs: StatTracker) -> (total: StatTracker) {
        StatTracker {
            page_faults: self.page_faults + rhs.page_faults,
            page_hits: self.page_hits + rhs.page_hits,
            tlb_faults: self.tlb_faults + rhs.tlb_faults,
            tlb_hits: self.tlb_hits + rhs.tlb_hits,
            frame_hits: self.frame_hits + rhs.frame_hits,
            frame_faults: self.frame_faults + rhs.frame_faults,
            correct_memory_accesses: self.correct_memory_accesses + rhs.correct_memory_accesses,
        }
    }
}

impl AddAssign for StatTracker {
    /// Adds the other record to this one.
    fn add_assign(&mut self, rhs: Self)
        requires
            old(self).can_add(rhs),
        ensures
            *final(self) == old(self).sum(rhs),
    {
        *self = self.add(rhs)
    }
}

} // verus!
