//! Counters of what happened during a run.

use crate::text::{padded, push_padded};
use vstd::prelude::*;

verus! {

/// The counters that a run keeps. The translator counts the accesses it was
/// asked for and how each was served; whoever replays a trace counts the
/// accesses whose outcome was the expected one.
#[derive(Debug, PartialEq, Eq, Structural, Clone, Copy)]
pub struct Tracker {
    pub page_hits: usize,
    pub tlb_hits: usize,
    pub tlb_flushes: usize,
    pub attempted_memory_accesses: usize,
    pub correct_memory_accesses: usize,
}

impl Tracker {
    /// The accesses that were served neither by the translation look-aside
    /// buffer nor by a valid entry of the page table.
    pub open spec fn page_faults(self) -> int {
        self.attempted_memory_accesses - self.tlb_hits - self.page_hits
    }

    /// The counters as text: a heading, and a line for each counter, with the
    /// count in at least eight digits.
    pub open spec fn rendered(self) -> Seq<char> {
        "\nStats Tracked\n---------------------------------\npage_hits:                "@
            + padded(self.page_hits as nat, 8) + "\ntlb_hits:                 "@ + padded(
            self.tlb_hits as nat,
            8,
        ) + "\ntlb_flushes:              "@ + padded(self.tlb_flushes as nat, 8)
            + "\nattempted_memory_acceses: "@ + padded(
            self.attempted_memory_accesses as nat,
            8,
        ) + "\ncorrect_memory_accesses:  "@ + padded(self.correct_memory_accesses as nat, 8)
            + "\n"@
    }

    /// The counters as text.
    pub fn to_string(&self) -> (text: String)
        ensures
            text@ == self.rendered(),
    {
        let mut text = String::new();
        text.append(
            "\nStats Tracked\n---------------------------------\npage_hits:                ",
        );
        push_padded(&mut text, self.page_hits, 8);
        text.append("\ntlb_hits:                 ");
        push_padded(&mut text, self.tlb_hits, 8);
        text.append("\ntlb_flushes:              ");
        push_padded(&mut text, self.tlb_flushes, 8);
        text.append("\nattempted_memory_acceses: ");
        push_padded(&mut text, self.attempted_memory_accesses, 8);
        text.append("\ncorrect_memory_accesses:  ");
        push_padded(&mut text, self.correct_memory_accesses, 8);
        text.append("\n");
        assert(text@ =~= self.rendered());
        text
    }

    /// A tracker with every counter at zero.
    pub fn new() -> (tracker: Self)
        ensures
            tracker == (Tracker {
                page_hits: 0,
                tlb_hits: 0,
                tlb_flushes: 0,
                attempted_memory_accesses: 0,
                correct_memory_accesses: 0,
            }),
    {
        Self {
            page_hits: 0,
            tlb_hits: 0,
            tlb_flushes: 0,
            attempted_memory_accesses: 0,
            correct_memory_accesses: 0,
        }
    }
}

} // verus!
