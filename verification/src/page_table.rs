//! The page table.

use std::collections::HashMap;
use vstd::prelude::*;

verus! {

/// What the page table knows of a page: the frame that the page was last
/// loaded into, and whether the frame still holds it.
#[derive(Debug, PartialEq, Eq, Structural, Clone, Copy)]
pub struct Page {
    pub frame_index: usize,
    pub valid: bool,
}

impl Page {
    /// An entry that points at `frame_index` and is not valid yet.
    pub fn new(frame_index: usize) -> (page: Self)
        ensures
            page == (Page { frame_index, valid: false }),
    {
        Self { frame_index, valid: false }
    }
}

/// A sparse table from page number to `Page`. An entry is made when its page
/// is first loaded, and is never taken out again: when the page loses its
/// frame, the entry stays and is marked as not valid.
pub struct PageTable(pub HashMap<usize, Page>);

impl View for PageTable {
    type V = Map<usize, Page>;

    open spec fn view(&self) -> Map<usize, Page> {
        self.0@
    }
}

/// The entry of page `id` in `table`, if it has one.
pub open spec fn entry_of(table: Map<usize, Page>, id: usize) -> Option<Page> {
    if table.contains_key(id) {
        Some(table[id])
    } else {
        None
    }
}

/// `HashMap::get_mut`: a reference to the value stored for the key, if the map
/// has one. What is written through the reference is the key's new value; no
/// other key is touched.
#[verifier::external_body]
fn table_get_mut(table: &mut HashMap<usize, Page>, id: usize) -> (page: Option<&mut Page>)
    ensures
        match page {
            Some(entry) => {
                &&& old(table)@.contains_key(id)
                &&& *entry == old(table)@[id]
                &&& final(table)@ == old(table)@.insert(id, *final(entry))
            },
            None => !old(table)@.contains_key(id) && final(table)@ == old(table)@,
        },
{
    table.get_mut(&id)
}

impl PageTable {
    /// A table without entries.
    pub fn build() -> (table: Self)
        ensures
            table@ == Map::<usize, Page>::empty(),
    {
        Self(HashMap::new())
    }

    /// The entry of page `id`, if the page was ever loaded.
    pub fn find(&self, id: usize) -> (page: Option<&Page>)
        ensures
            match page {
                Some(entry) => entry_of(self@, id) == Some(*entry),
                None => entry_of(self@, id).is_none(),
            },
    {
        broadcast use vstd::std_specs::hash::group_hash_axioms;

        self.0.get(&id)
    }

    /// The entry of page `id`, to be changed in place.
    pub fn find_mut(&mut self, id: usize) -> (page: Option<&mut Page>)
        ensures
            match page {
                Some(entry) => {
                    &&& entry_of(old(self)@, id) == Some(*entry)
                    &&& final(self)@ == old(self)@.insert(id, *final(entry))
                },
                None => entry_of(old(self)@, id).is_none() && final(self)@ == old(self)@,
            },
    {
        table_get_mut(&mut self.0, id)
    }

    /// Makes `page` the entry of page `id`, in place of the entry that the
    /// page may have had.
    pub fn insert(&mut self, id: usize, page: Page)
        ensures
            final(self)@ == old(self)@.insert(id, page),
    {
        broadcast use vstd::std_specs::hash::group_hash_axioms;

        self.0.insert(id, page);
    }
}

} // verus!
