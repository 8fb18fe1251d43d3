//! The tenders found in earlier sessions, keyed by their number.

use vstd::prelude::*;
use std::collections::HashMap;
use crate::page_parser::{Tender, TenderView};

verus! {

broadcast use vstd::std_specs::hash::group_hash_axioms;

/// The tenders already reported, keyed by their number.
pub struct TendersStorage(pub HashMap<usize, Tender>);

impl View for TendersStorage {
    type V = Map<usize, TenderView>;

    open spec fn view(&self) -> Map<usize, TenderView> {
        self.0@.map_values(|t: Tender| t@)
    }
}

impl TendersStorage {
    /// An empty storage.
    pub fn new() -> (r: TendersStorage)
        ensures
            r@ == Map::<usize, TenderView>::empty(),
    {
        let r = TendersStorage(HashMap::new());
        assert(r@ =~= Map::<usize, TenderView>::empty());
        r
    }

    /// The storage that holds these tenders.
    pub fn from_map(map: HashMap<usize, Tender>) -> (r: TendersStorage)
        ensures
            r.0@ == map@,
    {
        TendersStorage(map)
    }

    /// Whether a tender with this tender's number is stored.
    pub fn contains(&self, tender: &Tender) -> (r: bool)
        ensures
            r == self@.contains_key(tender.id),
    {
        self.0.contains_key(&tender.id)
    }

    /// Stores the tender under its number, in place of one stored before.
    pub fn push(&mut self, tender: Tender)
        ensures
            final(self)@ == old(self)@.insert(tender.id, tender@),
    {
        let ghost t = tender;
        self.0.insert(tender.id, tender);
        assert(self@ =~= old(self)@.insert(t.id, t@));
    }
}

/// A tender pushed into the storage is then found there, with its number and
/// contents; what was stored under other numbers stays as it was.
pub proof fn lemma_push_then_contains(before: TendersStorage, after: TendersStorage, pushed: Tender, other: usize)
    requires
        after@ == before@.insert(pushed.id, pushed@),
    ensures
        after@.contains_key(pushed.id),
        after@[pushed.id] == pushed@,
        other != pushed.id ==> (after@.contains_key(other) == before@.contains_key(other)),
        other != pushed.id && before@.contains_key(other) ==> after@[other] == before@[other],
{
}

} // verus!
