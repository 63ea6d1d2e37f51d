//! A rated entry that keeps its fields to itself.

use crate::rel_vec::Tally;
use vstd::prelude::*;

verus! {

/// A rated item whose name and counters are set once, when it is made.
#[derive(Clone, Debug)]
pub struct RateEntry {
    name: String,
    wins: u32,
    votes: u32,
}

impl View for RateEntry {
    type V = Tally;

    closed spec fn view(&self) -> Tally {
        Tally { name: self.name@, wins: self.wins as nat, votes: self.votes as nat, locked: false }
    }
}

impl RateEntry {
    /// An entry with the given name and counters.
    pub fn new(name: String, wins: u32, votes: u32) -> (entry: RateEntry)
        ensures
            entry@ == (Tally { name: name@, wins: wins as nat, votes: votes as nat, locked: false }),
    {
        RateEntry { name, wins, votes }
    }
}

} // verus!
