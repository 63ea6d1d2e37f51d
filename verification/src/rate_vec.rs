//! The store of the earlier file format: the same entries without a lock,
//! kept in a file without a prefix.

use crate::error::Error;
use crate::random::{draw_below, thread_source};
use crate::rel_vec::{
    fresh_tallies, fresh_tally, least_voted_positions, lists_least_voted, names_of, same_names,
    shift_pair, show, shown, tallies, tallies_of, Rated, RelEntry, RelVec, Tally,
};
use crate::storage::{
    all_spelled, create_data, decoded, lemma_decoded_image, lines_of, load_data, not_text,
    save_data, sequence_image, spelled, unlocked,
};
use rand::rngs::ThreadRng;
use vstd::prelude::*;

verus! {

/// One rated item of the earlier format: a name, its wins and its votes.
#[derive(Clone, Debug)]
pub struct RateEntry {
    pub name: String,
    pub wins: u32,
    pub votes: u32,
}

impl View for RateEntry {
    type V = Tally;

    open spec fn view(&self) -> Tally {
        Tally { name: self.name@, wins: self.wins as nat, votes: self.votes as nat, locked: false }
    }
}

impl RateEntry {
    /// An entry with the given counters.
    pub fn new(name: String, wins: u32, votes: u32) -> (entry: RateEntry)
        ensures
            entry == (RateEntry { name, wins, votes }),
            entry@ == (Tally { name: name@, wins: wins as nat, votes: votes as nat, locked: false }),
    {
        RateEntry { name, wins, votes }
    }

    /// The line that shows this entry, with the percentage as the caller has
    /// written it.
    pub fn to_string(&self, percentage: &str) -> (line: String)
        ensures
            line@ == shown(self@, percentage@),
    {
        show(&self.name, self.wins, self.votes, percentage)
    }
}

impl PartialEq for RateEntry {
    /// Two entries are the same entry when they have the same name.
    fn eq(&self, other: &Self) -> (same: bool) {
        self.name == other.name
    }
}

impl vstd::std_specs::cmp::PartialEqSpecImpl for RateEntry {
    open spec fn obeys_eq_spec() -> bool {
        true
    }

    open spec fn eq_spec(&self, other: &Self) -> bool {
        self.name@ == other.name@
    }
}

impl Rated for RateEntry {
    open spec fn tally(&self) -> Tally {
        self@
    }

    fn votes_cast(&self) -> (votes: u32) {
        self.votes
    }

    fn label(&self) -> (name: &String) {
        &self.name
    }
}

/// The tallies of a run of entries, in order.
pub open spec fn rate_tallies(entries: Seq<RateEntry>) -> Seq<Tally> {
    Seq::new(entries.len(), |i: int| entries[i]@)
}

/// The entries as entries of the earlier format, which has no lock.
fn without_locks(data: Vec<RelEntry>) -> (inner: Vec<RateEntry>)
    ensures
        rate_tallies(inner@) == unlocked(tallies(data@)),
{
    let ghost run = tallies(data@);
    let mut inner: Vec<RateEntry> = Vec::new();
    for entry in it: data
        invariant
            tallies(it.seq()) == run,
            rate_tallies(inner@) =~= unlocked(run).take(it.index()),
    {
        let ghost before = rate_tallies(inner@);
        assert(run[it.index()] == entry@);
        inner.push(RateEntry::new(entry.name, entry.wins, entry.votes));
        assert(rate_tallies(inner@) =~= before.push(unlocked(run)[it.index()]));
    }
    assert(unlocked(run).take(run.len() as int) =~= unlocked(run));
    inner
}

/// The ordered collection of entries of the earlier format, with its random
/// source.
#[derive(Clone, Debug)]
pub struct RateVec {
    pub inner: Vec<RateEntry>,
    pub rng: ThreadRng,
}

impl View for RateVec {
    type V = Seq<Tally>;

    open spec fn view(&self) -> Seq<Tally> {
        rate_tallies(self.inner@)
    }
}

impl RateVec {
    /// An empty store.
    pub fn new() -> (store: RateVec)
        ensures
            store@ == Seq::<Tally>::empty(),
    {
        RateVec { inner: Vec::new(), rng: thread_source() }
    }

    /// A store with one fresh entry per name, in the order given.
    pub fn create(names: Vec<String>) -> (store: RateVec)
        ensures
            store@ == fresh_tallies(names@),
    {
        let inner: Vec<RateEntry> = without_locks(create_data(names));
        assert(unlocked(fresh_tallies(names@)) =~= fresh_tallies(names@));
        RateVec { inner, rng: thread_source() }
    }

    /// A store with one fresh entry per line of the text, in the order of the
    /// lines. A text that is not valid UTF-8 is an input failure.
    pub fn from(text: &[u8]) -> (read: Result<RateVec, Error>)
        ensures
            match read {
                Ok(store) => all_spelled(lines_of(text@)) && store@ == Seq::new(
                    lines_of(text@).len(),
                    |i: int| fresh_tally(spelled(lines_of(text@))[i]),
                ),
                Err(error) => !all_spelled(lines_of(text@)) && (error matches Error::IoError(message)
                    && message@ == not_text()),
            },
    {
        match RelVec::from(text) {
            Ok(store) => {
                assert(unlocked(store@) =~= store@);
                Ok(RateVec { inner: without_locks(store.inner), rng: store.rng })
            },
            Err(error) => Err(error),
        }
    }

    /// The store that the bytes of a file of the earlier format hold: the
    /// entry sequence that the bytes begin with. Bytes that begin with none
    /// are a serialization failure.
    pub fn load(bytes: &[u8]) -> (read: Result<RateVec, Error>)
        ensures
            match decoded(bytes@) {
                Some(run) => read matches Ok(store) && store@ == run,
                None => read matches Err(Error::Serde),
            },
    {
        match load_data(bytes) {
            Ok(data) => Ok(RateVec { inner: without_locks(data), rng: thread_source() }),
            Err(error) => Err(error),
        }
    }

    /// The bytes of the file of the earlier format that holds this store:
    /// the image of the entries, with no prefix. Loading them gives the store
    /// back.
    pub fn save(&self) -> (image: Vec<u8>)
        ensures
            image@ == sequence_image(self@),
            decoded(image@) == Some(self@),
    {
        let mut data: Vec<RelEntry> = Vec::new();
        let mut i: usize = 0;
        while i < self.inner.len()
            invariant
                i <= self.inner.len(),
                tallies(data@) =~= self@.take(i as int),
            decreases self.inner.len() - i,
        {
            let ghost before = tallies(data@);
            let entry: &RateEntry = &self.inner[i];
            data.push(RelEntry::new(entry.name.clone(), entry.wins, entry.votes));
            assert(tallies(data@) =~= before.push(self@[i as int]));
            i = i + 1;
        }
        assert(self@.take(i as int) =~= self@);
        let image: Vec<u8> = save_data(data.as_slice());
        proof {
            lemma_decoded_image(self@, Seq::<u8>::empty());
            assert(sequence_image(self@) + Seq::<u8>::empty() =~= sequence_image(self@));
            assert(unlocked(self@) =~= self@);
        }
        image
    }

    /// The positions of the entries with the fewest votes, in rising order.
    pub fn min_votes(&mut self) -> (found: Vec<usize>)
        ensures
            final(self).inner@ == old(self).inner@,
            lists_least_voted(old(self)@, found@),
            old(self)@.len() > 0 ==> found@.len() > 0,
    {
        assert(tallies_of(self.inner@) =~= self@);
        least_voted_positions(&self.inner)
    }

    /// Two different entries drawn at random, the first among all and the
    /// second among the rest, each to be changed in its place. `None` where
    /// the store has no two entries.
    pub fn random_pair(&mut self) -> (pair: Option<(&mut RateEntry, &mut RateEntry)>)
        ensures
            old(self)@.len() < 2 ==> pair is None && final(self).inner@ == old(self).inner@,
            old(self)@.len() >= 2 ==> pair is Some,
            pair matches Some((a, b)) ==> exists|i: int, j: int|
                #![trigger old(self).inner@[i], old(self).inner@[j]]
                {
                    &&& 0 <= i < old(self).inner@.len()
                    &&& 0 <= j < old(self).inner@.len()
                    &&& i != j
                    &&& *a == old(self).inner@[i]
                    &&& *b == old(self).inner@[j]
                    &&& final(self).inner@ == old(self).inner@.update(i, *final(a)).update(
                        j,
                        *final(b),
                    )
                },
    {
        let len: usize = self.inner.len();
        if len < 2 {
            return None;
        }
        let i1: usize = draw_below(&mut self.rng, len);
        let draw: usize = draw_below(&mut self.rng, len - 1);
        let (i1, i2) = shift_pair(i1, draw);
        let ghost start = self.inner@;
        assert(start == old(self).inner@);
        let slice: &mut [RateEntry] = self.inner.as_mut_slice();
        if i1 < i2 {
            let (a, b) = slice.split_at_mut(i2);
            let first: &mut RateEntry = &mut a[i1];
            let second: &mut RateEntry = &mut b[0];
            proof {
                assert(after_borrow(self.inner)@ =~= start.update(i1 as int, *final(first)).update(
                    i2 as int,
                    *final(second),
                ));
                assert(*first == start[i1 as int]);
                assert(*second == start[i2 as int]);
            }
            Some((first, second))
        } else {
            let (a, b) = slice.split_at_mut(i1);
            let first: &mut RateEntry = &mut b[0];
            let second: &mut RateEntry = &mut a[i2];
            proof {
                assert(after_borrow(self.inner)@ =~= start.update(i1 as int, *final(first)).update(
                    i2 as int,
                    *final(second),
                ));
                assert(*first == start[i1 as int]);
                assert(*second == start[i2 as int]);
            }
            Some((first, second))
        }
    }
}

impl PartialEq for RateVec {
    /// Two stores are equal when they hold the same names in the same order.
    fn eq(&self, other: &Self) -> (same: bool) {
        assert(tallies_of(self.inner@) =~= self@);
        assert(tallies_of(other.inner@) =~= other@);
        same_names(&self.inner, &other.inner)
    }
}

impl vstd::std_specs::cmp::PartialEqSpecImpl for RateVec {
    open spec fn obeys_eq_spec() -> bool {
        true
    }

    open spec fn eq_spec(&self, other: &Self) -> bool {
        names_of(self@) == names_of(other@)
    }
}

} // verus!
