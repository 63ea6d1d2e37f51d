//! The rated entry and the store that holds the entries in order.

use crate::commands::{remove_flagged, without_flagged};
use crate::error::Error;
use crate::random::{draw_below, draw_ratio, shuffle_entries, thread_source};
use crate::rate::{
    agree, gap_size, is_nearer, lemma_agreement_survives_reordering, lemma_smaller_fraction_chain,
    nearer, rates_agree, vote_product,
};
use crate::storage::{
    all_spelled, append_bytes, create_data, file_image, lemma_invalid_file, lemma_save_then_load,
    lines_of, load_data, loaded, not_text, read_lines, save_data, spelled, texts, unlocked,
};
use crate::text::{decimal, decimal_text};
use rand::rngs::ThreadRng;
use std::cmp::Ordering;
use vstd::prelude::*;
use vstd::slice::slice_subrange;
use vstd::string::StringExecFns;

verus! {

/// What an entry stands for in contracts: its name as characters and its tally.
pub struct Tally {
    pub name: Seq<char>,
    pub wins: nat,
    pub votes: nat,
    pub locked: bool,
}

/// The difference between two win rates, cross-multiplied so that nothing
/// is divided: positive where `a` has the higher rate, negative where `b`
/// has it, zero where the rates agree or a side has neither wins nor votes.
pub open spec fn rate_gap(a: Tally, b: Tally) -> int {
    a.wins * b.votes - b.wins * a.votes
}

/// The product of two 32-bit counters fits in 64 bits.
pub proof fn lemma_product_fits(a: u32, b: u32)
    ensures
        0 <= a * b <= 0xffff_fffe_0000_0001,
{
    assert(0 <= a * b <= 0xffff_ffff * 0xffff_ffff) by (nonlinear_arith)
        requires
            0 <= a <= 0xffff_ffff,
            0 <= b <= 0xffff_ffff,
    ;
}

/// One rated item: a name, how often it was preferred and how often it took part.
#[derive(Clone, Debug)]
pub struct RelEntry {
    pub name: String,
    pub wins: u32,
    pub votes: u32,
    pub locked: bool,
}

impl View for RelEntry {
    type V = Tally;

    open spec fn view(&self) -> Tally {
        Tally { name: self.name@, wins: self.wins as nat, votes: self.votes as nat, locked: self.locked }
    }
}

impl RelEntry {
    /// An unlocked entry with the given counters.
    pub fn new(name: String, wins: u32, votes: u32) -> (entry: RelEntry)
        ensures
            entry == (RelEntry { name, wins, votes, locked: false }),
            entry@ == (Tally { name: name@, wins: wins as nat, votes: votes as nat, locked: false }),
    {
        RelEntry { name, wins, votes, locked: false }
    }

    /// Clears the tally; the name and the lock stay.
    pub fn reset(&mut self)
        ensures
            final(self)@ == (Tally { wins: 0, votes: 0, ..old(self)@ }),
    {
        self.wins = 0;
        self.votes = 0;
    }

    /// The percentage as a fraction: a hundred times the wins, over the
    /// votes. The fraction of an entry without votes has no value.
    pub fn percentage(&self) -> (fraction: (u64, u32))
        ensures
            fraction.0 == 100 * self@.wins,
            fraction.1 == self@.votes,
    {
        (100 * u64::from(self.wins), self.votes)
    }

    /// Orders two entries by win rate through cross-multiplication, so that an
    /// entry without votes compares equal to every other.
    pub fn compare_percentage(&self, other: &RelEntry) -> (order: Ordering)
        ensures
            (order == Ordering::Less) == (rate_gap(self@, other@) < 0),
            (order == Ordering::Equal) == (rate_gap(self@, other@) == 0),
            (order == Ordering::Greater) == (rate_gap(self@, other@) > 0),
    {
        proof {
            lemma_product_fits(self.wins, other.votes);
            lemma_product_fits(other.wins, self.votes);
        }
        let ap: u64 = u64::from(self.wins) * u64::from(other.votes);
        let bp: u64 = u64::from(other.wins) * u64::from(self.votes);
        if ap < bp {
            Ordering::Less
        } else if ap == bp {
            Ordering::Equal
        } else {
            Ordering::Greater
        }
    }
}

/// The tallies of a run of entries, in order.
pub open spec fn tallies(entries: Seq<RelEntry>) -> Seq<Tally> {
    Seq::new(entries.len(), |i: int| entries[i]@)
}

/// One fresh tally per name, in order.
pub open spec fn fresh_tallies(names: Seq<String>) -> Seq<Tally> {
    Seq::new(names.len(), |i: int| fresh_tally(names[i]@))
}

/// An entry with the given name that has not been voted on.
pub open spec fn fresh_tally(name: Seq<char>) -> Tally {
    Tally { name, wins: 0, votes: 0, locked: false }
}

/// What a store reads off its entries, whatever their kind.
pub trait Rated {
    /// The tally that the entry stands for.
    spec fn tally(&self) -> Tally;

    /// The votes of the entry.
    fn votes_cast(&self) -> (votes: u32)
        ensures
            votes == self.tally().votes,
    ;

    /// The name of the entry.
    fn label(&self) -> (name: &String)
        ensures
            name@ == self.tally().name,
    ;
}

impl Rated for RelEntry {
    open spec fn tally(&self) -> Tally {
        self@
    }

    fn votes_cast(&self) -> (votes: u32) {
        self.votes
    }

    fn label(&self) -> (name: &String) {
        &self.name
    }
}

/// The tallies of a run of entries of any kind, in order.
pub open spec fn tallies_of<E: Rated>(entries: Seq<E>) -> Seq<Tally> {
    Seq::new(entries.len(), |i: int| entries[i].tally())
}

/// The ordered collection of entries, with the random source that the
/// selection strategies draw from.
#[derive(Clone, Debug)]
pub struct RelVec {
    pub inner: Vec<RelEntry>,
    pub rng: ThreadRng,
}

impl View for RelVec {
    type V = Seq<Tally>;

    open spec fn view(&self) -> Seq<Tally> {
        tallies(self.inner@)
    }
}

impl RelVec {
    /// An empty store.
    pub fn new() -> (store: RelVec)
        ensures
            store@ == Seq::<Tally>::empty(),
    {
        RelVec { inner: Vec::new(), rng: thread_source() }
    }

    /// A store with one fresh entry per name, in the order given.
    pub fn create(names: Vec<String>) -> (store: RelVec)
        ensures
            store@ == fresh_tallies(names@),
    {
        let inner: Vec<RelEntry> = create_data(names);
        RelVec { inner, rng: thread_source() }
    }

    /// A store with one fresh entry per line of the text, in the order of the
    /// lines. A text that is not valid UTF-8 is an input failure.
    pub fn from(text: &[u8]) -> (read: Result<RelVec, Error>)
        ensures
            match read {
                Ok(store) => all_spelled(lines_of(text@)) && store@ == Seq::new(
                    lines_of(text@).len(),
                    |i: int| fresh_tally(spelled(lines_of(text@))[i]),
                ),
                Err(error) => !all_spelled(lines_of(text@)) && (error matches Error::IoError(message)
                    && message@ == not_text()),
            },
    {
        match read_lines(text) {
            Ok(names) => {
                let store: RelVec = RelVec::create(names);
                assert(store@ =~= Seq::new(
                    lines_of(text@).len(),
                    |i: int| fresh_tally(spelled(lines_of(text@))[i]),
                )) by {
                    assert(texts(names@).len() == names@.len());
                    assert forall|i: int| 0 <= i < names@.len() implies names@[i]@ == spelled(
                        lines_of(text@),
                    )[i] by {
                        assert(texts(names@)[i] == names@[i]@);
                    }
                }
                Ok(store)
            },
            Err(error) => Err(error),
        }
    }

    /// Appends a fresh entry with the given name.
    pub fn add(&mut self, name: String)
        ensures
            final(self)@ =~= old(self)@.push(fresh_tally(name@)),
    {
        self.inner.push(RelEntry::new(name, 0, 0));
    }
}

/// No entry of the run has fewer votes than the one at `index`.
pub open spec fn least_voted(run: Seq<Tally>, index: int) -> bool {
    &&& 0 <= index < run.len()
    &&& forall|j: int| 0 <= j < run.len() ==> run[index].votes <= #[trigger] run[j].votes
}

/// `found` lists, in rising order and each once, exactly the positions of the
/// entries that share the smallest number of votes.
pub open spec fn lists_least_voted(run: Seq<Tally>, found: Seq<usize>) -> bool {
    &&& forall|k: int| 0 <= k < found.len() ==> least_voted(run, #[trigger] found[k] as int)
    &&& forall|j: int, k: int| 0 <= j < k < found.len() ==> found[j] < found[k]
    &&& forall|i: int| least_voted(run, i) ==> found.contains(i as usize)
}

/// The second index of a pair, from a draw among one fewer than all
/// positions: the draw moves up by one from `first` on, so it never lands on
/// `first`.
pub open spec fn shifted(first: int, draw: int) -> int {
    if draw >= first {
        draw + 1
    } else {
        draw
    }
}

/// Pairs the first index with a draw from the remaining positions.
pub fn shift_pair(first: usize, draw: usize) -> (pair: (usize, usize))
    requires
        draw < usize::MAX,
    ensures
        pair.0 == first,
        pair.1 == shifted(first as int, draw as int),
        pair.0 != pair.1,
{
    if draw >= first {
        (first, draw + 1)
    } else {
        (first, draw)
    }
}

/// The positions of the entries with the fewest votes, in rising order.
pub fn least_voted_positions<E: Rated>(entries: &Vec<E>) -> (found: Vec<usize>)
    ensures
        lists_least_voted(tallies_of(entries@), found@),
        entries@.len() > 0 ==> found@.len() > 0,
{
    let mut min: u32 = u32::MAX;
    let mut found: Vec<usize> = Vec::new();
    let mut i: usize = 0;
    let ghost run = tallies_of(entries@);
    while i < entries.len()
        invariant
            i <= entries.len(),
            run == tallies_of(entries@),
            forall|j: int| 0 <= j < i ==> min <= #[trigger] run[j].votes,
            forall|k: int|
                0 <= k < found@.len() ==> 0 <= #[trigger] found@[k] < i && run[found@[k] as int].votes
                    == min,
            forall|j: int, k: int| 0 <= j < k < found@.len() ==> found@[j] < found@[k],
            forall|j: int| 0 <= j < i && run[j].votes == min ==> found@.contains(j as usize),
            i > 0 ==> found@.len() > 0,
            i == 0 ==> min == u32::MAX,
        decreases entries.len() - i,
    {
        let votes: u32 = entries[i].votes_cast();
        assert(run[i as int].votes == votes);
        if votes < min {
            min = votes;
            found = Vec::new();
            found.push(i);
            assert(found@[0] == i);
        } else if votes == min {
            let ghost earlier = found@;
            found.push(i);
            assert forall|j: int| 0 <= j < i && run[j].votes == min implies found@.contains(
                j as usize,
            ) by {
                let k = choose|k: int| 0 <= k < earlier.len() && earlier[k] == j as usize;
                assert(found@[k] == j as usize);
            }
            assert(found@[found@.len() - 1] == i);
        }
        i = i + 1;
    }
    proof {
        assert forall|j: int| least_voted(run, j) implies found@.contains(j as usize) by {
            assert(run[found@[0] as int].votes == min);
            assert(run[j].votes <= run[found@[0] as int].votes);
        }
    }
    found
}

impl RelVec {
    /// The positions of the entries with the fewest votes, in rising order.
    pub fn min_votes(&mut self) -> (found: Vec<usize>)
        ensures
            final(self).inner@ == old(self).inner@,
            lists_least_voted(old(self)@, found@),
            old(self)@.len() > 0 ==> found@.len() > 0,
    {
        assert(tallies_of(self.inner@) =~= self@);
        least_voted_positions(&self.inner)
    }
}

/// The answer names two different positions of a run of `len` entries.
pub open spec fn names_two(pair: Option<(usize, usize)>, len: nat) -> bool {
    pair matches Some((a, b)) && a < len && b < len && a != b
}

impl RelVec {
    /// Two different positions drawn at random: the first among all, the
    /// second among the rest. `None` where the store has no two entries.
    pub fn random_pair(&mut self) -> (pair: Option<(usize, usize)>)
        ensures
            final(self).inner@ == old(self).inner@,
            old(self)@.len() < 2 ==> pair is None,
            old(self)@.len() >= 2 ==> names_two(pair, old(self)@.len()),
    {
        let len: usize = self.inner.len();
        if len < 2 {
            return None;
        }
        let i1: usize = draw_below(&mut self.rng, len);
        let i2: usize = draw_below(&mut self.rng, len - 1);
        Some(shift_pair(i1, i2))
    }

    /// A position drawn among the least voted entries, with a second one drawn
    /// among the rest of the store. `None` where the store has no two entries.
    pub fn min_pair(&mut self) -> (pair: Option<(usize, usize)>)
        ensures
            final(self).inner@ == old(self).inner@,
            old(self)@.len() < 2 ==> pair is None,
            old(self)@.len() >= 2 ==> names_two(pair, old(self)@.len()) && least_voted(
                old(self)@,
                (pair->0).0 as int,
            ),
    {
        let len: usize = self.inner.len();
        if len < 2 {
            return None;
        }
        let mins: Vec<usize> = self.min_votes();
        let k: usize = draw_below(&mut self.rng, mins.len());
        let i1: usize = mins[k];
        let i2: usize = draw_below(&mut self.rng, len - 1);
        Some(shift_pair(i1, i2))
    }
}

/// In the scan of all pairs `(i, j)` with `i < j`, row by row, the pair
/// `(i, j)` comes before `(a, b)`.
pub open spec fn scanned_before(i: int, j: int, a: int, b: int) -> bool {
    i < a || (i == a && j < b)
}

/// `(a, b)` is the first pair of the scan whose percentages count as equal.
pub open spec fn first_agreeing(run: Seq<Tally>, a: int, b: int) -> bool {
    &&& 0 <= a < b < run.len()
    &&& rates_agree(run[a], run[b])
    &&& forall|i: int, j: int|
        #![trigger run[i], run[j]]
        0 <= i < j < run.len() && scanned_before(i, j, a, b) ==> !rates_agree(run[i], run[j])
}

/// No two entries of the run have percentages that count as equal.
pub open spec fn none_agree(run: Seq<Tally>) -> bool {
    forall|i: int, j: int|
        #![trigger run[i], run[j]]
        0 <= i < j < run.len() ==> !rates_agree(run[i], run[j])
}

/// `(a, b)` is the first pair of the scan at the smallest distance: no pair
/// is strictly nearer, and it is strictly nearer than every pair before it.
pub open spec fn first_nearest(run: Seq<Tally>, a: int, b: int) -> bool {
    &&& 0 <= a < b < run.len()
    &&& forall|i: int, j: int|
        #![trigger run[i], run[j]]
        0 <= i < j < run.len() ==> !nearer(run[i], run[j], run[a], run[b])
    &&& forall|i: int, j: int|
        #![trigger run[i], run[j]]
        0 <= i < j < run.len() && scanned_before(i, j, a, b) ==> nearer(
            run[a],
            run[b],
            run[i],
            run[j],
        )
}

/// A run has one first pair with equal percentages at most.
pub proof fn lemma_first_agreeing_unique(run: Seq<Tally>, a: int, b: int, c: int, d: int)
    requires
        first_agreeing(run, a, b),
        first_agreeing(run, c, d),
    ensures
        a == c,
        b == d,
{
    if scanned_before(a, b, c, d) {
        assert(!rates_agree(run[a], run[b]));
    } else if scanned_before(c, d, a, b) {
        assert(!rates_agree(run[c], run[d]));
    }
}

/// A run has one first nearest pair at most.
pub proof fn lemma_first_nearest_unique(run: Seq<Tally>, a: int, b: int, c: int, d: int)
    requires
        first_nearest(run, a, b),
        first_nearest(run, c, d),
    ensures
        a == c,
        b == d,
{
    if scanned_before(a, b, c, d) {
        assert(nearer(run[c], run[d], run[a], run[b]));
        assert(!nearer(run[c], run[d], run[a], run[b]));
    } else if scanned_before(c, d, a, b) {
        assert(nearer(run[a], run[b], run[c], run[d]));
        assert(!nearer(run[a], run[b], run[c], run[d]));
    }
}

impl RelVec {
    /// The first pair, in the order in which the entries stand, whose
    /// percentages count as equal.
    pub fn first_equal_pair(&self) -> (pair: Option<(usize, usize)>)
        ensures
            match pair {
                Some((a, b)) => first_agreeing(self@, a as int, b as int),
                None => none_agree(self@),
            },
    {
        let len: usize = self.inner.len();
        let ghost run = self@;
        let mut i1: usize = 0;
        while i1 < len
            invariant
                i1 <= len,
                len == self.inner.len(),
                run == self@,
                forall|i: int, j: int|
                    #![trigger run[i], run[j]]
                    0 <= i < j < len && i < i1 ==> !rates_agree(run[i], run[j]),
            decreases len - i1,
        {
            let mut i2: usize = i1 + 1;
            while i2 < len
                invariant
                    i1 < i2 <= len,
                    len == self.inner.len(),
                    run == self@,
                    forall|i: int, j: int|
                        #![trigger run[i], run[j]]
                        0 <= i < j < len && scanned_before(i, j, i1 as int, i2 as int)
                            ==> !rates_agree(run[i], run[j]),
                decreases len - i2,
            {
                if agree(&self.inner[i1], &self.inner[i2]) {
                    return Some((i1, i2));
                }
                i2 = i2 + 1;
            }
            i1 = i1 + 1;
        }
        None
    }

    /// The first pair, in the order in which the entries stand, at the
    /// smallest distance in percentage. `None` where the store has no two
    /// entries.
    pub fn first_nearest_pair(&self) -> (pair: Option<(usize, usize)>)
        ensures
            match pair {
                Some((a, b)) => first_nearest(self@, a as int, b as int),
                None => self@.len() < 2,
            },
    {
        let len: usize = self.inner.len();
        if len < 2 {
            return None;
        }
        let ghost run = self@;
        let mut a: usize = 0;
        let mut b: usize = 1;
        let mut i1: usize = 0;
        while i1 < len
            invariant
                i1 <= len,
                2 <= len == self.inner.len(),
                run == self@,
                a < b < len,
                i1 == 0 ==> a == 0 && b == 1,
                i1 > 0 ==> a < i1,
                forall|i: int, j: int|
                    #![trigger run[i], run[j]]
                    0 <= i < j < len && i < i1 ==> !nearer(run[i], run[j], run[a as int], run[b as int]),
                forall|i: int, j: int|
                    #![trigger run[i], run[j]]
                    0 <= i < j < len && scanned_before(i, j, a as int, b as int) ==> nearer(
                        run[a as int],
                        run[b as int],
                        run[i],
                        run[j],
                    ),
            decreases len - i1,
        {
            let mut i2: usize = i1 + 1;
            while i2 < len
                invariant
                    i1 < i2 <= len,
                    2 <= len == self.inner.len(),
                    run == self@,
                    a < b < len,
                    scanned_before(a as int, b as int, i1 as int, i2 as int) || (a == 0 && b == 1),
                    forall|i: int, j: int|
                        #![trigger run[i], run[j]]
                        0 <= i < j < len && scanned_before(i, j, i1 as int, i2 as int) ==> !nearer(
                            run[i],
                            run[j],
                            run[a as int],
                            run[b as int],
                        ),
                    forall|i: int, j: int|
                        #![trigger run[i], run[j]]
                        0 <= i < j < len && scanned_before(i, j, a as int, b as int) ==> nearer(
                            run[a as int],
                            run[b as int],
                            run[i],
                            run[j],
                        ),
                decreases len - i2,
            {
                if is_nearer(&self.inner[i1], &self.inner[i2], &self.inner[a], &self.inner[b]) {
                    proof {
                        let ghost (p, q) = (run[i1 as int], run[i2 as int]);
                        let ghost (m, n) = (run[a as int], run[b as int]);
                        assert forall|i: int, j: int|
                            #![trigger run[i], run[j]]
                            0 <= i < j < len && scanned_before(
                                i,
                                j,
                                i1 as int,
                                i2 as int,
                            ) implies nearer(p, q, run[i], run[j]) && !nearer(run[i], run[j], p, q) by {
                            lemma_smaller_fraction_chain(
                                gap_size(p, q),
                                vote_product(p, q),
                                gap_size(m, n),
                                vote_product(m, n),
                                gap_size(run[i], run[j]),
                                vote_product(run[i], run[j]),
                            );
                        }
                    }
                    a = i1;
                    b = i2;
                }
                i2 = i2 + 1;
            }
            i1 = i1 + 1;
        }
        Some((a, b))
    }
}

impl RelVec {
    /// Shuffles the store, then gives the first pair of the new order whose
    /// percentages count as equal. `None` exactly where the store holds no
    /// such pair; a store without two entries is left as it stands.
    ///
    /// Percentages are set against each other as exact fractions, not as
    /// rounded doubles: two fractions that differ by the bound or more do not
    /// count as equal even where they would round to one double.
    pub fn equal_pair(&mut self) -> (pair: Option<(usize, usize)>)
        ensures
            final(self)@.to_multiset() == old(self)@.to_multiset(),
            old(self)@.len() < 2 ==> pair is None && final(self).inner@ == old(self).inner@,
            (pair is None) == none_agree(old(self)@),
            match pair {
                Some((a, b)) => first_agreeing(final(self)@, a as int, b as int),
                None => none_agree(final(self)@),
            },
    {
        if self.inner.len() < 2 {
            return None;
        }
        shuffle_entries(&mut self.inner, &mut self.rng);
        proof {
            lemma_agreement_survives_reordering(old(self)@, self@);
        }
        self.first_equal_pair()
    }

    /// Shuffles the store, then gives the first pair of the new order at the
    /// smallest distance in percentage. `None` where the store has no two
    /// entries, and the store is then left as it stands.
    ///
    /// Distances are exact fractions, not differences of rounded doubles. So
    /// of pairs at exactly the same distance the first in the scan is taken,
    /// also where rounding would tell them apart: of entries at a third, two
    /// thirds and the whole, in this order, the pair is `(0, 1)`. A pair with
    /// an entry without votes has no distance and is taken only where no pair
    /// has one, and then it is the first pair, `(0, 1)`.
    pub fn nearest_pair(&mut self) -> (pair: Option<(usize, usize)>)
        ensures
            final(self)@.to_multiset() == old(self)@.to_multiset(),
            old(self)@.len() < 2 ==> pair is None && final(self).inner@ == old(self).inner@,
            old(self)@.len() >= 2 ==> pair is Some,
            pair matches Some((a, b)) ==> first_nearest(final(self)@, a as int, b as int),
    {
        if self.inner.len() < 2 {
            return None;
        }
        shuffle_entries(&mut self.inner, &mut self.rng);
        proof {
            self@.to_multiset_ensures();
            old(self)@.to_multiset_ensures();
        }
        self.first_nearest_pair()
    }

    /// What the blended strategy does once its coin has fallen: on heads the
    /// pair of `equal_pair` where there is one; else the pair of `min_pair`,
    /// drawn from the store as `equal_pair` left it.
    pub fn min_equal_pair_on(&mut self, heads: bool) -> (pair: Option<(usize, usize)>)
        ensures
            final(self)@.to_multiset() == old(self)@.to_multiset(),
            !heads ==> final(self).inner@ == old(self).inner@,
            old(self)@.len() < 2 ==> pair is None && final(self).inner@ == old(self).inner@,
            old(self)@.len() >= 2 ==> names_two(pair, old(self)@.len()),
            pair matches Some((a, b)) ==> {
                ||| heads && first_agreeing(final(self)@, a as int, b as int)
                ||| (heads ==> none_agree(final(self)@)) && least_voted(final(self)@, a as int)
            },
    {
        if heads {
            match self.equal_pair() {
                Some((a, b)) => {
                    proof {
                        self@.to_multiset_ensures();
                        old(self)@.to_multiset_ensures();
                    }
                    Some((a, b))
                },
                None => {
                    proof {
                        self@.to_multiset_ensures();
                        old(self)@.to_multiset_ensures();
                    }
                    self.min_pair()
                },
            }
        } else {
            self.min_pair()
        }
    }

    /// The blended strategy: on one side of a fair coin the pair of
    /// `equal_pair`, falling back on `min_pair` where no percentages agree; on
    /// the other side the pair of `min_pair` at once.
    pub fn min_equal_pair(&mut self) -> (pair: Option<(usize, usize)>)
        ensures
            final(self)@.to_multiset() == old(self)@.to_multiset(),
            old(self)@.len() < 2 ==> pair is None && final(self).inner@ == old(self).inner@,
            old(self)@.len() >= 2 ==> names_two(pair, old(self)@.len()),
            pair matches Some((a, b)) ==> {
                ||| first_agreeing(final(self)@, a as int, b as int)
                ||| least_voted(final(self)@, a as int)
            },
    {
        let heads: bool = draw_ratio(&mut self.rng, 1, 2);
        self.min_equal_pair_on(heads)
    }
}

/// `a` has the strictly higher win rate under the cross-multiplied order.
pub open spec fn outranks(a: Tally, b: Tally) -> bool {
    rate_gap(a, b) > 0
}

/// The run with `x` brought in from the back: `x` passes every entry that it
/// outranks and stops behind the first that it does not.
pub open spec fn placed(run: Seq<Tally>, x: Tally) -> Seq<Tally>
    decreases run.len(),
{
    if run.len() > 0 && outranks(x, run.last()) {
        placed(run.drop_last(), x).push(run.last())
    } else {
        run.push(x)
    }
}

/// The run in descending order of win rate: each entry in turn is brought
/// into the ordered run of those before it, so entries that compare equal
/// keep their order.
pub open spec fn ranked(run: Seq<Tally>) -> Seq<Tally>
    decreases run.len(),
{
    if run.len() == 0 {
        run
    } else {
        placed(ranked(run.drop_last()), run.last())
    }
}

/// Where `x` comes to stand when it is brought into the run.
pub open spec fn place_of(run: Seq<Tally>, x: Tally) -> int
    decreases run.len(),
{
    if run.len() > 0 && outranks(x, run.last()) {
        place_of(run.drop_last(), x)
    } else {
        run.len() as int
    }
}

/// Bringing `x` into the run inserts it at its place.
pub proof fn lemma_placed_inserts(run: Seq<Tally>, x: Tally)
    ensures
        0 <= place_of(run, x) <= run.len(),
        placed(run, x) == run.insert(place_of(run, x), x),
    decreases run.len(),
{
    if run.len() > 0 && outranks(x, run.last()) {
        lemma_placed_inserts(run.drop_last(), x);
        assert(placed(run, x) =~= run.insert(place_of(run, x), x));
    } else {
        assert(placed(run, x) =~= run.insert(place_of(run, x), x));
    }
}

impl RelEntry {
    /// Whether this entry has the strictly higher win rate.
    pub fn outranks(&self, other: &RelEntry) -> (higher: bool)
        ensures
            higher == outranks(self@, other@),
    {
        match self.compare_percentage(other) {
            Ordering::Greater => true,
            _ => false,
        }
    }
}

impl RelVec {
    /// Orders the store by descending win rate; entries that compare equal
    /// keep their order.
    pub fn sort_percentage(&mut self)
        ensures
            final(self)@ == ranked(old(self)@),
    {
        let len: usize = self.inner.len();
        let ghost start = self@;
        let mut i: usize = 0;
        assert(start.take(0) =~= Seq::<Tally>::empty());
        while i < len
            invariant
                i <= len,
                len == self.inner.len(),
                start.len() == len,
                self@.take(i as int) == ranked(start.take(i as int)),
                self@.skip(i as int) == start.skip(i as int),
            decreases len - i,
        {
            let ghost before = self@;
            let entry: RelEntry = self.inner.remove(i);
            let ghost x = entry@;
            let ghost head = before.take(i as int);
            assert(self@ =~= before.remove(i as int));
            assert(head.take(i as int) =~= head);
            let mut j: usize = i;
            while j > 0 && entry.outranks(&self.inner[j - 1])
                invariant
                    j <= i < len,
                    self.inner.len() == len - 1,
                    before.len() == len,
                    self@ == before.remove(i as int),
                    head == before.take(i as int),
                    x == entry@,
                    place_of(head, x) == place_of(head.take(j as int), x),
                decreases j,
            {
                assert(head.take(j as int).last() == self@[j - 1]);
                assert(head.take(j as int).drop_last() =~= head.take(j - 1));
                j = j - 1;
            }
            proof {
                if j > 0 {
                    assert(head.take(j as int).last() == self@[j - 1]);
                }
                assert(place_of(head, x) == j);
                lemma_placed_inserts(head, x);
            }
            self.inner.insert(j, entry);
            proof {
                assert(x == start[i as int]) by {
                    assert(before.skip(i as int)[0] == start.skip(i as int)[0]);
                }
                assert(start.take(i + 1).drop_last() =~= start.take(i as int));
                assert(self@.take(i + 1) =~= head.insert(j as int, x));
                assert(self@.skip(i + 1) =~= start.skip(i + 1)) by {
                    assert forall|k: int| 0 <= k < len - i - 1 implies #[trigger] self@.skip(
                        i + 1,
                    )[k] == start.skip(i + 1)[k] by {
                        assert(before.skip(i as int)[k + 1] == start.skip(i as int)[k + 1]);
                    }
                }
            }
            i = i + 1;
        }
        assert(self@.take(len as int) =~= self@);
        assert(start.take(len as int) =~= start);
    }
}

impl RelVec {
    /// The bytes of the file that holds this store: the file prefix, then the
    /// image of the entries. Loading them gives the entries back in their
    /// order, each with its name, wins and votes, and with its lock open.
    pub fn save(&self) -> (image: Vec<u8>)
        ensures
            image@ == file_image(self@),
            loaded(image@) == Ok::<Seq<Tally>, Error>(unlocked(self@)),
    {
        let mut out: Vec<u8> = Vec::new();
        out.push(0xAD);
        out.push(0x2A);
        let body: Vec<u8> = save_data(self.inner.as_slice());
        append_bytes(&mut out, body.as_slice());
        proof {
            assert(out@ =~= file_image(self@));
            lemma_save_then_load(self@, Seq::<u8>::empty());
            assert(file_image(self@) + Seq::<u8>::empty() =~= file_image(self@));
        }
        out
    }

    /// The store that the bytes of a file hold. Bytes that do not begin with
    /// the file prefix are an invalid file; bytes that hold no entry sequence
    /// behind it are a serialization failure.
    pub fn load(bytes: &[u8]) -> (read: Result<RelVec, Error>)
        ensures
            match loaded(bytes@) {
                Ok(run) => read matches Ok(store) && store@ == run,
                Err(failure) => read matches Err(error) && error == failure,
            },
    {
        if bytes.len() < 2 || bytes[0] != 0xAD || bytes[1] != 0x2A {
            proof {
                lemma_invalid_file(bytes@);
            }
            return Err(Error::InvalidFileError);
        }
        proof {
            lemma_invalid_file(bytes@);
        }
        let body: &[u8] = slice_subrange(bytes, 2, bytes.len());
        assert(body@ =~= bytes@.skip(2));
        match load_data(body) {
            Ok(inner) => Ok(RelVec { inner, rng: thread_source() }),
            Err(error) => Err(error),
        }
    }
}

/// The names of a run, in order.
pub open spec fn names_of(run: Seq<Tally>) -> Seq<Seq<char>> {
    Seq::new(run.len(), |i: int| run[i].name)
}

impl PartialEq for RelEntry {
    /// Two entries are the same entry when they have the same name.
    fn eq(&self, other: &Self) -> (same: bool) {
        self.name == other.name
    }
}

impl vstd::std_specs::cmp::PartialEqSpecImpl for RelEntry {
    open spec fn obeys_eq_spec() -> bool {
        true
    }

    open spec fn eq_spec(&self, other: &Self) -> bool {
        self.name@ == other.name@
    }
}

impl From<String> for RelEntry {
    /// A fresh entry with the given name.
    fn from(name: String) -> (entry: Self) {
        RelEntry::new(name, 0, 0)
    }
}

impl vstd::std_specs::convert::FromSpecImpl<String> for RelEntry {
    open spec fn obeys_from_spec() -> bool {
        true
    }

    open spec fn from_spec(name: String) -> Self {
        RelEntry { name, wins: 0, votes: 0, locked: false }
    }
}

/// Whether two runs of entries hold the same names in the same order.
pub fn same_names<E: Rated>(left: &Vec<E>, right: &Vec<E>) -> (same: bool)
    ensures
        same == (names_of(tallies_of(left@)) == names_of(tallies_of(right@))),
{
    if left.len() != right.len() {
        assert(names_of(tallies_of(left@)).len() != names_of(tallies_of(right@)).len());
        return false;
    }
    let mut i: usize = 0;
    while i < left.len()
        invariant
            i <= left.len(),
            left.len() == right.len(),
            forall|k: int| 0 <= k < i ==> tallies_of(left@)[k].name == tallies_of(right@)[k].name,
        decreases left.len() - i,
    {
        let ours: &String = left[i].label();
        let theirs: &String = right[i].label();
        if *ours != *theirs {
            assert(names_of(tallies_of(left@))[i as int] != names_of(tallies_of(right@))[i as int]);
            return false;
        }
        i = i + 1;
    }
    assert(names_of(tallies_of(left@)) =~= names_of(tallies_of(right@)));
    true
}

impl PartialEq for RelVec {
    /// Two stores are equal when they hold the same names in the same order.
    fn eq(&self, other: &Self) -> (same: bool) {
        assert(tallies_of(self.inner@) =~= self@);
        assert(tallies_of(other.inner@) =~= other@);
        same_names(&self.inner, &other.inner)
    }
}

impl vstd::std_specs::cmp::PartialEqSpecImpl for RelVec {
    open spec fn obeys_eq_spec() -> bool {
        true
    }

    open spec fn eq_spec(&self, other: &Self) -> bool {
        names_of(self@) == names_of(other@)
    }
}

impl RelVec {
    /// Removes every entry for which the filter says yes; the others keep
    /// their order. The filter is asked once for each entry, from the first to
    /// the last.
    pub fn remove<F: Fn(&RelEntry) -> bool>(&mut self, filter: F)
        requires
            forall|i: int|
                0 <= i < old(self).inner@.len() ==> call_requires(
                    filter,
                    (&#[trigger] old(self).inner@[i],),
                ),
        ensures
            exists|flags: Seq<bool>|
                {
                    &&& flags.len() == old(self)@.len()
                    &&& forall|i: int|
                        0 <= i < flags.len() ==> call_ensures(
                            filter,
                            (&old(self).inner@[i],),
                            #[trigger] flags[i],
                        )
                    &&& final(self)@ == without_flagged(old(self)@, flags)
                },
    {
        let mut flags: Vec<bool> = Vec::new();
        let mut i: usize = 0;
        while i < self.inner.len()
            invariant
                i <= self.inner.len(),
                self.inner@ == old(self).inner@,
                flags@.len() == i,
                forall|k: int|
                    0 <= k < self.inner@.len() ==> call_requires(
                        filter,
                        (&#[trigger] self.inner@[k],),
                    ),
                forall|k: int|
                    0 <= k < i ==> call_ensures(filter, (&self.inner@[k],), #[trigger] flags@[k]),
            decreases self.inner.len() - i,
        {
            let flag: bool = filter(&self.inner[i]);
            flags.push(flag);
            i = i + 1;
        }
        remove_flagged(self, &flags);
    }
}

/// The line that shows an entry: its name, its wins over its votes, and its
/// percentage as the caller has written it.
pub open spec fn shown(t: Tally, percentage: Seq<char>) -> Seq<char> {
    t.name + " - "@ + decimal(t.wins) + "/"@ + decimal(t.votes) + " - "@ + percentage + "%"@
}

/// The line that shows an entry with the given name and counters.
pub fn show(name: &String, wins: u32, votes: u32, percentage: &str) -> (line: String)
    ensures
        line@ == shown(
            Tally { name: name@, wins: wins as nat, votes: votes as nat, locked: false },
            percentage@,
        ),
{
    let wins: String = decimal_text(wins);
    let votes: String = decimal_text(votes);
    name.clone().concat(" - ").concat(wins.as_str()).concat("/").concat(votes.as_str()).concat(
        " - ",
    ).concat(percentage).concat("%")
}

impl RelEntry {
    /// The line that shows this entry. The percentage is a fraction that the
    /// library holds exactly and never rounds, so its decimal form is handed
    /// in by the caller.
    pub fn to_string(&self, percentage: &str) -> (line: String)
        ensures
            line@ == shown(self@, percentage@),
    {
        show(&self.name, self.wins, self.votes, percentage)
    }
}

impl std::ops::Deref for RelVec {
    type Target = Vec<RelEntry>;

    /// The entries.
    fn deref(&self) -> (entries: &Vec<RelEntry>)
        ensures
            *entries == self.inner,
    {
        &self.inner
    }
}

impl AsRef<Vec<RelEntry>> for RelVec {
    /// The entries.
    fn as_ref(&self) -> (entries: &Vec<RelEntry>)
        ensures
            *entries == self.inner,
    {
        &self.inner
    }
}

impl std::ops::Index<usize> for RelVec {
    type Output = RelEntry;

    /// The entry at a position.
    fn index(&self, index: usize) -> (entry: &RelEntry)
        ensures
            *entry == self.inner@[index as int],
    {
        &self.inner[index]
    }
}

impl vstd::std_specs::core::IndexSpecImpl<usize> for RelVec {
    open spec fn index_req(&self, index: &usize) -> bool {
        *index < self.inner@.len()
    }
}

impl AsMut<Vec<RelEntry>> for RelVec {
    /// The entries, to be changed in their place.
    fn as_mut(&mut self) -> (entries: &mut Vec<RelEntry>)
        ensures
            *entries == old(self).inner,
            final(self).inner == *final(entries),
            final(self).rng == old(self).rng,
    {
        &mut self.inner
    }
}

impl std::ops::DerefMut for RelVec {
    /// The entries, to be changed in their place.
    fn deref_mut(&mut self) -> (entries: &mut Vec<RelEntry>)
        ensures
            *entries == old(self).inner,
            final(self).inner == *final(entries),
            final(self).rng == old(self).rng,
    {
        &mut self.inner
    }
}

} // verus!
