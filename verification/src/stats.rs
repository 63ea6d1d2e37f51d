//! The figures of the report on a store: extremes of rate and of votes, the
//! sum of the votes, and how the entries spread over rates and votes.

use crate::order::{all_voted, lemma_gap_mirrors, lemma_rank_above, lemma_rank_chain};
use crate::rel_vec::{outranks, RelEntry, RelVec, Tally};
use crate::vote::cast;
use vstd::prelude::*;

verus! {

/// The position that a search for the lowest rate ends on: it walks the run
/// from the front and moves on to an entry only where the one it holds
/// outranks it, so of several lowest the first is held.
pub open spec fn lowest_of(run: Seq<Tally>) -> int
    decreases run.len(),
{
    if run.len() <= 1 {
        0
    } else {
        let held = lowest_of(run.drop_last());
        if outranks(run[held], run.last()) {
            run.len() - 1
        } else {
            held
        }
    }
}

/// The position that a search for the highest rate ends on: it walks the
/// run from the front and stays with the entry it holds only where that one
/// outranks the next, so of several highest the last is held.
pub open spec fn highest_of(run: Seq<Tally>) -> int
    decreases run.len(),
{
    if run.len() <= 1 {
        0
    } else {
        let held = highest_of(run.drop_last());
        if outranks(run[held], run.last()) {
            held
        } else {
            run.len() - 1
        }
    }
}

/// Both searches end within the run.
pub proof fn lemma_extremes_within(run: Seq<Tally>)
    requires
        run.len() > 0,
    ensures
        0 <= lowest_of(run) < run.len(),
        0 <= highest_of(run) < run.len(),
    decreases run.len(),
{
    if run.len() > 1 {
        lemma_extremes_within(run.drop_last());
    }
}

/// The sum of the votes of a run.
pub open spec fn votes_sum(run: Seq<Tally>) -> nat
    decreases run.len(),
{
    if run.len() == 0 {
        0
    } else {
        votes_sum(run.drop_last()) + run.last().votes
    }
}

/// The entry has a percentage, and it lies in the tenth of the scale with
/// the given number: from ten times the number up to, but not with, the next
/// ten; the last tenth takes the hundred in.
pub open spec fn in_tenth(t: Tally, tenth: int) -> bool {
    &&& 0 <= tenth <= 9
    &&& t.votes > 0
    &&& tenth * t.votes <= 10 * t.wins
    &&& if tenth < 9 {
        10 * t.wins < (tenth + 1) * t.votes
    } else {
        t.wins <= t.votes
    }
}

/// How many entries of the run meet the condition.
pub open spec fn count_of(run: Seq<Tally>, wanted: spec_fn(Tally) -> bool) -> nat
    decreases run.len(),
{
    if run.len() == 0 {
        0
    } else {
        count_of(run.drop_last(), wanted) + if wanted(run.last()) {
            1nat
        } else {
            0nat
        }
    }
}

/// No more entries meet a condition than there are.
pub proof fn lemma_count_bound(run: Seq<Tally>, wanted: spec_fn(Tally) -> bool)
    ensures
        count_of(run, wanted) <= run.len(),
    decreases run.len(),
{
    if run.len() > 0 {
        lemma_count_bound(run.drop_last(), wanted);
    }
}

/// The entries in the given tenth of the scale.
pub open spec fn tenth_is(tenth: int) -> spec_fn(Tally) -> bool {
    |t: Tally| in_tenth(t, tenth)
}

/// The entries with the given number of votes.
pub open spec fn votes_are(votes: nat) -> spec_fn(Tally) -> bool {
    |t: Tally| t.votes == votes
}

/// The position of the entry with the lowest rate, the first of several;
/// none in an empty store.
pub fn lowest_rated(store: &RelVec) -> (found: Option<usize>)
    ensures
        store@.len() == 0 ==> found is None,
        store@.len() > 0 ==> found == Some(lowest_of(store@) as usize) && lowest_of(store@)
            < store@.len(),
{
    if store.inner.len() == 0 {
        return None;
    }
    let ghost run = store@;
    let mut held: usize = 0;
    let mut i: usize = 1;
    assert(run.take(1).len() == 1);
    while i < store.inner.len()
        invariant
            1 <= i <= store.inner.len(),
            run == store@,
            held < i,
            held == lowest_of(run.take(i as int)),
        decreases store.inner.len() - i,
    {
        assert(run.take(i + 1).drop_last() =~= run.take(i as int));
        if store.inner[held].outranks(&store.inner[i]) {
            held = i;
        }
        i = i + 1;
    }
    assert(run.take(i as int) =~= run);
    Some(held)
}

/// The position of the entry with the highest rate, the last of several;
/// none in an empty store.
pub fn highest_rated(store: &RelVec) -> (found: Option<usize>)
    ensures
        store@.len() == 0 ==> found is None,
        store@.len() > 0 ==> found == Some(highest_of(store@) as usize) && highest_of(store@)
            < store@.len(),
{
    if store.inner.len() == 0 {
        return None;
    }
    let ghost run = store@;
    let mut held: usize = 0;
    let mut i: usize = 1;
    assert(run.take(1).len() == 1);
    while i < store.inner.len()
        invariant
            1 <= i <= store.inner.len(),
            run == store@,
            held < i,
            held == highest_of(run.take(i as int)),
        decreases store.inner.len() - i,
    {
        assert(run.take(i + 1).drop_last() =~= run.take(i as int));
        if !store.inner[held].outranks(&store.inner[i]) {
            held = i;
        }
        i = i + 1;
    }
    assert(run.take(i as int) =~= run);
    Some(held)
}

/// The smallest number of votes of an entry; none in an empty store.
pub fn least_votes(store: &RelVec) -> (found: Option<u32>)
    ensures
        store@.len() == 0 ==> found is None,
        store@.len() > 0 ==> found is Some,
        found matches Some(votes) ==> {
            &&& exists|i: int| 0 <= i < store@.len() && #[trigger] store@[i].votes == votes
            &&& forall|j: int| 0 <= j < store@.len() ==> votes <= #[trigger] store@[j].votes
        },
{
    if store.inner.len() == 0 {
        return None;
    }
    let mut least: u32 = store.inner[0].votes;
    let mut i: usize = 1;
    assert(store@[0].votes == least);
    while i < store.inner.len()
        invariant
            1 <= i <= store.inner.len(),
            exists|k: int| 0 <= k < i && #[trigger] store@[k].votes == least,
            forall|j: int| 0 <= j < i ==> least <= #[trigger] store@[j].votes,
        decreases store.inner.len() - i,
    {
        if store.inner[i].votes < least {
            least = store.inner[i].votes;
            assert(store@[i as int].votes == least);
        }
        i = i + 1;
    }
    Some(least)
}

/// The largest number of votes of an entry; none in an empty store.
pub fn most_votes(store: &RelVec) -> (found: Option<u32>)
    ensures
        store@.len() == 0 ==> found is None,
        store@.len() > 0 ==> found is Some,
        found matches Some(votes) ==> {
            &&& exists|i: int| 0 <= i < store@.len() && #[trigger] store@[i].votes == votes
            &&& forall|j: int| 0 <= j < store@.len() ==> votes >= #[trigger] store@[j].votes
        },
{
    if store.inner.len() == 0 {
        return None;
    }
    let mut most: u32 = store.inner[0].votes;
    let mut i: usize = 1;
    assert(store@[0].votes == most);
    while i < store.inner.len()
        invariant
            1 <= i <= store.inner.len(),
            exists|k: int| 0 <= k < i && #[trigger] store@[k].votes == most,
            forall|j: int| 0 <= j < i ==> most >= #[trigger] store@[j].votes,
        decreases store.inner.len() - i,
    {
        if store.inner[i].votes > most {
            most = store.inner[i].votes;
            assert(store@[i as int].votes == most);
        }
        i = i + 1;
    }
    Some(most)
}

/// The sum of the votes of all entries.
pub fn total_votes(store: &RelVec) -> (sum: u128)
    ensures
        sum == votes_sum(store@),
{
    let ghost run = store@;
    let mut sum: u128 = 0;
    let mut i: usize = 0;
    assert(run.take(0) =~= Seq::<Tally>::empty());
    while i < store.inner.len()
        invariant
            i <= store.inner.len(),
            run == store@,
            sum == votes_sum(run.take(i as int)),
            sum <= i * 0xffff_ffff,
        decreases store.inner.len() - i,
    {
        assert(run.take(i + 1).drop_last() =~= run.take(i as int));
        assert(i * 0xffff_ffff + 0xffff_ffff <= 0xffff_ffff_ffff_ffff * 0x1_0000_0000)
            by (nonlinear_arith)
            requires
                i < 0xffff_ffff_ffff_ffff,
        ;
        sum = sum + store.inner[i].votes as u128;
        i = i + 1;
    }
    assert(run.take(i as int) =~= run);
    sum
}

/// The number of rounds that the tallies speak of: half the sum of the
/// votes, since each round gives a vote to two entries. Removed entries take
/// their votes with them, so this is an estimate.
pub fn rounds_held(store: &RelVec) -> (rounds: u128)
    ensures
        rounds == votes_sum(store@) / 2,
{
    total_votes(store) / 2
}

/// The tenth of the scale in which the percentage of an entry lies; none
/// for an entry without votes or with more wins than votes.
pub fn tenth_of(entry: &RelEntry) -> (found: Option<usize>)
    ensures
        match found {
            Some(tenth) => in_tenth(entry@, tenth as int),
            None => forall|tenth: int| !in_tenth(entry@, tenth),
        },
{
    if entry.votes == 0 || entry.wins > entry.votes {
        assert forall|tenth: int| !in_tenth(entry@, tenth) by {
            if in_tenth(entry@, tenth) && entry.votes > 0 {
                assert(10 * entry.wins < 10 * entry.votes) by (nonlinear_arith)
                    requires
                        10 * entry.wins < (tenth + 1) * entry.votes,
                        tenth + 1 <= 10,
                        entry.votes > 0,
                ;
            }
        }
        return None;
    }
    if entry.wins == entry.votes {
        return Some(9);
    }
    let wins: u64 = entry.wins as u64 * 10;
    let votes: u64 = entry.votes as u64;
    let tenth: u64 = wins / votes;
    proof {
        let (w, v, q) = (wins as int, votes as int, tenth as int);
        vstd::arithmetic::div_mod::lemma_fundamental_div_mod(w, v);
        vstd::arithmetic::div_mod::lemma_mod_bound(w, v);
        assert(q * v <= w < (q + 1) * v) by (nonlinear_arith)
            requires
                w == v * q + w % v,
                0 <= w % v < v,
        ;
        assert(0 <= q <= 9) by (nonlinear_arith)
            requires
                q * v <= w,
                w < 10 * v,
                0 <= w,
                w < (q + 1) * v,
                v > 0,
        ;
    }
    Some(tenth as usize)
}

/// How many entries lie in each tenth of the scale of percentages.
pub fn rate_spread(store: &RelVec) -> (counts: Vec<usize>)
    ensures
        counts@.len() == 10,
        forall|tenth: int|
            0 <= tenth < 10 ==> #[trigger] counts@[tenth] == count_of(store@, tenth_is(tenth)),
{
    let ghost run = store@;
    let mut counts: Vec<usize> = Vec::new();
    while counts.len() < 10
        invariant
            counts@.len() <= 10,
            forall|tenth: int| 0 <= tenth < counts@.len() ==> #[trigger] counts@[tenth] == 0,
        decreases 10 - counts@.len(),
    {
        counts.push(0);
    }
    let mut i: usize = 0;
    assert(run.take(0) =~= Seq::<Tally>::empty());
    while i < store.inner.len()
        invariant
            i <= store.inner.len(),
            run == store@,
            counts@.len() == 10,
            forall|tenth: int|
                0 <= tenth < 10 ==> #[trigger] counts@[tenth] == count_of(
                    run.take(i as int),
                    tenth_is(tenth),
                ),
        decreases store.inner.len() - i,
    {
        assert(run.take(i + 1).drop_last() =~= run.take(i as int));
        assert(run.take(i + 1).last() == store.inner@[i as int]@);
        match tenth_of(&store.inner[i]) {
            Some(tenth) => {
                proof {
                    lemma_count_bound(run.take(i as int), tenth_is(tenth as int));
                    lemma_one_tenth(store.inner@[i as int]@, tenth as int);
                }
                let count: usize = counts[tenth];
                counts.set(tenth, count + 1);
            },
            None => {},
        }
        i = i + 1;
    }
    assert(run.take(i as int) =~= run);
    counts
}

/// A percentage lies in one tenth of the scale at most.
pub proof fn lemma_one_tenth(t: Tally, tenth: int)
    requires
        in_tenth(t, tenth),
    ensures
        forall|other: int| in_tenth(t, other) ==> other == tenth,
{
    assert forall|other: int| in_tenth(t, other) implies other == tenth by {
        if other < tenth {
            assert((other + 1) * t.votes <= tenth * t.votes) by (nonlinear_arith)
                requires
                    other + 1 <= tenth,
                    t.votes > 0,
            ;
        } else if other > tenth {
            assert((tenth + 1) * t.votes <= other * t.votes) by (nonlinear_arith)
                requires
                    tenth + 1 <= other,
                    t.votes > 0,
            ;
        }
    }
}

/// How many entries have the given number of votes.
pub fn count_with_votes(store: &RelVec, votes: u32) -> (count: usize)
    ensures
        count == count_of(store@, votes_are(votes as nat)),
{
    let ghost run = store@;
    let mut count: usize = 0;
    let mut i: usize = 0;
    assert(run.take(0) =~= Seq::<Tally>::empty());
    while i < store.inner.len()
        invariant
            i <= store.inner.len(),
            run == store@,
            count == count_of(run.take(i as int), votes_are(votes as nat)),
            count <= i,
        decreases store.inner.len() - i,
    {
        assert(run.take(i + 1).drop_last() =~= run.take(i as int));
        assert(run.take(i + 1).last() == store.inner@[i as int]@);
        if store.inner[i].votes == votes {
            count = count + 1;
        }
        i = i + 1;
    }
    assert(run.take(i as int) =~= run);
    count
}


/// Where every entry has votes, the search for the lowest rate ends on the
/// first entry that outranks no other.
pub proof fn lemma_lowest_is_first_least(run: Seq<Tally>)
    requires
        run.len() > 0,
        all_voted(run),
    ensures
        0 <= lowest_of(run) < run.len(),
        forall|j: int| 0 <= j < run.len() ==> !outranks(run[lowest_of(run)], #[trigger] run[j]),
        forall|j: int| 0 <= j < lowest_of(run) ==> outranks(#[trigger] run[j], run[lowest_of(run)]),
    decreases run.len(),
{
    if run.len() > 1 {
        let rest = run.drop_last();
        let held = lowest_of(rest);
        let last = run.last();
        assert(all_voted(rest)) by {
            assert forall|i: int| 0 <= i < rest.len() implies (#[trigger] rest[i]).votes > 0 by {
                assert(rest[i] == run[i]);
            }
        }
        lemma_lowest_is_first_least(rest);
        assert forall|j: int| 0 <= j < run.len() implies !outranks(
            run[lowest_of(run)],
            #[trigger] run[j],
        ) by {
            if j < rest.len() {
                assert(run[j] == rest[j]);
                if outranks(rest[held], last) {
                    lemma_gap_mirrors(rest[held], last);
                    lemma_rank_chain(rest[j], rest[held], last);
                }
            }
        }
        assert forall|j: int| 0 <= j < lowest_of(run) implies outranks(
            #[trigger] run[j],
            run[lowest_of(run)],
        ) by {
            assert(run[j] == rest[j]);
            if outranks(rest[held], last) {
                lemma_rank_above(rest[j], rest[held], last);
            }
        }
    }
}

/// Where every entry has votes, the search for the highest rate ends on the
/// last entry that no other outranks.
pub proof fn lemma_highest_is_last_most(run: Seq<Tally>)
    requires
        run.len() > 0,
        all_voted(run),
    ensures
        0 <= highest_of(run) < run.len(),
        forall|j: int| 0 <= j < run.len() ==> !outranks(#[trigger] run[j], run[highest_of(run)]),
        forall|j: int|
            highest_of(run) < j < run.len() ==> outranks(run[highest_of(run)], #[trigger] run[j]),
    decreases run.len(),
{
    if run.len() > 1 {
        let rest = run.drop_last();
        let held = highest_of(rest);
        let last = run.last();
        assert(all_voted(rest)) by {
            assert forall|i: int| 0 <= i < rest.len() implies (#[trigger] rest[i]).votes > 0 by {
                assert(rest[i] == run[i]);
            }
        }
        lemma_highest_is_last_most(rest);
        assert forall|j: int| 0 <= j < run.len() implies !outranks(
            #[trigger] run[j],
            run[highest_of(run)],
        ) by {
            if j < rest.len() {
                assert(run[j] == rest[j]);
                if !outranks(rest[held], last) {
                    lemma_rank_chain(last, rest[held], rest[j]);
                }
            } else if outranks(rest[held], last) {
                lemma_gap_mirrors(rest[held], last);
            }
        }
        assert forall|j: int| highest_of(run) < j < run.len() implies outranks(
            run[highest_of(run)],
            #[trigger] run[j],
        ) by {
            if j < rest.len() {
                assert(run[j] == rest[j]);
            }
        }
    }
}

/// The sum of the votes after one entry of the run has been exchanged.
pub proof fn lemma_votes_sum_update(run: Seq<Tally>, at: int, t: Tally)
    requires
        0 <= at < run.len(),
    ensures
        votes_sum(run.update(at, t)) == votes_sum(run) - run[at].votes + t.votes,
    decreases run.len(),
{
    let changed = run.update(at, t);
    if at == run.len() - 1 {
        assert(changed.drop_last() =~= run.drop_last());
    } else {
        lemma_votes_sum_update(run.drop_last(), at, t);
        assert(changed.drop_last() =~= run.drop_last().update(at, t));
    }
}

/// A round that one entry wins against another adds two votes to the sum.
pub proof fn lemma_round_adds_two_votes(run: Seq<Tally>, winner: int, loser: int)
    requires
        0 <= winner < run.len(),
        0 <= loser < run.len(),
        winner != loser,
    ensures
        votes_sum(cast(run, winner, loser)) == votes_sum(run) + 2,
{
    let won = run.update(
        winner,
        Tally { wins: run[winner].wins + 1, votes: run[winner].votes + 1, ..run[winner] },
    );
    lemma_votes_sum_update(
        run,
        winner,
        Tally { wins: run[winner].wins + 1, votes: run[winner].votes + 1, ..run[winner] },
    );
    lemma_votes_sum_update(won, loser, Tally { votes: won[loser].votes + 1, ..won[loser] });
}

} // verus!
