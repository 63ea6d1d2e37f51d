//! What holds of the cross-multiplied order of win rates and of the ranking
//! that it gives.

use crate::rel_vec::{outranks, place_of, placed, ranked, rate_gap, lemma_placed_inserts, Tally};
use vstd::prelude::*;

verus! {

/// Two entries without votes compare equal, whatever their wins; so does
/// any entry set against one that has neither wins nor votes.
pub proof fn lemma_no_votes_tie(a: Tally, b: Tally)
    ensures
        a.votes == 0 && b.votes == 0 ==> rate_gap(a, b) == 0,
        a.votes == 0 && a.wins == 0 ==> rate_gap(a, b) == 0 && rate_gap(b, a) == 0,
{
    assert(a.votes == 0 && b.votes == 0 ==> a.wins * b.votes - b.wins * a.votes == 0)
        by (nonlinear_arith);
    assert(a.votes == 0 && a.wins == 0 ==> a.wins * b.votes - b.wins * a.votes == 0 && b.wins
        * a.votes - a.wins * b.votes == 0) by (nonlinear_arith);
}

/// Set the other way round, two entries compare the other way round.
pub proof fn lemma_gap_mirrors(a: Tally, b: Tally)
    ensures
        rate_gap(b, a) == -rate_gap(a, b),
        outranks(a, b) ==> !outranks(b, a),
{
}

/// Among entries that have votes, an entry that is not outranked by a second,
/// which is not outranked by a third, is not outranked by the third.
pub proof fn lemma_rank_chain(a: Tally, b: Tally, c: Tally)
    requires
        b.votes > 0,
        a.votes > 0,
        c.votes > 0,
        !outranks(b, a),
        !outranks(c, b),
    ensures
        !outranks(c, a),
{
    assert(c.wins * a.votes <= a.wins * c.votes) by (nonlinear_arith)
        requires
            b.wins * a.votes <= a.wins * b.votes,
            c.wins * b.votes <= b.wins * c.votes,
            a.votes > 0,
            b.votes > 0,
            c.votes > 0,
    ;
}

/// An entry that is brought into a run outranks every entry behind its place
/// and does not outrank the one before it.
pub proof fn lemma_place(run: Seq<Tally>, x: Tally)
    ensures
        0 <= place_of(run, x) <= run.len(),
        forall|k: int| place_of(run, x) <= k < run.len() ==> outranks(x, #[trigger] run[k]),
        place_of(run, x) > 0 ==> !outranks(x, run[place_of(run, x) - 1]),
    decreases run.len(),
{
    if run.len() > 0 && outranks(x, run.last()) {
        lemma_place(run.drop_last(), x);
        assert forall|k: int| place_of(run, x) <= k < run.len() implies outranks(
            x,
            #[trigger] run[k],
        ) by {
            if k < run.len() - 1 {
                assert(run[k] == run.drop_last()[k]);
            }
        }
    }
}

/// No entry of the run outranks the one that stands before it.
pub open spec fn descends(run: Seq<Tally>) -> bool {
    forall|i: int| 0 <= i < run.len() - 1 ==> !outranks(#[trigger] run[i + 1], run[i])
}

/// No entry of the run outranks any that stands before it.
pub open spec fn sorted(run: Seq<Tally>) -> bool {
    forall|i: int, j: int|
        #![trigger run[i], run[j]]
        0 <= i < j < run.len() ==> !outranks(run[j], run[i])
}

/// Every entry of the run has votes.
pub open spec fn all_voted(run: Seq<Tally>) -> bool {
    forall|i: int| 0 <= i < run.len() ==> (#[trigger] run[i]).votes > 0
}

/// Ranking reorders: the ranked run holds the same entries, each as often as
/// before.
pub proof fn lemma_ranked_permutes(run: Seq<Tally>)
    ensures
        ranked(run).to_multiset() == run.to_multiset(),
        ranked(run).len() == run.len(),
    decreases run.len(),
{
    broadcast use vstd::seq_lib::group_to_multiset_ensures;

    if run.len() > 0 {
        let before = ranked(run.drop_last());
        lemma_ranked_permutes(run.drop_last());
        lemma_placed_inserts(before, run.last());
        assert(run =~= run.drop_last().push(run.last()));
        vstd::seq_lib::to_multiset_insert(before, place_of(before, run.last()), run.last());
        vstd::seq_lib::to_multiset_build(run.drop_last(), run.last());
        assert(ranked(run).to_multiset() =~= run.to_multiset());
    }
}

/// In a ranked run no entry outranks the one before it.
pub proof fn lemma_ranked_descends(run: Seq<Tally>)
    ensures
        descends(ranked(run)),
    decreases run.len(),
{
    if run.len() > 0 {
        let before = ranked(run.drop_last());
        let x = run.last();
        let p = place_of(before, x);
        lemma_ranked_descends(run.drop_last());
        lemma_placed_inserts(before, x);
        lemma_place(before, x);
        let after = ranked(run);
        assert forall|i: int| 0 <= i < after.len() - 1 implies !outranks(
            #[trigger] after[i + 1],
            after[i],
        ) by {
            if i + 1 < p {
                assert(after[i + 1] == before[i + 1]);
                assert(after[i] == before[i]);
                assert(!outranks(before[i + 1], before[i]));
            } else if i + 1 == p {
                assert(after[i + 1] == x);
                assert(after[i] == before[p - 1]);
            } else if i == p {
                assert(after[i] == x);
                assert(after[i + 1] == before[p]);
                assert(outranks(x, before[p]));
                lemma_gap_mirrors(x, before[p]);
            } else {
                assert(after[i + 1] == before[i]);
                assert(after[i] == before[i - 1]);
                assert(!outranks(before[(i - 1) + 1], before[i - 1]));
            }
        }
    }
}

/// Where every entry has votes, the order is a true one, and in the ranked
/// run no entry outranks any before it.
pub proof fn lemma_ranked_sorted(run: Seq<Tally>)
    requires
        all_voted(run),
    ensures
        sorted(ranked(run)),
        all_voted(ranked(run)),
    decreases run.len(),
{
    if run.len() > 0 {
        let before = ranked(run.drop_last());
        let x = run.last();
        let p = place_of(before, x);
        assert(all_voted(run.drop_last())) by {
            assert forall|i: int| 0 <= i < run.drop_last().len() implies (
            #[trigger] run.drop_last()[i]).votes > 0 by {
                assert(run.drop_last()[i] == run[i]);
            }
        }
        lemma_ranked_sorted(run.drop_last());
        lemma_placed_inserts(before, x);
        lemma_place(before, x);
        let after = ranked(run);
        assert(x.votes > 0);
        assert forall|i: int| 0 <= i < after.len() implies (#[trigger] after[i]).votes > 0 by {
            if i < p {
                assert(after[i] == before[i]);
            } else if i > p {
                assert(after[i] == before[i - 1]);
            }
        }
        assert forall|i: int, j: int|
            #![trigger after[i], after[j]]
            0 <= i < j < after.len() implies !outranks(after[j], after[i]) by {
            if j < p {
                assert(after[i] == before[i] && after[j] == before[j]);
            } else if j == p {
                assert(after[i] == before[i]);
                if i < p - 1 {
                    assert(!outranks(before[p - 1], before[i]));
                    lemma_rank_chain(before[i], before[p - 1], x);
                }
            } else if i == p {
                assert(after[j] == before[j - 1]);
                lemma_gap_mirrors(x, before[j - 1]);
            } else if i < p {
                assert(after[i] == before[i] && after[j] == before[j - 1]);
            } else {
                assert(after[i] == before[i - 1] && after[j] == before[j - 1]);
            }
        }
    }
}


/// The entries that compare equal to `z`.
pub open spec fn tying(z: Tally) -> spec_fn(Tally) -> bool {
    |t: Tally| rate_gap(t, z) == 0
}

/// Among entries that have votes, two that compare equal to a third compare
/// equal to each other.
pub proof fn lemma_ties_chain(a: Tally, b: Tally, z: Tally)
    requires
        z.votes > 0,
        rate_gap(a, z) == 0,
        rate_gap(b, z) == 0,
    ensures
        rate_gap(a, b) == 0,
{
    assert(a.wins * b.votes == b.wins * a.votes) by (nonlinear_arith)
        requires
            a.wins * z.votes == z.wins * a.votes,
            b.wins * z.votes == z.wins * b.votes,
            z.votes > 0,
    ;
}

/// Bringing an entry into a run leaves the entries that compare equal to `z`
/// in their order, with the new one behind them if it is one of them.
pub proof fn lemma_placed_stable(run: Seq<Tally>, x: Tally, z: Tally)
    requires
        z.votes > 0,
    ensures
        placed(run, x).filter(tying(z)) == if rate_gap(x, z) == 0 {
            run.filter(tying(z)).push(x)
        } else {
            run.filter(tying(z))
        },
    decreases run.len(),
{
    if run.len() > 0 && outranks(x, run.last()) {
        let rest = run.drop_last();
        let last = run.last();
        lemma_placed_stable(rest, x, z);
        placed(rest, x).lemma_filter_push(last, tying(z));
        rest.lemma_filter_push(last, tying(z));
        assert(run =~= rest.push(last));
        if rate_gap(x, z) == 0 && rate_gap(last, z) == 0 {
            lemma_ties_chain(x, last, z);
        }
    } else {
        run.lemma_filter_push(x, tying(z));
    }
}

/// Ranking is stable: the entries that compare equal to an entry with votes
/// stand in the ranked run in the order in which they stood before.
pub proof fn lemma_ranked_stable(run: Seq<Tally>, z: Tally)
    requires
        z.votes > 0,
    ensures
        ranked(run).filter(tying(z)) == run.filter(tying(z)),
    decreases run.len(),
{
    if run.len() > 0 {
        lemma_ranked_stable(run.drop_last(), z);
        lemma_placed_stable(ranked(run.drop_last()), run.last(), z);
        run.drop_last().lemma_filter_push(run.last(), tying(z));
        assert(run =~= run.drop_last().push(run.last()));
    }
}


/// Among entries that have votes, an entry that is not outranked by a second,
/// which outranks a third, outranks the third.
pub proof fn lemma_rank_above(a: Tally, b: Tally, c: Tally)
    requires
        a.votes > 0,
        b.votes > 0,
        c.votes > 0,
        !outranks(b, a),
        outranks(b, c),
    ensures
        outranks(a, c),
{
    assert(a.wins * c.votes > c.wins * a.votes) by (nonlinear_arith)
        requires
            b.wins * a.votes <= a.wins * b.votes,
            b.wins * c.votes > c.wins * b.votes,
            a.votes > 0,
            b.votes > 0,
            c.votes > 0,
    ;
}

} // verus!
