//! Win rates set against each other exactly, as fractions.
//!
//! The percentage of an entry is a hundred times its wins over its votes. The
//! distance between two percentages is held as a fraction, a hundred times
//! the cross-multiplied gap over the product of the votes, so that no division
//! takes place and an entry without votes has no percentage at all.

use crate::rel_vec::{lemma_product_fits, none_agree, rate_gap, RelEntry, Tally};
use vstd::prelude::*;

verus! {

/// The absolute value of the cross-multiplied gap between two win rates.
pub open spec fn gap_size(a: Tally, b: Tally) -> nat {
    if rate_gap(a, b) < 0 {
        (-rate_gap(a, b)) as nat
    } else {
        rate_gap(a, b) as nat
    }
}

/// The product of the votes of two entries: positive exactly when both have
/// a percentage.
pub open spec fn vote_product(a: Tally, b: Tally) -> nat {
    a.votes * b.votes
}

/// The reciprocal of the bound under which two percentages count as equal:
/// two to the power of 52.
pub open spec fn epsilon_inverse() -> nat {
    0x10_0000_0000_0000
}

/// Both entries have a percentage, and the two differ by less than
/// two to the power of minus 52, the epsilon of double precision.
///
/// The difference is taken exactly, between the fractions. Percentages that
/// are first rounded to doubles can come out otherwise near the bound: two
/// different fractions may round to one double and so seem equal, as a
/// hundred times 200000000 over 400000001 and 200000001 over 400000003 do,
/// which lie further apart than the bound and do not agree here.
pub open spec fn rates_agree(a: Tally, b: Tally) -> bool {
    &&& vote_product(a, b) > 0
    &&& 100 * gap_size(a, b) * epsilon_inverse() < vote_product(a, b)
}

/// The fraction `gap` over `weight` is strictly smaller than `other_gap` over
/// `other_weight`, where a fraction over zero is larger than every fraction
/// over a positive weight.
pub open spec fn smaller_fraction(gap: nat, weight: nat, other_gap: nat, other_weight: nat) -> bool {
    &&& weight > 0
    &&& (other_weight == 0 || gap * other_weight < other_gap * weight)
}

/// The percentages of `a` and `b` lie strictly nearer to each other than
/// those of `c` and `d`. A pair in which an entry has no votes has no
/// distance: it is never the nearer one, and every pair with a distance is
/// nearer than it.
///
/// The distances are compared exactly, as fractions. Distances between
/// percentages that are first rounded to doubles can come out otherwise:
/// there a third to two thirds is a shade further than two thirds to the
/// whole, while here the two distances are the same and neither is nearer.
pub open spec fn nearer(a: Tally, b: Tally, c: Tally, d: Tally) -> bool {
    smaller_fraction(gap_size(a, b), vote_product(a, b), gap_size(c, d), vote_product(c, d))
}

/// A fraction that is smaller than one that a third does not undercut is
/// smaller than the third.
pub proof fn lemma_smaller_fraction_chain(
    gap: nat,
    weight: nat,
    mid_gap: nat,
    mid_weight: nat,
    far_gap: nat,
    far_weight: nat,
)
    requires
        smaller_fraction(gap, weight, mid_gap, mid_weight),
        !smaller_fraction(far_gap, far_weight, mid_gap, mid_weight),
    ensures
        smaller_fraction(gap, weight, far_gap, far_weight),
{
    if far_weight > 0 {
        assert(gap * far_weight < far_gap * weight) by (nonlinear_arith)
            requires
                gap * mid_weight < mid_gap * weight,
                mid_gap * far_weight <= far_gap * mid_weight,
                weight > 0,
                mid_weight > 0,
                far_weight > 0,
        ;
    }
}

/// The product of two products of 32-bit counters fits in 128 bits.
pub proof fn lemma_wide_product_fits(x: nat, y: nat)
    requires
        x <= 0xffff_fffe_0000_0001,
        y <= 0xffff_fffe_0000_0001,
    ensures
        x * y <= 0xffff_fffc_0000_0005_ffff_fffc_0000_0001,
{
    assert(x * y <= 0xffff_fffe_0000_0001 * 0xffff_fffe_0000_0001) by (nonlinear_arith)
        requires
            x <= 0xffff_fffe_0000_0001,
            y <= 0xffff_fffe_0000_0001,
    ;
}

/// The cross-multiplied gap between two entries, without its sign.
pub fn gap_between(a: &RelEntry, b: &RelEntry) -> (size: u64)
    ensures
        size == gap_size(a@, b@),
{
    proof {
        lemma_product_fits(a.wins, b.votes);
        lemma_product_fits(b.wins, a.votes);
    }
    let ap: u64 = u64::from(a.wins) * u64::from(b.votes);
    let bp: u64 = u64::from(b.wins) * u64::from(a.votes);
    if ap < bp {
        bp - ap
    } else {
        ap - bp
    }
}

/// The product of the votes of two entries.
pub fn votes_between(a: &RelEntry, b: &RelEntry) -> (product: u64)
    ensures
        product == vote_product(a@, b@),
{
    proof {
        lemma_product_fits(a.votes, b.votes);
    }
    u64::from(a.votes) * u64::from(b.votes)
}

/// Whether two entries have percentages that count as equal.
pub fn agree(a: &RelEntry, b: &RelEntry) -> (yes: bool)
    ensures
        yes == rates_agree(a@, b@),
{
    let den: u64 = votes_between(a, b);
    if den == 0 {
        return false;
    }
    let gap: u64 = gap_between(a, b);
    proof {
        lemma_product_fits(a.wins, b.votes);
        lemma_product_fits(b.wins, a.votes);
        assert(100 * gap * 0x10_0000_0000_0000 <= 0x63f_ffff_f380_0000_0640_0000_0000_0000);
    }
    let scaled: u128 = 100u128 * u128::from(gap) * 0x10_0000_0000_0000u128;
    scaled < u128::from(den)
}

/// Whether `a` and `b` are strictly nearer to each other in percentage than
/// `c` and `d`.
pub fn is_nearer(a: &RelEntry, b: &RelEntry, c: &RelEntry, d: &RelEntry) -> (yes: bool)
    ensures
        yes == nearer(a@, b@, c@, d@),
{
    let den_ab: u64 = votes_between(a, b);
    if den_ab == 0 {
        return false;
    }
    let den_cd: u64 = votes_between(c, d);
    if den_cd == 0 {
        return true;
    }
    let gap_ab: u64 = gap_between(a, b);
    let gap_cd: u64 = gap_between(c, d);
    proof {
        lemma_product_fits(a.wins, b.votes);
        lemma_product_fits(b.wins, a.votes);
        lemma_product_fits(c.wins, d.votes);
        lemma_product_fits(d.wins, c.votes);
        lemma_product_fits(a.votes, b.votes);
        lemma_product_fits(c.votes, d.votes);
        lemma_wide_product_fits(gap_ab as nat, den_cd as nat);
        lemma_wide_product_fits(gap_cd as nat, den_ab as nat);
    }
    u128::from(gap_ab) * u128::from(den_cd) < u128::from(gap_cd) * u128::from(den_ab)
}


/// Whether two percentages count as equal does not depend on the side from
/// which they are set against each other.
pub proof fn lemma_agree_mirrors(a: Tally, b: Tally)
    ensures
        rates_agree(a, b) == rates_agree(b, a),
{
    assert(a.votes * b.votes == b.votes * a.votes) by (nonlinear_arith);
}

/// A run that holds the same entries as another, each as often, holds two
/// entries whose percentages count as equal if the other does: whether the
/// shuffled store has such a pair is settled before the shuffle.
pub proof fn lemma_agreement_survives_reordering(run: Seq<Tally>, other: Seq<Tally>)
    requires
        run.to_multiset() == other.to_multiset(),
    ensures
        none_agree(run) == none_agree(other),
{
    if !none_agree(run) {
        lemma_pair_carries_over(run, other);
    }
    if !none_agree(other) {
        lemma_pair_carries_over(other, run);
    }
}

/// A pair with equal percentages in one run is found in every reordering.
proof fn lemma_pair_carries_over(run: Seq<Tally>, other: Seq<Tally>)
    requires
        run.to_multiset() == other.to_multiset(),
        !none_agree(run),
    ensures
        !none_agree(other),
{
    broadcast use vstd::seq_lib::group_to_multiset_ensures;

    let (i, j) = choose|i: int, j: int|
        #![trigger run[i], run[j]]
        0 <= i < j < run.len() && rates_agree(run[i], run[j]);
    let x = run[i];
    let y = run[j];
    assert(run.contains(x));
    assert(other.to_multiset().count(x) > 0);
    assert(other.contains(x));
    let at = choose|at: int| 0 <= at < other.len() && other[at] == x;
    let rest = run.remove(i);
    let other_rest = other.remove(at);
    assert(rest.to_multiset() =~= other_rest.to_multiset());
    assert(rest[j - 1] == y);
    assert(rest.contains(y));
    assert(other_rest.to_multiset().count(y) > 0);
    assert(other_rest.contains(y));
    let k = choose|k: int| 0 <= k < other_rest.len() && other_rest[k] == y;
    let to = if k < at {
        k
    } else {
        k + 1
    };
    assert(other[to] == y);
    lemma_agree_mirrors(x, y);
    if to < at {
        assert(rates_agree(other[to], other[at]));
    } else {
        assert(rates_agree(other[at], other[to]));
    }
}

} // verus!
