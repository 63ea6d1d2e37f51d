//! The random source behind the selection strategies.

use crate::rel_vec::{tallies, RelEntry};
use rand::rngs::ThreadRng;
use rand::seq::SliceRandom;
use rand::Rng;
use vstd::prelude::*;

verus! {

/// `rand::rngs::ThreadRng`, the handle to the generator of a thread. Nothing
/// is known of what it holds.
#[verifier::external_type_specification]
#[verifier::external_body]
pub struct ExThreadRng(ThreadRng);

/// `ThreadRng::clone`: another handle. Nothing is claimed of it.
pub assume_specification[ <ThreadRng as Clone>::clone ](rng: &ThreadRng) -> ThreadRng;

/// `rand::thread_rng`: a handle to the generator of the calling thread.
/// Nothing is claimed of the handle.
#[verifier::external_body]
pub(crate) fn thread_source() -> ThreadRng {
    rand::thread_rng()
}

/// `Rng::gen_range` over `0..bound`: some index below `bound`. The call
/// panics on an empty range, which `requires` leaves out.
#[verifier::external_body]
pub(crate) fn draw_below(rng: &mut ThreadRng, bound: usize) -> (index: usize)
    requires
        bound > 0,
    ensures
        index < bound,
{
    rng.gen_range(0..bound)
}

/// `Rng::gen_ratio`: a coin that shows heads in `numerator` of `denominator`
/// throws. Nothing is claimed of the side that comes up. The call panics on
/// a denominator of zero and on a numerator above the denominator, which
/// `requires` leaves out.
#[verifier::external_body]
pub(crate) fn draw_ratio(rng: &mut ThreadRng, numerator: u32, denominator: u32) -> bool
    requires
        0 < denominator,
        numerator <= denominator,
{
    rng.gen_ratio(numerator, denominator)
}

/// `SliceRandom::shuffle`: reorders the entries in place by swaps, so the
/// same tallies are there afterwards, each as often as before.
#[verifier::external_body]
pub(crate) fn shuffle_entries(entries: &mut Vec<RelEntry>, rng: &mut ThreadRng)
    ensures
        tallies(final(entries)@).to_multiset() == tallies(old(entries)@).to_multiset(),
{
    entries.shuffle(rng)
}

} // verus!
