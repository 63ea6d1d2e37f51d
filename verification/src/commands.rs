//! What the commands do to a store once it is loaded: batch changes to the
//! entries that a filter names, and the choice of the lines to print.

use crate::error::Error;
use crate::pattern::{regex_compiles, regex_matches, search, Filter};
use crate::rel_vec::{fresh_tally, ranked, tallies, RelEntry, RelVec, Tally};
use vstd::prelude::*;
use vstd::string::StrSliceExecFns;

verus! {

/// For each entry of the run, whether the pattern matches its name.
pub open spec fn name_flags(run: Seq<Tally>, pattern: Seq<char>) -> Seq<bool> {
    Seq::new(run.len(), |i: int| regex_matches(pattern, run[i].name))
}

/// The entries whose flag is not set, in their order.
pub open spec fn without_flagged(run: Seq<Tally>, flags: Seq<bool>) -> Seq<Tally>
    decreases run.len(),
{
    if run.len() == 0 || flags.len() == 0 {
        Seq::empty()
    } else if flags.last() {
        without_flagged(run.drop_last(), flags.drop_last())
    } else {
        without_flagged(run.drop_last(), flags.drop_last()).push(run.last())
    }
}

/// The run with the tally of each flagged entry cleared.
pub open spec fn reset_where(run: Seq<Tally>, flags: Seq<bool>) -> Seq<Tally> {
    Seq::new(
        run.len(),
        |i: int|
            if flags[i] {
                Tally { wins: 0, votes: 0, ..run[i] }
            } else {
                run[i]
            },
    )
}

/// The run with the lock of each flagged entry set to `lock`.
pub open spec fn locked_where(run: Seq<Tally>, flags: Seq<bool>, lock: bool) -> Seq<Tally> {
    Seq::new(
        run.len(),
        |i: int|
            if flags[i] {
                Tally { locked: lock, ..run[i] }
            } else {
                run[i]
            },
    )
}

/// The positions whose flag is set, in rising order.
pub open spec fn flagged_positions(flags: Seq<bool>) -> Seq<usize>
    decreases flags.len(),
{
    if flags.len() == 0 {
        Seq::empty()
    } else if flags.last() {
        flagged_positions(flags.drop_last()).push((flags.len() - 1) as usize)
    } else {
        flagged_positions(flags.drop_last())
    }
}

/// An answer says yes when it begins with `y` or `Y`.
pub open spec fn confirms(answer: Seq<char>) -> bool {
    answer.len() > 0 && (answer[0] == 'y' || answer[0] == 'Y')
}

/// The run with one fresh entry per name added at the end.
pub open spec fn with_added(run: Seq<Tally>, names: Seq<String>) -> Seq<Tally> {
    run + Seq::new(names.len(), |i: int| fresh_tally(names[i]@))
}

/// Whether an answer to a yes-or-no question says yes.
pub fn confirmed(answer: &str) -> (yes: bool)
    ensures
        yes == confirms(answer@),
{
    if answer.is_empty() {
        return false;
    }
    let c: char = answer.get_char(0);
    c == 'y' || c == 'Y'
}

/// Flags the entries whose name the filter matches.
pub fn matching(store: &RelVec, filter: &Filter) -> (flags: Vec<bool>)
    ensures
        flags@ == name_flags(store@, filter.pattern()),
{
    let mut flags: Vec<bool> = Vec::new();
    let mut i: usize = 0;
    while i < store.inner.len()
        invariant
            i <= store.inner.len(),
            flags@ =~= name_flags(store@, filter.pattern()).take(i as int),
        decreases store.inner.len() - i,
    {
        flags.push(search(filter, store.inner[i].name.as_str()));
        i = i + 1;
    }
    flags
}

/// Removes the flagged entries; the others keep their order.
pub fn remove_flagged(store: &mut RelVec, flags: &Vec<bool>)
    requires
        flags@.len() == old(store)@.len(),
    ensures
        final(store)@ == without_flagged(old(store)@, flags@),
{
    let mut all: Vec<RelEntry> = Vec::new();
    std::mem::swap(&mut store.inner, &mut all);
    let ghost run = tallies(all@);
    let mut i: usize = 0;
    for entry in it: all
        invariant
            i == it.index(),
            it.seq().len() == flags@.len(),
            tallies(it.seq()) == run,
            store@ == without_flagged(run.take(i as int), flags@.take(i as int)),
    {
        let ghost kept = store@;
        assert(i < flags.len());
        assert(run.take(i + 1).drop_last() =~= run.take(i as int));
        assert(flags@.take(i + 1).drop_last() =~= flags@.take(i as int));
        assert(run.take(i + 1).last() == entry@);
        if !flags[i] {
            store.inner.push(entry);
            assert(store@ =~= kept.push(entry@));
        }
        i = i + 1;
    }
    assert(run.take(i as int) =~= run);
    assert(flags@.take(i as int) =~= flags@);
}

/// Clears the tally of each flagged entry.
pub fn reset_flagged(store: &mut RelVec, flags: &Vec<bool>)
    requires
        flags@.len() == old(store)@.len(),
    ensures
        final(store)@ == reset_where(old(store)@, flags@),
{
    let mut i: usize = 0;
    while i < store.inner.len()
        invariant
            i <= store.inner.len(),
            store@.len() == old(store)@.len() == flags@.len(),
            forall|k: int| 0 <= k < i ==> store@[k] == reset_where(old(store)@, flags@)[k],
            forall|k: int| i <= k < store@.len() ==> store@[k] == old(store)@[k],
        decreases store.inner.len() - i,
    {
        let ghost before = store@;
        if flags[i] {
            store.inner[i].reset();
            assert(store@ =~= before.update(
                i as int,
                Tally { wins: 0, votes: 0, ..before[i as int] },
            ));
        }
        i = i + 1;
    }
}

/// Sets the lock of each flagged entry to `lock`.
pub fn lock_flagged(store: &mut RelVec, flags: &Vec<bool>, lock: bool)
    requires
        flags@.len() == old(store)@.len(),
    ensures
        final(store)@ == locked_where(old(store)@, flags@, lock),
{
    let mut i: usize = 0;
    while i < store.inner.len()
        invariant
            i <= store.inner.len(),
            store@.len() == old(store)@.len() == flags@.len(),
            forall|k: int| 0 <= k < i ==> store@[k] == locked_where(old(store)@, flags@, lock)[k],
            forall|k: int| i <= k < store@.len() ==> store@[k] == old(store)@[k],
        decreases store.inner.len() - i,
    {
        let ghost before = store@;
        if flags[i] {
            store.inner[i].locked = lock;
            assert(store@ =~= before.update(i as int, Tally { locked: lock, ..before[i as int] }));
        }
        i = i + 1;
    }
}

/// The positions whose flag is set, in rising order.
pub fn positions(flags: &Vec<bool>) -> (found: Vec<usize>)
    ensures
        found@ == flagged_positions(flags@),
{
    let mut found: Vec<usize> = Vec::new();
    let mut i: usize = 0;
    while i < flags.len()
        invariant
            i <= flags.len(),
            found@ == flagged_positions(flags@.take(i as int)),
        decreases flags.len() - i,
    {
        assert(flags@.take(i + 1).drop_last() =~= flags@.take(i as int));
        if flags[i] {
            found.push(i);
        }
        i = i + 1;
    }
    assert(flags@.take(i as int) =~= flags@);
    found
}


/// The pattern that matches every name, for a listing without a filter.
pub open spec fn any_name() -> Seq<char> {
    ".*?"@
}

/// Appends one fresh entry per name, in the order given.
pub fn add_items(store: &mut RelVec, items: Vec<String>)
    ensures
        final(store)@ == with_added(old(store)@, items@),
{
    let ghost all = items@;
    for name in it: items
        invariant
            it.seq() == all,
            store@ =~= with_added(old(store)@, all.take(it.index())),
    {
        assert(name == all[it.index()]);
        store.add(name);
        assert(store@ =~= with_added(old(store)@, all.take(it.index() + 1)));
    }
    assert(all.take(all.len() as int) =~= all);
}

/// The removal command: where the answer says yes, the entries whose name
/// the filter matches leave the store. Says whether it did so.
pub fn remove_entries(store: &mut RelVec, filter: &Filter, answer: &str) -> (done: bool)
    ensures
        done == confirms(answer@),
        final(store)@ == if done {
            without_flagged(old(store)@, name_flags(old(store)@, filter.pattern()))
        } else {
            old(store)@
        },
{
    if confirmed(answer) {
        let flags: Vec<bool> = matching(store, filter);
        remove_flagged(store, &flags);
        true
    } else {
        false
    }
}

/// The reset command: where the answer says yes, the tallies of the entries
/// whose name the filter matches are cleared. Says whether it did so.
pub fn reset_entries(store: &mut RelVec, filter: &Filter, answer: &str) -> (done: bool)
    ensures
        done == confirms(answer@),
        final(store)@ == if done {
            reset_where(old(store)@, name_flags(old(store)@, filter.pattern()))
        } else {
            old(store)@
        },
{
    if confirmed(answer) {
        let flags: Vec<bool> = matching(store, filter);
        reset_flagged(store, &flags);
        true
    } else {
        false
    }
}

/// The lock and unlock commands: where the answer says yes, the lock of the
/// entries whose name the filter matches is set to `lock`. Says whether it
/// did so.
pub fn lock_entries(store: &mut RelVec, filter: &Filter, answer: &str, lock: bool) -> (done: bool)
    ensures
        done == confirms(answer@),
        final(store)@ == if done {
            locked_where(old(store)@, name_flags(old(store)@, filter.pattern()), lock)
        } else {
            old(store)@
        },
{
    if confirmed(answer) {
        let flags: Vec<bool> = matching(store, filter);
        lock_flagged(store, &flags, lock);
        true
    } else {
        false
    }
}

/// The pattern of a listing: the one asked for, or the one that matches
/// every name.
pub open spec fn listing_pattern(pattern: Option<&str>) -> Seq<char> {
    match pattern {
        Some(given) => given@,
        None => any_name(),
    }
}

/// The filter of a listing: the one asked for, or one that matches every
/// name. There is one whenever the pattern of the listing compiles.
pub fn listing_filter(pattern: Option<&str>) -> (made: Result<Filter, Error>)
    ensures
        (made is Ok) == regex_compiles(listing_pattern(pattern)),
        made matches Ok(filter) ==> filter.pattern() == listing_pattern(pattern),
        made matches Err(error) ==> error is Regex,
{
    match pattern {
        Some(given) => Filter::new(given),
        None => Filter::new(".*?"),
    }
}

/// The listing command: orders the store by descending win rate and gives
/// the positions, in that order, of the entries to print: those whose name
/// the filter matches.
pub fn listing(store: &mut RelVec, filter: &Filter) -> (lines: Vec<usize>)
    ensures
        final(store)@ == ranked(old(store)@),
        lines@ == flagged_positions(name_flags(final(store)@, filter.pattern())),
{
    store.sort_percentage();
    let flags: Vec<bool> = matching(store, filter);
    positions(&flags)
}

} // verus!
