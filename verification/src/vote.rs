//! The selection strategies by name, and the rounds of a voting session.

use crate::error::Error;
use crate::rel_vec::{
    first_agreeing, first_nearest, least_voted, none_agree, RelEntry, RelVec, Tally,
};
use vstd::prelude::*;
use vstd::string::StrSliceExecFns;
use vstd::string::StringExecFns;

verus! {

/// The rule by which the next two entries are picked.
#[derive(Clone, Copy, Debug)]
pub enum VoteStrategy {
    Random,
    OneMin,
    Equal,
    MinEqual,
    Nearest,
}

/// The name under which a strategy is asked for.
pub open spec fn strategy_name(strategy: VoteStrategy) -> Seq<char> {
    match strategy {
        VoteStrategy::Random => "random"@,
        VoteStrategy::OneMin => "onemin"@,
        VoteStrategy::Equal => "equal"@,
        VoteStrategy::MinEqual => "minequal"@,
        VoteStrategy::Nearest => "nearest"@,
    }
}

/// The strategy that a name stands for, if any.
pub open spec fn strategy_named(name: Seq<char>) -> Option<VoteStrategy> {
    if name == "random"@ {
        Some(VoteStrategy::Random)
    } else if name == "onemin"@ {
        Some(VoteStrategy::OneMin)
    } else if name == "equal"@ {
        Some(VoteStrategy::Equal)
    } else if name == "minequal"@ {
        Some(VoteStrategy::MinEqual)
    } else if name == "nearest"@ {
        Some(VoteStrategy::Nearest)
    } else {
        None
    }
}

/// Each strategy is found again under its own name.
pub proof fn lemma_strategy_names_distinct(strategy: VoteStrategy)
    ensures
        strategy_named(strategy_name(strategy)) == Some(strategy),
{
    reveal_strlit("random");
    reveal_strlit("onemin");
    reveal_strlit("equal");
    reveal_strlit("minequal");
    reveal_strlit("nearest");
    assert("random"@[0] != "onemin"@[0]);
    assert("random"@[0] != "equal"@[0]);
    assert("random"@[0] != "minequal"@[0]);
    assert("random"@[0] != "nearest"@[0]);
    assert("onemin"@[0] != "equal"@[0]);
    assert("onemin"@[0] != "minequal"@[0]);
    assert("onemin"@[0] != "nearest"@[0]);
    assert("equal"@[0] != "minequal"@[0]);
    assert("equal"@[0] != "nearest"@[0]);
    assert("minequal"@[0] != "nearest"@[0]);
}

impl VoteStrategy {
    /// The names of all strategies.
    pub fn strategies() -> (names: [&'static str; 5])
        ensures
            names[0]@ == strategy_name(VoteStrategy::Random),
            names[1]@ == strategy_name(VoteStrategy::OneMin),
            names[2]@ == strategy_name(VoteStrategy::Equal),
            names[3]@ == strategy_name(VoteStrategy::MinEqual),
            names[4]@ == strategy_name(VoteStrategy::Nearest),
    {
        ["random", "onemin", "equal", "minequal", "nearest"]
    }

    /// The name of this strategy.
    pub fn to_string(&self) -> (name: String)
        ensures
            name@ == strategy_name(*self),
    {
        match self {
            VoteStrategy::Random => String::from_str("random"),
            VoteStrategy::OneMin => String::from_str("onemin"),
            VoteStrategy::Equal => String::from_str("equal"),
            VoteStrategy::MinEqual => String::from_str("minequal"),
            VoteStrategy::Nearest => String::from_str("nearest"),
        }
    }

    /// Asks this strategy for the next pair. Every strategy names two
    /// different positions of the store or none, and none in a store without
    /// two entries; only `Equal` may find none in a larger store.
    pub fn choose_function(&self, store: &mut RelVec) -> (pair: Option<(usize, usize)>)
        ensures
            final(store)@.to_multiset() == old(store)@.to_multiset(),
            old(store)@.len() < 2 ==> pair is None && final(store).inner@ == old(store).inner@,
            pair matches Some((a, b)) ==> a < old(store)@.len() && b < old(store)@.len() && a != b,
            old(store)@.len() >= 2 && !(*self is Equal) ==> pair is Some,
            *self is Random ==> final(store).inner@ == old(store).inner@,
            *self is OneMin ==> final(store).inner@ == old(store).inner@ && (pair matches Some(
                (a, b),
            ) ==> least_voted(old(store)@, a as int)),
            *self is Equal ==> (pair is None) == none_agree(old(store)@) && match pair {
                Some((a, b)) => first_agreeing(final(store)@, a as int, b as int),
                None => none_agree(final(store)@),
            },
            *self is Nearest ==> (pair matches Some((a, b)) ==> first_nearest(
                final(store)@,
                a as int,
                b as int,
            )),
            *self is MinEqual ==> (pair matches Some((a, b)) ==> first_agreeing(
                final(store)@,
                a as int,
                b as int,
            ) || least_voted(final(store)@, a as int)),
    {
        proof {
            old(store)@.to_multiset_ensures();
        }
        let pair = match self {
            VoteStrategy::Random => store.random_pair(),
            VoteStrategy::OneMin => store.min_pair(),
            VoteStrategy::Equal => store.equal_pair(),
            VoteStrategy::MinEqual => store.min_equal_pair(),
            VoteStrategy::Nearest => store.nearest_pair(),
        };
        proof {
            store@.to_multiset_ensures();
        }
        pair
    }
}

impl TryFrom<&str> for VoteStrategy {
    type Error = Error;

    /// The strategy of the given name; a name that stands for none is an
    /// argument failure.
    fn try_from(value: &str) -> (found: Result<VoteStrategy, Error>) {
        let name: String = String::from_str(value);
        if name == String::from_str("random") {
            Ok(VoteStrategy::Random)
        } else if name == String::from_str("onemin") {
            Ok(VoteStrategy::OneMin)
        } else if name == String::from_str("equal") {
            Ok(VoteStrategy::Equal)
        } else if name == String::from_str("minequal") {
            Ok(VoteStrategy::MinEqual)
        } else if name == String::from_str("nearest") {
            Ok(VoteStrategy::Nearest)
        } else {
            Err(Error::ArgError)
        }
    }
}

impl vstd::std_specs::convert::TryFromSpecImpl<&str> for VoteStrategy {
    open spec fn obeys_try_from_spec() -> bool {
        true
    }

    open spec fn try_from_spec(value: &str) -> Result<VoteStrategy, Error> {
        match strategy_named(value@) {
            Some(strategy) => Ok(strategy),
            None => Err(Error::ArgError),
        }
    }
}


/// What the voter answered when shown two entries.
#[derive(Clone, Copy, Debug)]
pub enum Verdict {
    /// The first entry is preferred.
    First,
    /// The second entry is preferred.
    Second,
    /// Neither is preferred.
    Undecided,
    /// The first entry leaves the store.
    RemoveFirst,
    /// The second entry leaves the store.
    RemoveSecond,
    /// The session ends here.
    Quit,
    /// The answer is none of the known ones.
    Unknown,
    /// There was no answer at all.
    Missing,
}

/// The verdict that an answer stands for: its first character decides.
pub open spec fn verdict_of(answer: Seq<char>) -> Verdict {
    if answer.len() == 0 {
        Verdict::Missing
    } else if answer[0] == '1' {
        Verdict::First
    } else if answer[0] == '2' {
        Verdict::Second
    } else if answer[0] == 'o' {
        Verdict::Undecided
    } else if answer[0] == 'x' {
        Verdict::RemoveFirst
    } else if answer[0] == 'y' {
        Verdict::RemoveSecond
    } else if answer[0] == 'q' {
        Verdict::Quit
    } else {
        Verdict::Unknown
    }
}

impl Verdict {
    /// Reads the verdict off an answer.
    pub fn read(answer: &str) -> (verdict: Verdict)
        ensures
            verdict == verdict_of(answer@),
    {
        if answer.is_empty() {
            return Verdict::Missing;
        }
        let c: char = answer.get_char(0);
        if c == '1' {
            Verdict::First
        } else if c == '2' {
            Verdict::Second
        } else if c == 'o' {
            Verdict::Undecided
        } else if c == 'x' {
            Verdict::RemoveFirst
        } else if c == 'y' {
            Verdict::RemoveSecond
        } else if c == 'q' {
            Verdict::Quit
        } else {
            Verdict::Unknown
        }
    }
}

/// The run after a round that `winner` won against `loser`: one more win for
/// the winner, one more vote for both.
pub open spec fn cast(run: Seq<Tally>, winner: int, loser: int) -> Seq<Tally> {
    let won = run.update(
        winner,
        Tally { wins: run[winner].wins + 1, votes: run[winner].votes + 1, ..run[winner] },
    );
    won.update(loser, Tally { votes: won[loser].votes + 1, ..won[loser] })
}

/// The run after a verdict on the entries at `first` and `second`.
pub open spec fn applied(run: Seq<Tally>, first: int, second: int, verdict: Verdict) -> Seq<Tally> {
    match verdict {
        Verdict::First => cast(run, first, second),
        Verdict::Second => cast(run, second, first),
        Verdict::RemoveFirst => run.remove(first),
        Verdict::RemoveSecond => run.remove(second),
        _ => run,
    }
}

/// The counters that the verdict raises are below their limit.
pub open spec fn has_room(run: Seq<Tally>, first: int, second: int, verdict: Verdict) -> bool {
    &&& verdict is First || verdict is Second ==> run[first].votes < u32::MAX && run[second].votes
        < u32::MAX
    &&& verdict is First ==> run[first].wins < u32::MAX
    &&& verdict is Second ==> run[second].wins < u32::MAX
}

/// Applies a verdict on the entries at `first` and `second` to the store.
/// Says whether the session goes on: it does unless the verdict is to quit.
pub fn apply_verdict(store: &mut RelVec, first: usize, second: usize, verdict: Verdict) -> (goes_on:
    bool)
    requires
        first < old(store)@.len(),
        second < old(store)@.len(),
        first != second,
        has_room(old(store)@, first as int, second as int, verdict),
    ensures
        final(store)@ == applied(old(store)@, first as int, second as int, verdict),
        goes_on == !(verdict is Quit),
{
    match verdict {
        Verdict::First => {
            store.inner[first].wins += 1;
            store.inner[first].votes += 1;
            store.inner[second].votes += 1;
            true
        },
        Verdict::Second => {
            store.inner[second].wins += 1;
            store.inner[first].votes += 1;
            store.inner[second].votes += 1;
            true
        },
        Verdict::Undecided => true,
        Verdict::RemoveFirst => {
            store.inner.remove(first);
            true
        },
        Verdict::RemoveSecond => {
            store.inner.remove(second);
            true
        },
        Verdict::Quit => false,
        Verdict::Unknown => true,
        Verdict::Missing => true,
    }
}


/// Why a session came to its end.
#[derive(Clone, Copy, Debug)]
pub enum Ending {
    /// All rounds that were asked for have been held.
    RoundsDone,
    /// The strategy found no pair to show.
    NoPair,
    /// The voter asked to stop.
    Quit,
}

/// Where a voting session stands. In every phase the store is there to be
/// kept; in `Terminal` nothing else is left to do.
#[derive(Clone, Copy, Debug)]
pub enum Phase {
    /// The next pair is to be picked; `rounds_left` rounds may still be held.
    Selecting { rounds_left: u32 },
    /// The entries at `first` and `second` are shown and a verdict is
    /// awaited; after it `rounds_left` rounds may still be held.
    AwaitingVerdict { rounds_left: u32, first: usize, second: usize },
    /// The session is over.
    Terminal { ending: Ending },
}

impl Phase {
    /// A phase that awaits a verdict names two different entries of the run.
    pub open spec fn fits(self, run: Seq<Tally>) -> bool {
        self matches Phase::AwaitingVerdict { first, second, .. } ==> first < run.len() && second
            < run.len() && first != second
    }

    /// The phase in which a session of `rounds` rounds begins.
    pub fn begin(rounds: u32) -> (phase: Phase)
        ensures
            phase == (Phase::Selecting { rounds_left: rounds }),
    {
        Phase::Selecting { rounds_left: rounds }
    }
}

/// The phase that follows the picking of a pair: with no round left the
/// session is over, with no pair found it is over too, and else the pair is
/// shown and one round is used up.
pub open spec fn after_choice(rounds_left: u32, pair: Option<(usize, usize)>) -> Phase {
    if rounds_left == 0 {
        Phase::Terminal { ending: Ending::RoundsDone }
    } else {
        match pair {
            Some((first, second)) => Phase::AwaitingVerdict {
                rounds_left: (rounds_left - 1) as u32,
                first,
                second,
            },
            None => Phase::Terminal { ending: Ending::NoPair },
        }
    }
}

/// The phase that follows a verdict. The session is over where the voter
/// quits, and else the next pair is picked.
pub open spec fn after_verdict(rounds_left: u32, verdict: Verdict) -> Phase {
    if verdict is Quit {
        Phase::Terminal { ending: Ending::Quit }
    } else {
        Phase::Selecting { rounds_left }
    }
}

/// The phase that follows the picking of a pair.
pub fn choice_made(rounds_left: u32, pair: Option<(usize, usize)>) -> (next: Phase)
    ensures
        next == after_choice(rounds_left, pair),
{
    if rounds_left == 0 {
        Phase::Terminal { ending: Ending::RoundsDone }
    } else {
        match pair {
            Some((first, second)) => Phase::AwaitingVerdict {
                rounds_left: rounds_left - 1,
                first,
                second,
            },
            None => Phase::Terminal { ending: Ending::NoPair },
        }
    }
}

/// Picks the pair of the next round with the strategy, unless no round is
/// left, in which case the strategy is not asked and the store stays as it
/// is. The pair that is shown is the one that the strategy owes: for `OneMin`
/// its first entry is among the least voted, for `Equal` and `Nearest` it is
/// the first agreeing or nearest pair of the shuffled store, for `MinEqual`
/// one or the other. The session ends without a pair only in a store without
/// two entries, or for `Equal` in a store where no percentages agree.
pub fn select_round(strategy: &VoteStrategy, store: &mut RelVec, rounds_left: u32) -> (next: Phase)
    ensures
        final(store)@.to_multiset() == old(store)@.to_multiset(),
        rounds_left == 0 ==> final(store).inner@ == old(store).inner@,
        old(store)@.len() < 2 ==> final(store).inner@ == old(store).inner@,
        *strategy is Random || *strategy is OneMin ==> final(store).inner@ == old(store).inner@,
        next.fits(final(store)@),
        exists|pair: Option<(usize, usize)>| next == after_choice(rounds_left, pair),
        rounds_left == 0 <==> next == (Phase::Terminal { ending: Ending::RoundsDone }),
        rounds_left > 0 && old(store)@.len() < 2 ==> next == (Phase::Terminal {
            ending: Ending::NoPair,
        }),
        rounds_left > 0 && old(store)@.len() >= 2 && !(*strategy is Equal) ==> next
            is AwaitingVerdict,
        rounds_left > 0 && *strategy is Equal ==> (next == (Phase::Terminal {
            ending: Ending::NoPair,
        })) == none_agree(old(store)@),
        next == (Phase::Terminal { ending: Ending::NoPair }) && *strategy is Equal ==> none_agree(
            final(store)@,
        ),
        next matches Phase::AwaitingVerdict { rounds_left: left, first, second } ==> {
            &&& left == rounds_left - 1
            &&& *strategy is OneMin ==> least_voted(old(store)@, first as int)
            &&& *strategy is Equal ==> first_agreeing(final(store)@, first as int, second as int)
            &&& *strategy is Nearest ==> first_nearest(final(store)@, first as int, second as int)
            &&& *strategy is MinEqual ==> first_agreeing(final(store)@, first as int, second as int)
                || least_voted(final(store)@, first as int)
        },
{
    if rounds_left == 0 {
        return choice_made(rounds_left, None);
    }
    let pair: Option<(usize, usize)> = strategy.choose_function(store);
    proof {
        old(store)@.to_multiset_ensures();
        store@.to_multiset_ensures();
    }
    choice_made(rounds_left, pair)
}

/// Applies the awaited verdict to the store and says what comes next.
pub fn apply_round(
    store: &mut RelVec,
    first: usize,
    second: usize,
    rounds_left: u32,
    verdict: Verdict,
) -> (next: Phase)
    requires
        (Phase::AwaitingVerdict { rounds_left, first, second }).fits(old(store)@),
        has_room(old(store)@, first as int, second as int, verdict),
    ensures
        final(store)@ == applied(old(store)@, first as int, second as int, verdict),
        next == after_verdict(rounds_left, verdict),
{
    let goes_on: bool = apply_verdict(store, first, second, verdict);
    if goes_on {
        Phase::Selecting { rounds_left }
    } else {
        Phase::Terminal { ending: Ending::Quit }
    }
}


/// Whether a verdict on the entries at `first` and `second` can be applied:
/// the positions name two different entries of the store, and the counters
/// that the verdict raises are below their limit.
pub fn can_apply(store: &RelVec, first: usize, second: usize, verdict: Verdict) -> (ok: bool)
    ensures
        ok == (first < store@.len() && second < store@.len() && first != second && has_room(
            store@,
            first as int,
            second as int,
            verdict,
        )),
{
    let len: usize = store.inner.len();
    if first >= len || second >= len || first == second {
        return false;
    }
    let a: &RelEntry = &store.inner[first];
    let b: &RelEntry = &store.inner[second];
    match verdict {
        Verdict::First => a.votes < u32::MAX && b.votes < u32::MAX && a.wins < u32::MAX,
        Verdict::Second => a.votes < u32::MAX && b.votes < u32::MAX && b.wins < u32::MAX,
        _ => true,
    }
}

} // verus!
