use relaty::commands::{
    add_items, confirmed, listing, listing_filter, lock_entries, lock_flagged, matching, positions,
    remove_entries, remove_flagged, reset_entries, reset_flagged,
};
use relaty::error::Error;
use relaty::pattern::Filter;
use relaty::rel_vec::{RelEntry, RelVec};

fn store(entries: &[(&str, u32, u32)]) -> RelVec {
    RelVec {
        inner: entries
            .iter()
            .map(|(name, wins, votes)| RelEntry::new(name.to_string(), *wins, *votes))
            .collect(),
        rng: rand::thread_rng(),
    }
}

fn tallies(rv: &RelVec) -> Vec<(String, u32, u32, bool)> {
    rv.inner
        .iter()
        .map(|e| (e.name.clone(), e.wins, e.votes, e.locked))
        .collect()
}

fn sample() -> RelVec {
    store(&[("apple", 1, 2), ("banana", 3, 4), ("avocado", 5, 6), ("cherry", 0, 0)])
}

#[test]
fn filter_matches_anywhere_in_the_name() {
    let rv = store(&[("banana", 0, 0), ("ana", 0, 0), ("apple", 0, 0), ("", 0, 0), ("ba", 0, 0)]);

    assert_eq!(
        matching(&rv, &Filter::new("an+a").unwrap()),
        vec![true, true, false, false, false]
    );
    assert_eq!(
        matching(&rv, &Filter::new("^$").unwrap()),
        vec![false, false, false, true, false]
    );
    assert_eq!(
        matching(&rv, &Filter::new("^a").unwrap()),
        vec![false, true, true, false, false]
    );
}

#[test]
fn a_pattern_that_is_no_expression_is_a_pattern_failure() {
    match Filter::new("a(") {
        Err(Error::Regex(message)) => assert!(!message.is_empty()),
        _ => panic!("an open group is no expression"),
    }
}

#[test]
fn matching_flags_the_names_that_match() {
    let rv = sample();

    assert_eq!(matching(&rv, &Filter::new("^a").unwrap()), vec![true, false, true, false]);
    assert_eq!(matching(&rv, &Filter::new("rr").unwrap()), vec![false, false, false, true]);
    assert_eq!(matching(&rv, &Filter::new("x").unwrap()), vec![false; 4]);
    assert_eq!(matching(&RelVec::new(), &Filter::new("x").unwrap()), Vec::<bool>::new());
}

#[test]
fn positions_lists_the_set_flags() {
    assert_eq!(positions(&vec![true, false, true, true]), vec![0, 2, 3]);
    assert_eq!(positions(&vec![false, false]), Vec::<usize>::new());
    assert_eq!(positions(&vec![]), Vec::<usize>::new());
}

#[test]
fn confirmed_wants_a_leading_y() {
    assert!(confirmed("y\n"));
    assert!(confirmed("Y"));
    assert!(confirmed("yes"));
    assert!(!confirmed("n\n"));
    assert!(!confirmed("\n"));
    assert!(!confirmed(""));
    assert!(!confirmed(" y"));
    assert!(!confirmed("ny"));
}

#[test]
fn remove_flagged_keeps_the_rest_in_order() {
    let mut rv = sample();

    remove_flagged(&mut rv, &vec![true, false, false, true]);

    assert_eq!(
        tallies(&rv),
        vec![("banana".to_string(), 3, 4, false), ("avocado".to_string(), 5, 6, false)]
    );

    remove_flagged(&mut rv, &vec![false, false]);
    assert_eq!(rv.inner.len(), 2);
    remove_flagged(&mut rv, &vec![true, true]);
    assert!(rv.inner.is_empty());
}

#[test]
fn reset_flagged_clears_the_flagged_tallies() {
    let mut rv = sample();
    rv.inner[0].locked = true;

    reset_flagged(&mut rv, &vec![true, false, true, false]);

    assert_eq!(
        tallies(&rv),
        vec![
            ("apple".to_string(), 0, 0, true),
            ("banana".to_string(), 3, 4, false),
            ("avocado".to_string(), 0, 0, false),
            ("cherry".to_string(), 0, 0, false)
        ]
    );
}

#[test]
fn lock_flagged_sets_and_opens_locks() {
    let mut rv = sample();

    lock_flagged(&mut rv, &vec![true, true, false, false], true);
    lock_flagged(&mut rv, &vec![false, true, true, false], false);

    assert_eq!(
        tallies(&rv),
        vec![
            ("apple".to_string(), 1, 2, true),
            ("banana".to_string(), 3, 4, false),
            ("avocado".to_string(), 5, 6, false),
            ("cherry".to_string(), 0, 0, false)
        ]
    );
}

#[test]
fn add_items_appends_fresh_entries() {
    let mut rv = store(&[("a", 1, 2)]);

    add_items(&mut rv, vec!["b".to_string(), "a".to_string()]);
    add_items(&mut rv, vec![]);

    assert_eq!(
        tallies(&rv),
        vec![
            ("a".to_string(), 1, 2, false),
            ("b".to_string(), 0, 0, false),
            ("a".to_string(), 0, 0, false)
        ]
    );
}

#[test]
fn remove_entries_asks_for_a_yes() {
    let filter = Filter::new("^a").unwrap();
    let mut rv = sample();

    assert!(!remove_entries(&mut rv, &filter, "n\n"));
    assert_eq!(rv.inner.len(), 4);
    assert!(!remove_entries(&mut rv, &filter, ""));
    assert_eq!(rv.inner.len(), 4);
    assert!(remove_entries(&mut rv, &filter, "Y\n"));
    assert_eq!(
        tallies(&rv),
        vec![("banana".to_string(), 3, 4, false), ("cherry".to_string(), 0, 0, false)]
    );
}

#[test]
fn reset_entries_asks_for_a_yes() {
    let filter = Filter::new("an").unwrap();
    let mut rv = sample();

    assert!(!reset_entries(&mut rv, &filter, "no"));
    assert_eq!(tallies(&rv), tallies(&sample()));
    assert!(reset_entries(&mut rv, &filter, "y"));
    assert_eq!(
        tallies(&rv),
        vec![
            ("apple".to_string(), 1, 2, false),
            ("banana".to_string(), 0, 0, false),
            ("avocado".to_string(), 5, 6, false),
            ("cherry".to_string(), 0, 0, false)
        ]
    );
}

#[test]
fn lock_entries_asks_for_a_yes() {
    let filter = Filter::new("e").unwrap();
    let mut rv = sample();

    assert!(!lock_entries(&mut rv, &filter, "", true));
    assert!(rv.inner.iter().all(|e| !e.locked));
    assert!(lock_entries(&mut rv, &filter, "yes", true));
    assert_eq!(
        rv.inner.iter().map(|e| e.locked).collect::<Vec<bool>>(),
        vec![true, false, false, true]
    );
    assert!(lock_entries(&mut rv, &Filter::new("^c").unwrap(), "y", false));
    assert_eq!(
        rv.inner.iter().map(|e| e.locked).collect::<Vec<bool>>(),
        vec![true, false, false, false]
    );
    assert_eq!(rv.inner[0].wins, 1);
}

#[test]
fn listing_ranks_and_numbers_the_lines() {
    let mut rv = sample();

    let lines = listing(&mut rv, &Filter::new("^a").unwrap());

    assert_eq!(
        rv.inner.iter().map(|e| e.name.as_str()).collect::<Vec<&str>>(),
        vec!["avocado", "banana", "apple", "cherry"]
    );
    assert_eq!(lines, vec![0, 2]);
}

#[test]
fn listing_without_a_filter_shows_every_entry() {
    let mut rv = sample();
    let filter = listing_filter(None).unwrap();

    assert_eq!(listing(&mut rv, &filter), vec![0, 1, 2, 3]);
    assert_eq!(matching(&store(&[("", 0, 0)]), &filter), vec![true]);
}

#[test]
fn listing_filter_takes_the_pattern_given() {
    let filter = listing_filter(Some("rr")).unwrap();

    assert_eq!(matching(&sample(), &filter), vec![false, false, false, true]);
    assert!(matches!(listing_filter(Some("[")), Err(Error::Regex(_))));
}
