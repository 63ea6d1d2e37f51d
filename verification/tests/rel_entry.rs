use relaty::rel_vec::RelEntry;
use std::cmp::Ordering;

#[test]
fn rel_entry_new() {
    assert_eq!(
        RelEntry {
            name: "abc".to_owned(),
            wins: 125132,
            votes: 12551,
            locked: false
        },
        RelEntry::new("abc".to_owned(), 125132, 12551)
    );
}

#[test]
fn rel_entry_reset() {
    let a = RelEntry {
        name: "abc".to_owned(),
        wins: 0,
        votes: 0,
        locked: false,
    };
    let mut b = RelEntry {
        name: "abc".to_owned(),
        wins: 125132,
        votes: 12551,
        locked: false,
    };

    b.reset();

    assert_eq!(a, b);
    assert_eq!(b.wins, 0);
    assert_eq!(b.votes, 0);
}

fn value(fraction: (u64, u32)) -> f64 {
    fraction.0 as f64 / f64::from(fraction.1)
}

#[test]
fn rel_entry_percentage() {
    let mut e = RelEntry::new("abc".to_owned(), 0, 0);

    assert!(value(e.percentage()).is_nan());

    e.votes = 1;

    assert_eq!(value(e.percentage()), 0.0);

    e.wins = 1;

    assert_eq!(value(e.percentage()), 100.0);

    e.votes = 2;

    assert_eq!(value(e.percentage()), 50.0);

    e.wins = 125;
    e.votes = 312;

    assert_eq!(value(e.percentage()), 40.06410256410256);
}

#[test]
fn percentage_is_a_hundred_times_the_wins_over_the_votes() {
    assert_eq!(RelEntry::new("a".to_owned(), 0, 0).percentage(), (0, 0));
    assert_eq!(RelEntry::new("a".to_owned(), 125, 312).percentage(), (12500, 312));
    assert_eq!(
        RelEntry::new("a".to_owned(), 4294967295, 7).percentage(),
        (429496729500, 7)
    );
    for (wins, votes) in [(1u32, 3u32), (12, 36), (7, 0), (4294967295, 4294967294)] {
        let e = RelEntry::new("a".to_owned(), wins, votes);
        let by_float = f64::from(wins) * 100.0 / f64::from(votes);
        assert_eq!(value(e.percentage()).to_bits(), by_float.to_bits());
    }
}

#[test]
fn rel_entry_compare_percentage() {
    let mut a = RelEntry::new("abc".to_owned(), 0, 0);
    let mut b = RelEntry::new("abc".to_owned(), 0, 0);

    assert_eq!(a.compare_percentage(&b), Ordering::Equal);

    b.votes = 1;

    assert_eq!(a.compare_percentage(&b), Ordering::Equal);

    a.wins = 1;
    a.votes = 2;

    assert_eq!(a.compare_percentage(&b), Ordering::Greater);

    b.wins = 1;

    assert_eq!(a.compare_percentage(&b), Ordering::Less);

    b.votes = 2;

    assert_eq!(a.compare_percentage(&b), Ordering::Equal);
}

#[test]
fn rel_entry_partial_eq() {
    let a = RelEntry {
        name: "abc".to_owned(),
        wins: 125132,
        votes: 1263,
        locked: false,
    };
    let b = RelEntry {
        name: "abc".to_owned(),
        wins: 1251,
        votes: 1361621,
        locked: false,
    };

    assert_eq!(a, b);
}

#[test]
fn rel_entry_from_string() {
    let a = RelEntry {
        name: "abc".to_owned(),
        wins: 0,
        votes: 0,
        locked: false,
    };
    let b = "abc".to_owned().into();

    assert_eq!(a, b);
}

#[test]
fn rel_entry_to_string() {
    let a = RelEntry {
        name: "abc".to_owned(),
        wins: 12,
        votes: 36,
        locked: false,
    };
    let percentage = format!("{}", f64::from(a.wins) * 100.0 / f64::from(a.votes));

    assert_eq!(a.to_string(&percentage), "abc - 12/36 - 33.333333333333336%");
}

#[test]
fn rel_entry_to_string_frames_any_percentage() {
    let a = RelEntry::new("x y".to_owned(), 0, 4294967295);

    assert_eq!(a.to_string("NaN"), "x y - 0/4294967295 - NaN%");
    assert_eq!(a.to_string(""), "x y - 0/4294967295 - %");
}

#[test]
fn rel_entry_new_is_unlocked() {
    let a = RelEntry::new("abc".to_owned(), 3, 5);

    assert_eq!(a.name, "abc");
    assert_eq!(a.wins, 3);
    assert_eq!(a.votes, 5);
    assert!(!a.locked);
}

#[test]
fn rel_entry_reset_keeps_name_and_lock() {
    let mut a = RelEntry {
        name: "abc".to_owned(),
        wins: 7,
        votes: 9,
        locked: true,
    };

    a.reset();

    assert_eq!(a.name, "abc");
    assert_eq!(a.wins, 0);
    assert_eq!(a.votes, 0);
    assert!(a.locked);
}

#[test]
fn compare_percentage_without_votes_is_equal_whatever_the_wins() {
    let a = RelEntry::new("a".to_owned(), 5, 0);
    let b = RelEntry::new("b".to_owned(), 900, 0);

    assert_eq!(a.compare_percentage(&b), Ordering::Equal);
    assert_eq!(b.compare_percentage(&a), Ordering::Equal);
}

#[test]
fn compare_percentage_half_beats_quarter() {
    let a = RelEntry::new("a".to_owned(), 1, 2);
    let b = RelEntry::new("b".to_owned(), 1, 4);

    assert_eq!(a.compare_percentage(&b), Ordering::Greater);
    assert_eq!(b.compare_percentage(&a), Ordering::Less);
}

#[test]
fn compare_percentage_does_not_overflow() {
    let a = RelEntry::new("a".to_owned(), 4294967295, 4294967295);
    let b = RelEntry::new("b".to_owned(), 4294967294, 4294967295);

    assert_eq!(a.compare_percentage(&b), Ordering::Greater);
    assert_eq!(b.compare_percentage(&a), Ordering::Less);
    assert_eq!(a.compare_percentage(&a), Ordering::Equal);
}

#[test]
fn outranks_is_strict() {
    let a = RelEntry::new("a".to_owned(), 3, 4);
    let b = RelEntry::new("b".to_owned(), 6, 8);
    let c = RelEntry::new("c".to_owned(), 1, 1);

    assert!(!a.outranks(&b));
    assert!(!b.outranks(&a));
    assert!(c.outranks(&a));
    assert!(!a.outranks(&c));
}
