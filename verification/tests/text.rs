use relaty::error::Error;
use relaty::rate::{agree, gap_between, is_nearer, votes_between};
use relaty::rel_vec::RelEntry;
use relaty::text::{decimal_text, push_decimal};

fn entry(wins: u32, votes: u32) -> RelEntry {
    RelEntry::new("e".to_string(), wins, votes)
}

fn percentage(e: &RelEntry) -> f64 {
    f64::from(e.wins) * 100.0 / f64::from(e.votes)
}

#[test]
fn decimal_text_writes_numbers() {
    assert_eq!(decimal_text(0), "0");
    assert_eq!(decimal_text(7), "7");
    assert_eq!(decimal_text(10), "10");
    assert_eq!(decimal_text(909), "909");
    assert_eq!(decimal_text(4294967295), "4294967295");
    for n in [1u32, 9, 11, 99, 100, 12345, 1000000, 2147483648] {
        assert_eq!(decimal_text(n), n.to_string());
    }
}

#[test]
fn push_decimal_appends_digits() {
    let mut out = vec![0x23];

    push_decimal(&mut out, 120);

    assert_eq!(out, vec![0x23, 0x31, 0x32, 0x30]);
}

#[test]
fn error_messages() {
    assert_eq!(Error::IoError("gone".to_string()).to_string(), "IOError: gone");
    assert_eq!(Error::Regex("bad".to_string()).to_string(), "RegEx Error: bad");
    assert_eq!(Error::Parse("no digits".to_string()).to_string(), "Parse Error: no digits");
    assert_eq!(Error::ArgError.to_string(), "argument is no UTF-8 string");
    assert_eq!(
        Error::Serde.to_string(),
        "Serialization Error: the data is no entry sequence"
    );
    assert_eq!(Error::InvalidFileError.to_string(), "not a valid file");
}

#[test]
fn gap_and_votes_between() {
    assert_eq!(gap_between(&entry(1, 2), &entry(1, 4)), 2);
    assert_eq!(gap_between(&entry(1, 4), &entry(1, 2)), 2);
    assert_eq!(gap_between(&entry(3, 6), &entry(1, 2)), 0);
    assert_eq!(gap_between(&entry(4294967295, 0), &entry(0, 4294967295)), 18446744065119617025);
    assert_eq!(votes_between(&entry(1, 2), &entry(1, 4)), 8);
    assert_eq!(votes_between(&entry(1, 0), &entry(1, 4)), 0);
    assert_eq!(votes_between(&entry(0, 4294967295), &entry(0, 4294967295)), 18446744065119617025);
}

#[test]
fn agree_wants_votes_and_equal_rates() {
    assert!(agree(&entry(1, 2), &entry(2, 4)));
    assert!(agree(&entry(0, 1), &entry(0, 9)));
    assert!(agree(&entry(4294967295, 4294967295), &entry(1, 1)));
    assert!(!agree(&entry(1, 2), &entry(1, 3)));
    assert!(!agree(&entry(0, 0), &entry(0, 0)));
    assert!(!agree(&entry(0, 0), &entry(1, 2)));
    assert!(!agree(&entry(1, 0), &entry(1, 0)));
    assert!(agree(&entry(1, 4294967295), &entry(1, 4294967294)));
    assert!(!agree(&entry(1, 1000000), &entry(1, 1000001)));
    assert!(!agree(&entry(2147483648, 4294967295), &entry(2147483647, 4294967294)));
}

#[test]
fn agree_goes_with_the_percentages_on_everyday_tallies() {
    for votes_a in 1..30u32 {
        for wins_a in 0..=votes_a {
            for votes_b in 1..30u32 {
                for wins_b in 0..=votes_b {
                    let (a, b) = (entry(wins_a, votes_a), entry(wins_b, votes_b));
                    let near = (percentage(&b) - percentage(&a)).abs() < f64::EPSILON;
                    assert_eq!(agree(&a, &b), near);
                }
            }
        }
    }
}

#[test]
fn is_nearer_compares_distances() {
    let (a, b, c, d) = (entry(10, 100), entry(13, 100), entry(50, 100), entry(47, 100));

    assert!(!is_nearer(&a, &b, &c, &d));
    assert!(!is_nearer(&c, &d, &a, &b));
    assert!(is_nearer(&a, &b, &a, &c));
    assert!(!is_nearer(&a, &c, &a, &b));
    assert!(is_nearer(&a, &a, &a, &b));
    assert!(is_nearer(&a, &c, &entry(0, 0), &b));
    assert!(!is_nearer(&entry(0, 0), &b, &a, &c));
    assert!(!is_nearer(&entry(0, 0), &b, &entry(0, 0), &c));
    assert!(is_nearer(
        &entry(4294967295, 4294967295),
        &entry(4294967294, 4294967295),
        &entry(4294967295, 1),
        &entry(0, 1)
    ));
}

#[test]
fn is_nearer_goes_with_the_percentages_on_everyday_tallies() {
    let pool: Vec<RelEntry> = (1..8u32)
        .flat_map(|votes| (0..=votes).map(move |wins| entry(wins, votes)))
        .collect();

    for a in pool.iter().step_by(3) {
        for b in pool.iter().step_by(2) {
            for c in pool.iter().step_by(5) {
                for d in pool.iter() {
                    let ab = a.wins as i64 * b.votes as i64 - b.wins as i64 * a.votes as i64;
                    let cd = c.wins as i64 * d.votes as i64 - d.wins as i64 * c.votes as i64;
                    let exact = ab.abs() * (c.votes as i64 * d.votes as i64)
                        < cd.abs() * (a.votes as i64 * b.votes as i64);
                    assert_eq!(is_nearer(a, b, c, d), exact);
                    let by_float = (percentage(b) - percentage(a)).abs()
                        < (percentage(d) - percentage(c)).abs();
                    if ab.abs() * (c.votes as i64 * d.votes as i64)
                        != cd.abs() * (a.votes as i64 * b.votes as i64)
                    {
                        assert_eq!(is_nearer(a, b, c, d), by_float);
                    }
                }
            }
        }
    }
}

#[test]
fn agree_is_exact_where_doubles_round_together() {
    let (a, b) = (entry(200000000, 400000001), entry(200000001, 400000003));

    assert!(percentage(&a) == percentage(&b));
    assert!(!agree(&a, &b));
    assert!(agree(&entry(1000000000, 2000000001), &entry(1000000001, 2000000003)));
}
