use relaty::error::Error;
use relaty::rate_vec::{RateEntry, RateVec};

#[test]
fn rate_entry_new() {
    assert_eq!(
        RateEntry {
            name: "abc".to_owned(),
            wins: 125132,
            votes: 12551
        },
        RateEntry::new("abc".to_owned(), 125132, 12551)
    )
}

#[test]
fn rate_entry_partial_eq() {
    let a = RateEntry {
        name: "abc".to_owned(),
        wins: 125132,
        votes: 1263,
    };
    let b = RateEntry {
        name: "abc".to_owned(),
        wins: 1251,
        votes: 1361621,
    };

    assert_eq!(a, b);
}

#[test]
fn rate_entry_to_string() {
    let a = RateEntry {
        name: "abc".to_owned(),
        wins: 12,
        votes: 36,
    };
    let percentage = format!("{}", f64::from(a.wins) * 100.0 / f64::from(a.votes));

    assert_eq!(a.to_string(&percentage), "abc - 12/36 - 33.333333333333336%");
}

#[test]
fn rate_vec_new() {
    let a = RateVec {
        inner: Vec::new(),
        rng: rand::thread_rng(),
    };
    let b = RateVec::new();

    assert_eq!(a, b);
    assert!(b.inner.is_empty());
}

#[test]
fn rate_vec_create() {
    let a = RateVec {
        inner: Vec::from([
            RateEntry::new("abc".to_string(), 1251, 16162),
            RateEntry::new("adsga".to_string(), 1251, 1236),
        ]),
        rng: rand::thread_rng(),
    };
    let b = RateVec::create(Vec::from(["abc".to_string(), "adsga".to_string()]));

    assert_eq!(a, b);
    assert_eq!(b.inner[0].wins, 0);
    assert_eq!(b.inner[0].votes, 0);
    assert_eq!(b.inner[1].wins, 0);
    assert_eq!(b.inner[1].votes, 0);
}

#[test]
fn rate_vec_from() {
    let a = RateVec::create(["a".to_string(), "b".to_string(), "c".to_string()].to_vec());
    let b = RateVec::from(b"a\nb\nc\n").unwrap();

    assert_eq!(a, b);
}

#[test]
fn rate_vec_load() {
    let bytes = [
        0x1, 0x0, 0x0, 0x0, 0x0, 0x0, 0x0, 0x0, 0x3, 0x0, 0x0, 0x0, 0x0, 0x0, 0x0, 0x0, 0x61,
        0x62, 0x63, 0x0, 0x0, 0x0, 0x0, 0x0, 0x0, 0x0, 0x0,
    ];

    let a = RateVec::create(["abc".to_string()].to_vec());
    let b = RateVec::load(&bytes).unwrap();

    assert_eq!(a, b);
    assert_eq!(b.inner[0].wins, 0);
    assert_eq!(b.inner[0].votes, 0);
}

#[test]
fn rate_vec_save() {
    let rv = RateVec::create(["abc".to_string()].to_vec());

    let a: [u8; 27] = [
        0x1, 0x0, 0x0, 0x0, 0x0, 0x0, 0x0, 0x0, 0x3, 0x0, 0x0, 0x0, 0x0, 0x0, 0x0, 0x0, 0x61,
        0x62, 0x63, 0x0, 0x0, 0x0, 0x0, 0x0, 0x0, 0x0, 0x0,
    ];
    let b = rv.save();

    assert_eq!(&a, b.as_slice());
}

#[test]
fn rate_vec_min_votes() {
    let mut rv = RateVec {
        inner: [
            RateEntry {
                name: "abc".to_string(),
                wins: 12,
                votes: 123,
            },
            RateEntry {
                name: "bcd".to_string(),
                wins: 125,
                votes: 123,
            },
            RateEntry {
                name: "cde".to_string(),
                wins: 12,
                votes: 12632,
            },
        ]
        .to_vec(),
        rng: rand::thread_rng(),
    };

    let found = rv.min_votes();
    let entries: Vec<&RateEntry> = found.iter().map(|i| &rv.inner[*i]).collect();

    assert_eq!(found, [0, 1].to_vec());
    assert_eq!(
        entries,
        Vec::from([
            &RateEntry {
                name: "abc".to_string(),
                wins: 12,
                votes: 123,
            },
            &RateEntry {
                name: "bcd".to_string(),
                wins: 125,
                votes: 123
            }
        ])
    );
}

#[test]
fn rate_vec_random_pair() {
    let mut rv = RateVec {
        inner: [
            RateEntry {
                name: "abc".to_string(),
                wins: 0,
                votes: 0,
            },
            RateEntry {
                name: "def".to_string(),
                wins: 0,
                votes: 0,
            },
        ]
        .to_vec(),
        rng: rand::thread_rng(),
    };

    let (a, b) = rv.random_pair().unwrap();
    let (c, d) = (
        &mut RateEntry {
            name: "abc".to_string(),
            wins: 0,
            votes: 0,
        },
        &mut RateEntry {
            name: "def".to_string(),
            wins: 0,
            votes: 0,
        },
    );

    assert!((&a, &b) == (&c, &d) || (&a, &b) == (&d, &c));
}

#[test]
fn rate_vec_random_pair_hands_out_the_entries_themselves() {
    for _ in 0..50 {
        let mut rv = RateVec::create(
            ["a", "b", "c", "d"].iter().map(|n| n.to_string()).collect(),
        );

        let (a, b) = rv.random_pair().unwrap();
        assert!(a.name != b.name);
        let (first, second) = (a.name.clone(), b.name.clone());
        a.wins += 1;
        a.votes += 1;
        b.votes += 1;

        for entry in rv.inner.iter() {
            let expected = if entry.name == first {
                (1, 1)
            } else if entry.name == second {
                (0, 1)
            } else {
                (0, 0)
            };
            assert_eq!((entry.wins, entry.votes), expected);
        }
        assert_eq!(
            rv.inner.iter().map(|e| e.name.as_str()).collect::<Vec<&str>>(),
            vec!["a", "b", "c", "d"]
        );
    }
}

#[test]
fn rate_vec_random_pair_needs_two() {
    let mut none = RateVec::new();
    let mut one = RateVec::create(["a".to_string()].to_vec());

    assert!(none.random_pair().is_none());
    assert!(one.random_pair().is_none());
    assert_eq!(one.inner.len(), 1);
}

#[test]
fn rate_vec_round_trip_keeps_tallies() {
    let rv = RateVec {
        inner: [
            RateEntry::new("one".to_string(), 3, 9),
            RateEntry::new("zw\u{f6}lf".to_string(), 4294967295, 1),
        ]
        .to_vec(),
        rng: rand::thread_rng(),
    };

    let back = RateVec::load(&rv.save()).unwrap();

    assert_eq!(back.inner.len(), 2);
    assert_eq!(back.inner[0].name, "one");
    assert_eq!(back.inner[0].wins, 3);
    assert_eq!(back.inner[0].votes, 9);
    assert_eq!(back.inner[1].name, "zw\u{f6}lf");
    assert_eq!(back.inner[1].wins, 4294967295);
    assert_eq!(back.inner[1].votes, 1);
}

#[test]
fn rate_vec_load_rejects_what_is_no_sequence() {
    assert!(matches!(RateVec::load(&[]), Err(Error::Serde)));
    assert!(matches!(RateVec::load(&[1, 0, 0, 0, 0, 0, 0, 0]), Err(Error::Serde)));
}

#[test]
fn rate_vec_from_rejects_what_is_no_text() {
    assert!(matches!(RateVec::from(&[0x61, 0x0a, 0xff]), Err(Error::IoError(_))));
}

#[test]
fn entry_struct_new() {
    let a = relaty::entry_struct::RateEntry::new("abc".to_owned(), 1, 2);
    let b = a.clone();

    assert_eq!(format!("{:?}", a), format!("{:?}", b));
    assert!(format!("{:?}", a).contains("abc"));
}
