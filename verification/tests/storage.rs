use relaty::error::Error;
use relaty::rel_vec::RelEntry;
use relaty::storage::{append_bytes, create_data, load_data, read_entry, read_lines, save_data, write_entry};

fn entries(plain: &[(String, u32, u32)]) -> Vec<RelEntry> {
    plain
        .iter()
        .map(|(name, wins, votes)| RelEntry::new(name.clone(), *wins, *votes))
        .collect()
}

fn plain(entries: &[RelEntry]) -> Vec<(String, u32, u32)> {
    entries
        .iter()
        .map(|e| (e.name.clone(), e.wins, e.votes))
        .collect()
}

fn samples() -> Vec<Vec<(String, u32, u32)>> {
    vec![
        vec![],
        vec![("abc".to_string(), 0, 0)],
        vec![("".to_string(), 1, 2), ("x".to_string(), 4294967295, 0)],
        vec![
            ("na\u{ef}ve".to_string(), 258, 65536),
            ("\u{1F600}".to_string(), 16777216, 16909060),
            ("a longer name with spaces".to_string(), 7, 9),
        ],
    ]
}

#[test]
fn save_data_writes_what_bincode_writes() {
    for sample in samples() {
        let ours = save_data(&entries(&sample));
        let theirs = bincode::serialize(&sample).unwrap();

        assert_eq!(ours, theirs);
    }
}

#[test]
fn load_data_reads_what_bincode_writes() {
    for sample in samples() {
        let bytes = bincode::serialize(&sample).unwrap();

        let read = load_data(&bytes).unwrap();

        assert_eq!(plain(&read), sample);
        assert!(read.iter().all(|e| !e.locked));
    }
}

#[test]
fn load_data_fails_where_bincode_fails() {
    let good = bincode::serialize(&samples()[3]).unwrap();

    for cut in 0..good.len() {
        let theirs: Result<Vec<(String, u32, u32)>, _> = bincode::deserialize(&good[..cut]);
        assert!(theirs.is_err());
        assert!(matches!(load_data(&good[..cut]), Err(Error::Serde)));
    }
    for at in 0..good.len() {
        let mut bent = good.clone();
        bent[at] = bent[at].wrapping_add(0x80);
        let theirs: Result<Vec<(String, u32, u32)>, _> = bincode::deserialize(&bent);
        match load_data(&bent) {
            Ok(read) => assert_eq!(plain(&read), theirs.unwrap()),
            Err(error) => {
                assert!(matches!(error, Error::Serde));
                assert!(theirs.is_err());
            }
        }
    }
}

#[test]
fn save_data_exact_bytes() {
    let data = entries(&[("hi".to_string(), 258, 4278190080)]);

    assert_eq!(
        save_data(&data),
        vec![1, 0, 0, 0, 0, 0, 0, 0, 2, 0, 0, 0, 0, 0, 0, 0, 0x68, 0x69, 2, 1, 0, 0, 0, 0, 0, 0xff]
    );
}

#[test]
fn write_entry_appends_one_image() {
    let mut out = vec![9, 9];

    write_entry(&mut out, &RelEntry::new("\u{e9}".to_string(), 1, 2));

    assert_eq!(
        out,
        vec![9, 9, 2, 0, 0, 0, 0, 0, 0, 0, 0xc3, 0xa9, 1, 0, 0, 0, 2, 0, 0, 0]
    );
}

#[test]
fn append_bytes_appends() {
    let mut out = vec![1, 2];

    append_bytes(&mut out, &[3, 4, 5]);
    append_bytes(&mut out, &[]);

    assert_eq!(out, vec![1, 2, 3, 4, 5]);
}

#[test]
fn read_entry_reads_at_a_position() {
    let bytes = [7, 7, 7, 1, 0, 0, 0, 0, 0, 0, 0, 0x61, 5, 0, 0, 0, 6, 0, 0, 0, 8];

    let (entry, next) = read_entry(&bytes, 3).unwrap();

    assert_eq!((entry.name.as_str(), entry.wins, entry.votes, entry.locked), ("a", 5, 6, false));
    assert_eq!(next, 20);
    assert!(read_entry(&bytes, 4).is_none());
    assert!(read_entry(&bytes, 21).is_none());
    assert!(read_entry(&bytes[..19], 3).is_none());
}

#[test]
fn read_lines_splits_at_line_feeds() {
    assert_eq!(read_lines(b"a\nb\nc\n").unwrap(), vec!["a", "b", "c"]);
    assert_eq!(read_lines(b"one\r\ntwo").unwrap(), vec!["one", "two"]);
    assert_eq!(read_lines(b"\r\n\r\n").unwrap(), vec!["", ""]);
    assert_eq!(read_lines(b"").unwrap(), Vec::<String>::new());
    assert!(matches!(read_lines(&[0x80]), Err(Error::IoError(_))));
}

#[test]
fn create_data_makes_fresh_entries() {
    let data = create_data(vec!["a".to_string(), "b".to_string()]);

    assert_eq!(plain(&data), vec![("a".to_string(), 0, 0), ("b".to_string(), 0, 0)]);
    assert!(data.iter().all(|e| !e.locked));
}
