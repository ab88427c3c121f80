use lib::daily::{decode, encode, read, upcoming, Entry, MAGIC, MAX_ENTRIES, MAX_TITLE};
use lib::fs::MemFs;

fn entry(start: i64, title: &str) -> Entry {
    Entry::new(start, start + 3600, false, title)
}

#[test]
fn a_digest_round_trips() {
    let entries = vec![entry(1_000, "Reunião de equipe"), Entry::new(86_400, 172_800, true, "Feriado")];
    let got = decode(&encode(&entries)).expect("our own bytes");
    assert_eq!(got, entries);
    assert!(got[1].all_day, "the flag survives");
}

#[test]
fn the_two_files_have_different_magic() {
    assert_ne!(MAGIC, lib::agenda::MAGIC);
    assert!(decode(&lib::agenda::encode(&[])).is_none(), "a queue is not a digest");
}

#[test]
fn a_file_that_is_not_ours_is_no_entries_rather_than_an_error() {
    assert!(decode(b"").is_none());
    assert!(decode(b"CALDx").is_none(), "short header");
    let mut bytes = encode(&[entry(1, "x")]);
    bytes[4] = 9;
    assert!(decode(&bytes).is_none());
    let mut truncated = encode(&[entry(1, "hello")]);
    truncated.truncate(truncated.len() - 2);
    assert!(decode(&truncated).is_none(), "a title that runs off the end");
}

#[test]
fn the_caps_hold() {
    let many: Vec<Entry> = (0..MAX_ENTRIES as i64 + 10).map(|i| entry(i, "e")).collect();
    assert_eq!(decode(&encode(&many)).unwrap().len(), MAX_ENTRIES);

    let long = "á".repeat(MAX_TITLE);
    let got = decode(&encode(&[entry(1, &long)])).unwrap();
    assert!(got[0].title.len() <= MAX_TITLE);
    assert!(long.starts_with(&got[0].title), "cut, not mangled");
}

#[test]
fn what_is_ahead_includes_what_is_happening_now() {
    let mut fs = MemFs::new();
    let entries = vec![
        entry(1_000, "over"),
        entry(5_000, "running"),
        entry(20_000, "later"),
        entry(10_000, "sooner"),
    ];
    lib::daily::write(&mut fs, &entries).unwrap();

    let got = upcoming(&mut fs, 6_000, 3);

    assert_eq!(
        got.iter().map(|e| e.title.as_str()).collect::<Vec<_>>(),
        ["running", "sooner", "later"],
        "sorted by start, and the one under way is still on screen"
    );
    assert_eq!(upcoming(&mut fs, 6_000, 1).len(), 1, "the limit holds");
    assert!(upcoming(&mut fs, 100_000, 3).is_empty(), "a stale file shows nothing");
}

#[test]
fn no_file_is_no_entries() {
    let mut fs = MemFs::new();
    assert!(read(&mut fs).is_empty());
    assert!(upcoming(&mut fs, 0, 3).is_empty());
}

#[test]
fn equal_starts_keep_the_order_they_were_written_in() {
    let mut fs = MemFs::new();
    lib::daily::write(
        &mut fs,
        &[
            Entry::new(500, 900, false, "first"),
            Entry::new(100, 900, false, "early"),
            Entry::new(500, 900, false, "second"),
            Entry::new(500, 600, false, "shorter"),
        ],
    )
    .unwrap();
    let got = upcoming(&mut fs, 0, 10);
    assert_eq!(
        got.iter().map(|e| e.title.as_str()).collect::<Vec<_>>(),
        ["early", "shorter", "first", "second"]
    );
}

#[test]
fn an_entry_with_its_end_before_its_start_is_ahead_until_its_start() {
    let mut fs = MemFs::new();
    lib::daily::write(&mut fs, &[Entry::new(5_000, 10, true, "odd")]).unwrap();
    assert_eq!(upcoming(&mut fs, 4_999, 3).len(), 1);
    assert!(upcoming(&mut fs, 5_000, 3).is_empty());
}
