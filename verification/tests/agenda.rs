use lib::agenda::{
    decode, encode, next_due, read, take_due, Reminder, ENTRY_HEADER, FILE_HEADER,
    MAX_ENTRIES, MAX_TEXT,
};
use lib::fs::MemFs;

fn three() -> Vec<Reminder> {
    vec![
        Reminder::new(1_000, 1, "Dentista às 14:00"),
        Reminder::new(2_000, 2, "Reunião"),
        Reminder::new(3_000, 3, "Jantar"),
    ]
}

#[test]
fn a_queue_survives_the_round_trip_exactly() {
    let entries = three();
    assert_eq!(decode(&encode(&entries)).unwrap(), entries);
}

#[test]
fn an_empty_queue_is_a_legal_file_and_not_a_missing_one() {
    let bytes = encode(&[]);
    assert_eq!(decode(&bytes), Some(vec![]));
    assert!(bytes.len() >= FILE_HEADER);
}

#[test]
fn a_file_that_is_not_ours_is_refused_rather_than_parsed() {
    assert_eq!(decode(b""), None);
    assert_eq!(decode(b"not a queue at all"), None);
    let mut future = encode(&three());
    future[4] = 99;
    assert_eq!(decode(&future), None);
}

#[test]
fn a_truncated_file_answers_none_rather_than_half_a_queue() {
    let full = encode(&three());
    for cut in [FILE_HEADER + 1, FILE_HEADER + ENTRY_HEADER, full.len() - 1] {
        assert_eq!(decode(&full[..cut]), None, "accepted a file cut at {cut}");
    }
}

#[test]
fn a_count_larger_than_the_file_can_hold_is_refused() {
    let mut bad = encode(&three());
    bad[6] = MAX_ENTRIES as u8;
    bad[7] = 0;
    assert_eq!(decode(&bad), None);
}

#[test]
fn the_queue_is_capped_and_the_extra_entries_are_dropped_not_wrapped() {
    let many: Vec<Reminder> =
        (0..MAX_ENTRIES + 10).map(|i| Reminder::new(i as i64, i as u32, "x")).collect();
    let got = decode(&encode(&many)).unwrap();
    assert_eq!(got.len(), MAX_ENTRIES);
    assert_eq!(got[0].id, 0);
    assert_eq!(got[MAX_ENTRIES - 1].id, MAX_ENTRIES as u32 - 1);
}

#[test]
fn a_long_title_is_cut_on_a_character_boundary() {
    let long = "ç".repeat(MAX_TEXT);
    let cut = decode(&encode(&[Reminder::new(0, 1, &long)])).unwrap();
    assert!(cut[0].text.len() <= MAX_TEXT);
    assert!(cut[0].text.chars().all(|c| c == 'ç'), "a character was split in half");
}

#[test]
fn writing_and_reading_through_a_filesystem_gives_the_queue_back() {
    let mut fs = MemFs::new();
    lib::agenda::write(&mut fs, &three()).unwrap();
    assert_eq!(read(&mut fs), three());
}

#[test]
fn reading_a_queue_that_was_never_written_is_empty_rather_than_an_error() {
    let mut fs = MemFs::new();
    assert!(read(&mut fs).is_empty());
    assert_eq!(next_due(&mut fs), None);
    assert!(take_due(&mut fs, i64::MAX).is_empty());
}

#[test]
fn only_what_is_due_is_taken_and_the_rest_stays() {
    let mut fs = MemFs::new();
    lib::agenda::write(&mut fs, &three()).unwrap();
    let fired = take_due(&mut fs, 2_000);
    assert_eq!(fired.len(), 2);
    assert_eq!(fired[0].id, 1);
    assert_eq!(fired[1].id, 2);
    let left = read(&mut fs);
    assert_eq!(left.len(), 1);
    assert_eq!(left[0].id, 3);
}

#[test]
fn an_entry_that_fired_does_not_fire_again() {
    let mut fs = MemFs::new();
    lib::agenda::write(&mut fs, &three()).unwrap();
    assert_eq!(take_due(&mut fs, 5_000).len(), 3);
    assert!(take_due(&mut fs, 5_000).is_empty());
    assert!(read(&mut fs).is_empty());
}

#[test]
fn nothing_due_leaves_the_file_alone() {
    let mut fs = MemFs::new();
    lib::agenda::write(&mut fs, &three()).unwrap();
    assert!(take_due(&mut fs, 999).is_empty());
    assert_eq!(read(&mut fs), three());
}

#[test]
fn the_next_due_is_the_soonest_whatever_order_it_was_written_in() {
    let mut fs = MemFs::new();
    lib::agenda::write(
        &mut fs,
        &[Reminder::new(3_000, 3, "c"), Reminder::new(1_000, 1, "a"), Reminder::new(2_000, 2, "b")],
    )
    .unwrap();
    assert_eq!(next_due(&mut fs), Some(1_000));
}

#[test]
fn a_reminder_in_the_past_is_due_now_rather_than_lost() {
    let mut fs = MemFs::new();
    lib::agenda::write(&mut fs, &[Reminder::new(-1, 7, "ontem")]).unwrap();
    assert_eq!(take_due(&mut fs, 0).len(), 1);
}

#[test]
fn the_queue_path_is_the_shared_file() {
    let p = lib::agenda::path().unwrap();
    let want: Vec<u16> = lib::agenda::AGENDA_FILE.encode_utf16().collect();
    assert_eq!(p.as_units(), &want[..]);
}

#[test]
fn a_short_queue_encodes_to_the_documented_bytes() {
    let bytes = encode(&[Reminder::new(258, 0x0403_0201, "ab")]);
    assert_eq!(
        bytes,
        vec![
            b'C', b'A', b'L', b'A', 1, 0, 1, 0, 2, 1, 0, 0, 0, 0, 0, 0, 1, 2, 3, 4, 2, 0, b'a', b'b'
        ]
    );
}
