use lib::blob::{put_str, Reader};

#[test]
fn a_string_round_trips() {
    let mut out = Vec::new();
    put_str(&mut out, "https://example.com/a?b=c");
    let mut r = Reader::new(&out);
    assert_eq!(r.str(), Some("https://example.com/a?b=c"));
    assert!(r.at_end());
}

#[test]
fn an_empty_string_is_a_record_not_a_gap() {
    let mut out = Vec::new();
    put_str(&mut out, "");
    put_str(&mut out, "after");
    let mut r = Reader::new(&out);
    assert_eq!(r.str(), Some(""));
    assert_eq!(r.str(), Some("after"), "the empty one did not swallow the next");
}

#[test]
fn a_truncated_field_is_none_not_a_panic() {
    let mut out = Vec::new();
    put_str(&mut out, "hello");
    out.truncate(out.len() - 2);
    assert_eq!(Reader::new(&out).str(), None);
}

#[test]
fn a_length_running_off_the_end_is_none() {
    let bytes = [0xff, 0xff, b'a', b'b'];
    assert_eq!(Reader::new(&bytes).str(), None);
}

#[test]
fn non_utf8_is_a_damaged_record() {
    let mut out = Vec::new();
    out.extend_from_slice(&2u16.to_le_bytes());
    out.extend_from_slice(&[0xff, 0xfe]);
    assert_eq!(Reader::new(&out).str(), None);
}

#[test]
fn a_clamped_string_is_still_utf8() {
    let s: String = "é".repeat(40_000);
    let mut out = Vec::new();
    put_str(&mut out, &s);
    let back = Reader::new(&out).str();
    assert!(back.is_some(), "clamped on a boundary, so it still parses");
    assert!(back.unwrap().len() <= u16::MAX as usize);
}

#[test]
fn integers_round_trip_in_order() {
    let mut out = Vec::new();
    out.extend_from_slice(&7u16.to_le_bytes());
    out.extend_from_slice(&9u32.to_le_bytes());
    out.extend_from_slice(&(-3i32).to_le_bytes());
    let mut r = Reader::new(&out);
    assert_eq!(r.u16(), Some(7));
    assert_eq!(r.u32(), Some(9));
    assert_eq!(r.i32(), Some(-3));
    assert!(r.at_end());
}

#[test]
fn a_field_is_its_length_then_its_bytes() {
    let mut out = Vec::new();
    put_str(&mut out, "ab");
    assert_eq!(out, vec![2, 0, b'a', b'b']);
}

#[test]
fn take_past_the_end_is_none_and_does_not_move() {
    let bytes = [1u8, 2, 3];
    let mut r = Reader::new(&bytes);
    assert_eq!(r.take(4), None);
    assert_eq!(r.remaining(), 3);
    assert_eq!(r.take(2), Some(&[1u8, 2][..]));
    assert_eq!(r.u8(), Some(3));
    assert_eq!(r.u8(), None);
    assert!(r.at_end());
}

#[test]
fn string_owns_what_str_borrows() {
    let mut out = Vec::new();
    put_str(&mut out, "Reunião");
    assert_eq!(Reader::new(&out).string(), Some(String::from("Reunião")));
}
