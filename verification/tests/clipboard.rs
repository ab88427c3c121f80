use lib::clipboard::{copy_units, pasted, MAX_UNITS};
use lib::Error;

#[test]
fn empty_text_is_refused_rather_than_clearing_the_clipboard() {
    assert_eq!(copy_units(""), Err(Error::Argument));
}

#[test]
fn a_copy_hands_over_utf16() {
    assert_eq!(copy_units("ação").unwrap(), vec![0x61, 0xe7, 0xe3, 0x6f]);
}

#[test]
fn a_paste_keeps_what_was_reported_and_no_more_than_the_buffer() {
    let buf: Vec<u16> = "hello".encode_utf16().collect();
    assert_eq!(pasted(&buf, 4), "hell");
    assert_eq!(pasted(&buf, 99), "hello");
    assert_eq!(pasted(&buf, -1), "");
    let lone = [0xD800u16, 0x41];
    assert_eq!(pasted(&lone, 2), "\u{FFFD}A");
    assert_eq!(MAX_UNITS, 4096);
}
