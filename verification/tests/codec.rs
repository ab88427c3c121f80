use lib::codec::reply_text;

#[test]
fn a_reply_is_decoded_as_far_as_it_reported_with_lone_surrogates_replaced() {
    // "a", a pair for U+1F600, a lone trailing surrogate, "b", then units past the count.
    let buf: [u16; 7] = [0x61, 0xD83D, 0xDE00, 0xDC00, 0x62, 0x63, 0x64];
    assert_eq!(reply_text(&buf, 5), "a\u{1F600}\u{FFFD}b");
    assert_eq!(reply_text(&buf, -3), "");
    assert_eq!(reply_text(&buf, 99), "a\u{1F600}\u{FFFD}bcd");
    // A leading surrogate cut off from its partner by the count.
    assert_eq!(reply_text(&buf, 2), "a\u{FFFD}");
}
