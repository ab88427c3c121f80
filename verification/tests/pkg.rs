use lib::fs::{read, write_atomic, MemFs};
use lib::pkg::{describe, path_of, stamp_as, stamped_in, uid3_from, Stamp, Version, BLOB_LEN};

#[test]
fn a_version_parses_from_both_spellings_and_refuses_a_truncated_one() {
    assert_eq!(Version::parse("0.2.0"), Some(Version::new(0, 2, 0)));
    assert_eq!(Version::parse("0,2,0"), Some(Version::new(0, 2, 0)));
    assert_eq!(Version::parse("0.2"), None);
    assert_eq!(Version::parse("x.y.z"), None);
    assert_eq!(Version::parse("v0.2.0"), Some(Version::new(0, 2, 0)));
    assert_eq!(Version::parse(" V1.98.0 "), Some(Version::new(1, 98, 0)));
    assert_eq!(Version::parse("version-1.0.0"), None, "a prefix is `v`, not any word");
}

#[test]
fn a_stamp_round_trips() {
    let s = Stamp { uid3: 0xE0AA_0000, version: Version::new(0, 2, 0), at_s: 1_700_000_000 };
    assert_eq!(Stamp::decode(&s.encode()), Some(s));
}

#[test]
fn anything_that_is_not_a_stamp_is_no_evidence_rather_than_a_guess() {
    assert_eq!(Stamp::decode(&[]), None);
    assert_eq!(Stamp::decode(&[0u8; BLOB_LEN]), None, "no magic");
    let mut short = Stamp { uid3: 1, version: Version::new(1, 0, 0), at_s: 0 }.encode();
    short.truncate(BLOB_LEN - 1);
    assert_eq!(Stamp::decode(&short), None);
}

#[test]
fn writing_then_reading_gives_the_version_back() {
    let mut fs_ = MemFs::new();
    stamp_as(&mut fs_, 0xE0AA_0000, Version::new(0, 2, 0), 42).expect("write");
    let got = stamped_in(&mut fs_, 0xE0AA_0000).expect("read");
    assert_eq!(got.version, Version::new(0, 2, 0));
    assert_eq!(got.at_s, 42);
}

#[test]
fn a_stamp_under_someone_elses_name_is_not_read_as_theirs() {
    let mut fs_ = MemFs::new();
    stamp_as(&mut fs_, 0xE0AA_0000, Version::new(0, 2, 0), 42).expect("write");
    let path = path_of(0xE0AA_0000).unwrap();
    let bytes = read(&mut fs_, &path).unwrap().unwrap();
    let other = path_of(0xE0AA_0020).unwrap();
    write_atomic(&mut fs_, &other, &bytes).unwrap();
    assert_eq!(stamped_in(&mut fs_, 0xE0AA_0020), None);
}

#[test]
fn an_app_that_never_ran_has_no_stamp() {
    let mut fs_ = MemFs::new();
    assert_eq!(stamped_in(&mut fs_, 0xE0AA_0000), None);
    assert_eq!(describe(None), "unknown");
}

#[test]
fn a_stamp_is_described_by_its_version_and_lives_under_its_uid() {
    let s = Stamp { uid3: 0xE0AA_0000, version: Version::new(1, 98, 7), at_s: 0 };
    assert_eq!(describe(Some(s)), "1.98.7");
    let p = path_of(0xE0AA_00ff).unwrap();
    let text: String = char::decode_utf16(p.as_units().iter().copied()).map(|c| c.unwrap()).collect();
    assert_eq!(text, "C:\\Data\\bootd\\ver\\E0AA00FF");
}

#[test]
fn version_fields_are_trimmed_signed_and_bounded() {
    assert_eq!(Version::parse("1. 2 ,+3"), Some(Version::new(1, 2, 3)));
    assert_eq!(Version::parse("1.2.65536"), None);
    assert_eq!(Version::parse("1.2.65535"), Some(Version::new(1, 2, 65535)));
    assert_eq!(Version::parse("1.2.3.4"), None);
    assert_eq!(Version::parse("1..3"), None);
    assert_eq!(Version::parse("1.2.-3"), None);
    assert!(Version::new(1, 2, 3) < Version::new(1, 10, 0));
}

#[test]
fn a_declared_uid3_is_read_as_hex_after_its_prefix() {
    assert_eq!(uid3_from("0xE0AA0001"), Some(0xE0AA_0001));
    assert_eq!(uid3_from("0X1f"), Some(0x1F));
    assert_eq!(uid3_from("  0x1f \n"), Some(0x1F), "white space around it is allowed");
    assert_eq!(uid3_from("0x+1f"), Some(0x1F), "the radix parse takes a plus sign");
    assert_eq!(uid3_from("0xFFFFFFFF"), Some(u32::MAX));
}

#[test]
fn a_declared_uid3_without_its_prefix_or_digits_is_none() {
    assert_eq!(uid3_from("E0AA0001"), None, "the prefix is required");
    assert_eq!(uid3_from("0x"), None);
    assert_eq!(uid3_from("0x+"), None);
    assert_eq!(uid3_from("0x-1"), None);
    assert_eq!(uid3_from("0xg1"), None);
    assert_eq!(uid3_from("0x1 2"), None);
    assert_eq!(uid3_from("0x100000000"), None, "too large for a UID");
    assert_eq!(uid3_from(""), None);
}
