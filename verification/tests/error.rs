use lib::Error;

#[test]
fn success_and_counts_are_not_errors() {
    assert!(Error::check(0).is_ok());
    assert!(Error::check(1).is_ok(), "a returned count must not read as failure");
    assert!(Error::check(4096).is_ok());
}

#[test]
fn the_codes_that_carry_a_decision_are_named() {
    assert_eq!(Error::from_code(-1), Error::NotFound);
    assert_eq!(Error::from_code(-4), Error::NoMemory);
    assert_eq!(Error::from_code(-11), Error::AlreadyExists);
    assert_eq!(Error::from_code(-14), Error::InUse);
    assert_eq!(Error::from_code(-21), Error::AccessDenied);
}

#[test]
fn unknown_codes_keep_their_number() {
    assert_eq!(Error::from_code(-9999), Error::Platform(-9999));
}

#[test]
fn missing_covers_both_ways_a_file_can_be_absent() {
    assert!(Error::NotFound.is_missing());
    assert!(Error::PathNotFound.is_missing());
    assert!(!Error::AccessDenied.is_missing(), "denied is not the same as absent");
    assert!(!Error::Platform(-7).is_missing());
}

#[test]
fn a_code_survives_the_round_trip_through_an_error() {
    for c in [-1, -4, -6, -9, -11, -12, -14, -18, -21, -25, -9999] {
        assert_eq!(Error::from_code(c).code(), c);
    }
    assert_eq!(Error::check(-12), Err(Error::PathNotFound));
}

#[test]
fn a_yes_or_no_reply_is_one_for_yes_and_negative_for_an_error() {
    assert_eq!(Error::flag(1), Ok(true));
    assert_eq!(Error::flag(0), Ok(false));
    assert_eq!(Error::flag(2), Ok(false));
    assert_eq!(Error::flag(-1), Err(Error::NotFound));
    assert_eq!(Error::flag(-5), Err(Error::Platform(-5)));
}

#[test]
fn an_error_says_what_it_is_in_words_and_an_unnamed_one_keeps_its_number() {
    assert_eq!(Error::NotFound.to_text(), "not found");
    assert_eq!(Error::NotReady.to_text(), "shim not ready");
    assert_eq!(Error::UnexpectedEof.to_text(), "unexpected end of file");
    assert_eq!(Error::Platform(-7548).to_text(), "symbian error -7548");
    assert_eq!(Error::Platform(3).to_text(), "symbian error 3");
}
