use lib::fs::{read, write_atomic, Fs, MemFs, Utf16Path};
use lib::intent::{
    post_notice, take_notice, take_request, write_request, CATEGORY, LAUNCHER_UID, MAX_URL,
    NOTICE_FILE, NOTICE_KEY, OPEN_URL_KEY, REQUEST_FILE,
};

fn path(s: &str) -> Utf16Path {
    Utf16Path::new(s).unwrap()
}

#[test]
fn a_request_survives_the_trip_and_is_consumed_once() {
    let mut fs = MemFs::new();
    write_request(&mut fs, "https://exemplo.com/a?b=1").unwrap();
    assert_eq!(take_request(&mut fs).as_deref(), Some("https://exemplo.com/a?b=1"));
    assert_eq!(take_request(&mut fs), None);
}

#[test]
fn a_notice_travels_the_other_way_and_is_also_consumed_once() {
    let mut fs = MemFs::new();
    post_notice(&mut fs, "sem app para http").unwrap();
    assert_eq!(take_notice(&mut fs).as_deref(), Some("sem app para http"));
    assert_eq!(take_notice(&mut fs), None);
}

#[test]
fn a_notice_and_a_request_do_not_collide() {
    let mut fs = MemFs::new();
    write_request(&mut fs, "https://a.com").unwrap();
    post_notice(&mut fs, "um aviso").unwrap();
    assert_eq!(take_request(&mut fs).as_deref(), Some("https://a.com"));
    assert_eq!(take_notice(&mut fs).as_deref(), Some("um aviso"));
}

#[test]
fn nothing_pending_is_not_an_error() {
    let mut fs = MemFs::new();
    assert_eq!(take_request(&mut fs), None);
}

#[test]
fn the_directory_is_created_rather_than_assumed() {
    let mut fs = MemFs::new();
    write_request(&mut fs, "https://a.com").unwrap();
    assert!(read(&mut fs, &path(REQUEST_FILE)).unwrap().is_some());
}

#[test]
fn a_second_request_replaces_the_first() {
    let mut fs = MemFs::new();
    write_request(&mut fs, "https://um.com").unwrap();
    write_request(&mut fs, "https://dois.com").unwrap();
    assert_eq!(take_request(&mut fs).as_deref(), Some("https://dois.com"));
    assert_eq!(take_request(&mut fs), None);
}

#[test]
fn an_empty_or_absurd_url_is_refused_at_the_door() {
    let mut fs = MemFs::new();
    assert!(write_request(&mut fs, "").is_err());
    let huge = String::from_utf8(vec![b'a'; MAX_URL + 1]).unwrap();
    assert!(write_request(&mut fs, &huge).is_err());
    assert_eq!(take_request(&mut fs), None);
}

#[test]
fn a_url_at_the_limit_still_goes_through() {
    let mut fs = MemFs::new();
    let long = String::from_utf8(vec![b'a'; MAX_URL]).unwrap();
    assert!(write_request(&mut fs, &long).is_ok());
    assert_eq!(take_request(&mut fs).map(|s| s.len()), Some(MAX_URL));
}

#[test]
fn bytes_that_are_not_text_are_dropped_rather_than_mangled() {
    let mut fs = MemFs::new();
    let _ = fs.mkdir(&"C:\\Data\\launcher\\".encode_utf16().collect::<Vec<u16>>());
    write_atomic(&mut fs, &path(REQUEST_FILE), &[0xff, 0xfe, 0xfd]).unwrap();
    assert_eq!(take_request(&mut fs), None);
    assert!(read(&mut fs, &path(REQUEST_FILE)).unwrap().is_none());
}

#[test]
fn an_empty_notice_is_refused_and_leaves_nothing() {
    let mut fs = MemFs::new();
    assert_eq!(post_notice(&mut fs, ""), Err(lib::Error::Argument));
    assert!(read(&mut fs, &path(NOTICE_FILE)).unwrap().is_none());
}

#[test]
fn the_channel_constants() {
    assert_eq!(CATEGORY, 0xE0AA_0000);
    assert_eq!(LAUNCHER_UID, CATEGORY);
    assert_eq!((OPEN_URL_KEY, NOTICE_KEY), (101, 102));
    assert_eq!(lib::agenda::CATEGORY, CATEGORY);
}
