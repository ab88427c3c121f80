use lib::fs::{write_atomic, Fs, MemFs, Utf16Path};
use lib::handlers::{load, Defaults, FILE, NATIVE_BROWSER, SCHEMES};

#[test]
fn a_setting_survives_the_round_trip() {
    let mut d = Defaults::new();
    d.set("http", Some(0x1000_8D39));
    d.set("tg", Some(0xE123_4569));
    assert_eq!(Defaults::decode(&d.encode()), d);
}

#[test]
fn setting_a_scheme_twice_replaces_rather_than_appends() {
    let mut d = Defaults::new();
    d.set("http", Some(1));
    d.set("http", Some(2));
    assert_eq!(d.get("http"), Some(2));
    assert_eq!(d.encode().len(), Defaults::decode(&d.encode()).encode().len());
}

#[test]
fn clearing_a_scheme_leaves_no_handler_rather_than_a_zero() {
    let mut d = Defaults::new();
    d.set("http", Some(7));
    d.set("http", None);
    assert_eq!(d.get("http"), None);
    assert!(d.is_empty());
}

#[test]
fn schemes_match_without_regard_to_case() {
    let mut d = Defaults::new();
    d.set("HTTP", Some(7));
    assert_eq!(d.get("http"), Some(7));
    assert_eq!(Defaults::decode(&d.encode()).get("http"), Some(7));
}

#[test]
fn a_truncated_file_loses_the_tail_and_not_the_reader() {
    let mut d = Defaults::new();
    d.set("http", Some(1));
    d.set("mailto", Some(2));
    let blob = d.encode();
    for cut in 1..blob.len() {
        let _ = Defaults::decode(&blob[..cut]);
    }
    assert_eq!(Defaults::decode(&blob), d);
}

#[test]
fn rubbish_decodes_to_nothing_instead_of_panicking() {
    assert!(Defaults::decode(&[]).is_empty());
    assert!(Defaults::decode(&[0]).is_empty(), "a zero-length scheme");
    assert!(Defaults::decode(&[200, 1, 2, 3]).is_empty(), "a length past the end");
    assert!(Defaults::decode(&[2, 0xff, 0xfe, 1, 2, 3, 4]).is_empty(), "not text");
}

#[test]
fn a_registry_that_was_never_written_reads_as_empty() {
    let mut f = MemFs::new();
    assert!(load(&mut f).is_empty());
}

#[test]
fn what_the_launcher_wrote_is_what_another_process_reads() {
    let mut f = MemFs::new();
    let mut d = Defaults::new();
    d.set("https", Some(0x2000_1111));
    let path = Utf16Path::new(FILE).unwrap();
    let _ = f.mkdir(&"C:\\Data\\launcher\\".encode_utf16().collect::<Vec<u16>>());
    write_atomic(&mut f, &path, &d.encode()).unwrap();
    assert_eq!(load(&mut f).get("https"), Some(0x2000_1111));
}

#[test]
fn a_record_is_length_scheme_and_uid() {
    let mut d = Defaults::new();
    d.set("Tg", Some(0x0403_0201));
    assert_eq!(d.encode(), vec![2, b't', b'g', 1, 2, 3, 4]);
}

#[test]
fn a_scheme_too_long_to_store_is_left_out_of_the_file() {
    let mut d = Defaults::new();
    d.set("averyveryverylongscheme", Some(1));
    d.set("http", Some(2));
    let back = Defaults::decode(&d.encode());
    assert_eq!(back.get("averyveryverylongscheme"), None);
    assert_eq!(back.get("http"), Some(2));
}

#[test]
fn the_known_schemes_and_the_native_browser() {
    assert_eq!(SCHEMES, ["http", "https", "mailto", "tg"]);
    assert_eq!(NATIVE_BROWSER, 0x1000_8D39);
}

#[test]
fn a_clone_is_the_same_registry() {
    let mut d = Defaults::new();
    d.set("mailto", Some(9));
    assert_eq!(d.clone(), d);
    assert!(Defaults::default().is_empty());
}
