use lib::fs::{MemFs, Utf16Path};
use lib::log::{
    data_path, decode_flag, flag_path, format_line, push_i64, redact_phone, resolve, DATA_LABEL,
    PRIVATE_LABEL,
};
use lib::{applog_to, LOG_MAX};

fn text(p: Utf16Path) -> String {
    char::decode_utf16(p.as_units().iter().copied()).map(|c| c.unwrap()).collect()
}

#[test]
fn a_flag_file_reads_as_a_switch() {
    assert_eq!(decode_flag(b""), Some(true), "an empty file is on");
    assert_eq!(decode_flag(b"1"), Some(true));
    assert_eq!(decode_flag(b"1\n"), Some(true));
    assert_eq!(decode_flag(b"0"), Some(false));
    assert_eq!(decode_flag(b"0\r\n"), Some(false));
    assert_eq!(decode_flag(b"no"), Some(false));
    assert_eq!(decode_flag(b"false"), Some(false));
    assert_eq!(decode_flag(b"yes"), Some(true));
    assert_eq!(decode_flag(&[0xff]), Some(true));
}

#[test]
fn the_flag_sits_next_to_the_log() {
    assert_eq!(text(data_path("connd").unwrap()), "C:\\Data\\_logs\\connd.txt");
    assert_eq!(text(flag_path("connd").unwrap()), "C:\\Data\\_logs\\connd.on");
}

#[test]
fn the_data_path_is_the_convention() {
    assert_eq!(text(data_path("myapp").unwrap()), "C:\\Data\\_logs\\myapp.txt");
}

#[test]
fn a_phone_number_keeps_only_its_ends() {
    let got = redact_phone("5511987654321");
    assert_eq!(got, "551********21");
    assert!(!got.contains("98765"), "the middle survived");
}

#[test]
fn short_numbers_are_not_widened_or_panicked_on() {
    assert_eq!(redact_phone(""), "");
    assert_eq!(redact_phone("12"), "12");
    assert_eq!(redact_phone("1234"), "1234");
}

#[test]
fn numbers_render_including_negatives() {
    let mut s = String::new();
    push_i64(&mut s, -4180);
    assert_eq!(s, "-4180");
    let mut s = String::new();
    push_i64(&mut s, 0);
    assert_eq!(s, "0");
}

#[test]
fn a_line_is_stamped_padded_and_ended() {
    assert_eq!(format_line(42, "[net] up"), "    42  [net] up\n");
    assert_eq!(format_line(1234567, "x"), "1234567  x\n");
    let long = "é".repeat(600);
    let line = format_line(0, &long);
    assert!(line.ends_with(" …\n"));
    assert!(line.len() <= 6 + 2 + 1024 + " …\n".len());
}

#[test]
fn writes_to_the_data_convention_and_appends() {
    let mut fs = MemFs::new();
    applog_to(&mut fs, "myapp", "first").unwrap();
    applog_to(&mut fs, "myapp", "second\n").unwrap();
    let got = fs.contents("C:\\Data\\_logs\\myapp.txt").expect("the path is the contract");
    assert_eq!(core::str::from_utf8(got).unwrap(), "first\nsecond\n");
}

#[test]
fn starts_over_once_past_the_cap() {
    let mut fs = MemFs::new();
    let long = "x".repeat(1024);
    for _ in 0..70 {
        applog_to(&mut fs, "myapp", &long).unwrap();
    }
    let got = fs.contents("C:\\Data\\_logs\\myapp.txt").unwrap();
    assert!((got.len() as u64) < LOG_MAX, "still {} bytes", got.len());
    assert!(!got.is_empty(), "the line that tripped the cap must still be there");
}

#[test]
fn the_log_settles_in_the_public_directory_and_keeps_what_was_there() {
    let mut fs = MemFs::new();
    let (p, label) = resolve(&mut fs, "demo").unwrap();
    assert_eq!(label, DATA_LABEL);
    assert_eq!(text(p), "C:\\Data\\_logs\\demo.txt");
    assert_eq!(fs.contents("C:\\Data\\_logs\\demo.txt"), Some(&b""[..]), "probed, and created empty");

    // A second launch finds the previous log and does not truncate it.
    let p = data_path("demo").unwrap();
    lib::fs::write_atomic(&mut fs, &p, b"earlier").unwrap();
    let (_, label) = resolve(&mut fs, "demo").unwrap();
    assert_eq!(label, DATA_LABEL);
    assert_eq!(fs.contents("C:\\Data\\_logs\\demo.txt"), Some(&b"earlier"[..]));
}

#[test]
fn a_name_too_long_for_every_public_rung_falls_back_to_the_private_directory() {
    let mut fs = MemFs::new();
    let long = "n".repeat(300);
    let (p, label) = resolve(&mut fs, &long).unwrap();
    assert_eq!(label, PRIVATE_LABEL);
    assert_eq!(text(p), "C:\\private\\E1234569\\log.txt");
}
