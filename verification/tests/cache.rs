use lib::cache::{get, get_preview, path, path_kind, put, put_preview, put_result, MAX_CACHED};
use lib::fs::MemFs;

fn name_of(units: &[u16]) -> String {
    char::decode_utf16(units.iter().copied()).map(|c| c.unwrap()).collect()
}

#[test]
fn a_stored_file_comes_back() {
    let mut fs = MemFs::new();
    assert_eq!(get(&mut fs, 42), None, "nothing cached yet");
    put(&mut fs, 42, &[1, 2, 3]);
    assert_eq!(get(&mut fs, 42).as_deref(), Some(&[1u8, 2, 3][..]));
}

#[test]
fn different_ids_do_not_share_a_file() {
    let mut fs = MemFs::new();
    put(&mut fs, 1, &[0xAA]);
    put(&mut fs, 2, &[0xBB]);
    assert_eq!(get(&mut fs, 1).as_deref(), Some(&[0xAAu8][..]));
    assert_eq!(get(&mut fs, 2).as_deref(), Some(&[0xBBu8][..]));
}

#[test]
fn a_negative_id_is_a_legal_file_name() {
    let mut fs = MemFs::new();
    put(&mut fs, -7, &[9]);
    assert_eq!(get(&mut fs, -7).as_deref(), Some(&[9u8][..]));

    let p = path(&mut fs, -7).unwrap();
    let name = name_of(p.as_units());
    assert!(!name.contains('-'), "the name must not start a filename with a dash: {name}");
    assert!(name.contains("mfffffffffffffff9"), "hex, unsigned: {name}");
}

#[test]
fn an_oversized_file_is_refused_rather_than_filling_the_cage() {
    let mut fs = MemFs::new();
    let big = vec![0u8; MAX_CACHED + 1];
    assert!(put_result(&mut fs, 5, &big).is_err());
    assert_eq!(get(&mut fs, 5), None, "and nothing was written");
}

#[test]
fn an_empty_write_is_not_a_cache_entry() {
    let mut fs = MemFs::new();
    assert!(put_result(&mut fs, 6, &[]).is_err());
    assert_eq!(get(&mut fs, 6), None);
}

#[test]
fn the_name_is_the_cage_then_prefix_hex_and_bin() {
    let mut fs = MemFs::new();
    let p = path_kind(&mut fs, 'p', 0x1234).unwrap();
    assert_eq!(name_of(p.as_units()), "C:\\private\\E1234569\\p0000000000001234.bin");
}

#[test]
fn a_preview_and_a_download_of_one_id_are_different_files() {
    let mut fs = MemFs::new();
    assert!(put_preview(&mut fs, 9, &[1]));
    put(&mut fs, 9, &[2, 2]);
    assert_eq!(get_preview(&mut fs, 9).as_deref(), Some(&[1u8][..]));
    assert_eq!(get(&mut fs, 9).as_deref(), Some(&[2u8, 2][..]));
}

#[test]
fn an_empty_preview_is_not_kept() {
    let mut fs = MemFs::new();
    assert!(!put_preview(&mut fs, 3, &[]));
    assert_eq!(get_preview(&mut fs, 3), None);
    assert_eq!(put_result(&mut fs, 3, &[]), Err(lib::Error::Overflow));
}
