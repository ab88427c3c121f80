use lib::fs::{copy, private_path, read, write_atomic, Utf16Path, COPY_CHUNK, MAX_PATH};
use lib::{Error, File, Fs, MemFs, OpenMode};

fn utf8(units: &[u16]) -> String {
    char::decode_utf16(units.iter().copied()).map(|c| c.unwrap()).collect()
}

fn units(s: &str) -> Vec<u16> {
    s.encode_utf16().collect()
}

#[test]
fn join_inserts_one_separator_and_only_one() {
    let dir: Vec<u16> = units("C:\\private\\E1234569\\");
    let p = Utf16Path::join(&dir, "session.bin").unwrap();
    assert_eq!(utf8(p.as_units()), "C:\\private\\E1234569\\session.bin");

    let dir2: Vec<u16> = units("C:\\data");
    let p2 = Utf16Path::join(&dir2, "x.txt").unwrap();
    assert_eq!(utf8(p2.as_units()), "C:\\data\\x.txt");
}

#[test]
fn paths_refuse_to_overflow_tfilename() {
    let long = "a".repeat(MAX_PATH + 1);
    assert_eq!(Utf16Path::new(&long).unwrap_err(), Error::Overflow);

    let dir: Vec<u16> = units("C:\\");
    let name = "b".repeat(MAX_PATH);
    assert_eq!(Utf16Path::join(&dir, &name).unwrap_err(), Error::Overflow);
}

#[test]
fn non_ascii_paths_survive_the_round_trip() {
    let p = Utf16Path::new("C:\\мой файл ção.txt").unwrap();
    assert_eq!(utf8(p.as_units()), "C:\\мой файл ção.txt");
}

#[test]
fn read_fully_reassembles_a_file_delivered_in_pieces() {
    let mut fs = MemFs::new();
    fs.read_chunk = 4;
    let path = Utf16Path::new("C:\\a.bin").unwrap();
    let data: Vec<u8> = (0..37u8).collect();
    {
        let mut f = File::open(&mut fs, &path, OpenMode::Replace).unwrap();
        f.write_all(&data).unwrap();
        f.close();
    }
    let got = read(&mut fs, &path).unwrap().unwrap();
    assert_eq!(got, data, "a chunked read must still produce the whole file");
}

#[test]
fn write_all_finishes_when_writes_are_partial() {
    let mut fs = MemFs::new();
    fs.write_chunk = 3;
    let path = Utf16Path::new("C:\\b.bin").unwrap();
    let data: Vec<u8> = (0..50u8).collect();
    {
        let mut f = File::open(&mut fs, &path, OpenMode::Replace).unwrap();
        f.write_all(&data).unwrap();
        f.close();
    }
    assert_eq!(fs.contents("C:\\b.bin").unwrap(), &data[..]);
}

#[test]
fn reading_a_missing_file_is_none_not_an_error() {
    let mut fs = MemFs::new();
    let path = Utf16Path::new("C:\\nope.bin").unwrap();
    assert!(read(&mut fs, &path).unwrap().is_none());
}

#[test]
fn copy_moves_a_file_larger_than_one_chunk_byte_for_byte() {
    let mut fs_ = MemFs::new();
    let src = Utf16Path::new("C:\\a.sis").unwrap();
    let dst = Utf16Path::new("C:\\b.sis").unwrap();
    let data: Vec<u8> = (0..COPY_CHUNK * 2 + 37).map(|i| (i % 251) as u8).collect();
    write_atomic(&mut fs_, &src, &data).unwrap();

    assert_eq!(copy(&mut fs_, &src, &dst).unwrap(), data.len() as u64);
    assert_eq!(read(&mut fs_, &dst).unwrap().unwrap(), data);
    assert_eq!(read(&mut fs_, &src).unwrap().unwrap(), data, "the source is untouched");
}

#[test]
fn copying_a_file_that_is_not_there_fails_and_leaves_the_target_alone() {
    let mut fs_ = MemFs::new();
    let dst = Utf16Path::new("C:\\b.sis").unwrap();
    write_atomic(&mut fs_, &dst, b"the known-good package").unwrap();
    assert!(copy(&mut fs_, &Utf16Path::new("C:\\gone.sis").unwrap(), &dst).is_err());
    assert_eq!(
        read(&mut fs_, &dst).unwrap().unwrap(),
        b"the known-good package",
        "a failed copy must never be the reason a rollback has nothing to install"
    );
}

#[test]
fn write_atomic_leaves_no_temp_file_behind() {
    let mut fs = MemFs::new();
    let path = Utf16Path::new("C:\\s.bin").unwrap();
    write_atomic(&mut fs, &path, b"hello").unwrap();
    assert_eq!(fs.contents("C:\\s.bin").unwrap(), b"hello");
    assert!(fs.contents("C:\\s.bin.tmp").is_none(), "temp file was not renamed away");
}

#[test]
fn write_atomic_replaces_existing_contents_entirely() {
    let mut fs = MemFs::new();
    let path = Utf16Path::new("C:\\s.bin").unwrap();
    write_atomic(&mut fs, &path, b"a longer original value").unwrap();
    write_atomic(&mut fs, &path, b"short").unwrap();
    assert_eq!(fs.contents("C:\\s.bin").unwrap(), b"short");
}

#[test]
fn the_target_is_untouched_until_the_rename() {
    let mut fs = MemFs::new();
    let path = Utf16Path::new("C:\\s.bin").unwrap();
    write_atomic(&mut fs, &path, b"original").unwrap();

    let tmp = path.with_suffix(".tmp").unwrap();
    {
        let mut f = File::open(&mut fs, &tmp, OpenMode::Replace).unwrap();
        f.write_all(b"interrupted").unwrap();
        f.close();
    }
    assert_eq!(
        fs.contents("C:\\s.bin").unwrap(),
        b"original",
        "the real file must not change before the rename lands"
    );
}

#[test]
fn append_adds_rather_than_truncating() {
    let mut fs = MemFs::new();
    let path = Utf16Path::new("C:\\log.txt").unwrap();
    {
        let mut f = File::open(&mut fs, &path, OpenMode::Replace).unwrap();
        f.write_all(b"one\n").unwrap();
        f.close();
    }
    {
        let mut f = File::open(&mut fs, &path, OpenMode::Append).unwrap();
        f.write_all(b"two\n").unwrap();
        f.close();
    }
    assert_eq!(fs.contents("C:\\log.txt").unwrap(), b"one\ntwo\n");
}

#[test]
fn closing_a_file_frees_its_handle() {
    let mut fs = MemFs::new();
    let path = Utf16Path::new("C:\\h.bin").unwrap();
    for _ in 0..20 {
        let f = File::open(&mut fs, &path, OpenMode::Replace).unwrap();
        f.close();
    }
    assert!(fs.open.iter().all(|s| s.is_none()), "handles were not released");
}

#[test]
fn private_path_is_usable_as_a_directory() {
    let mut fs = MemFs::new();
    let dir = private_path(&mut fs).unwrap();
    let file = Utf16Path::join(dir.as_units(), "session.bin").unwrap();
    assert_eq!(utf8(file.as_units()), "C:\\private\\E1234569\\session.bin");
}

#[test]
fn a_round_trip_through_the_private_directory_works() {
    let mut fs = MemFs::new();
    let dir = private_path(&mut fs).unwrap();
    let path = Utf16Path::join(dir.as_units(), "auth.key").unwrap();
    let key = vec![0xABu8; 256];
    write_atomic(&mut fs, &path, &key).unwrap();
    assert_eq!(read(&mut fs, &path).unwrap().unwrap(), key);
}

fn names(buf: &[u16], count: usize) -> Vec<String> {
    let mut out = Vec::new();
    let mut i = 0;
    for _ in 0..count {
        let start = i;
        while i < buf.len() && buf[i] != 0 {
            i += 1;
        }
        out.push(utf8(&buf[start..i]));
        i += 1;
    }
    out
}

#[test]
fn list_entries_shows_files_and_subdirs_with_a_trailing_slash() {
    let mut fs = MemFs::new();
    fs.files.push((units("Z:\\readme.txt"), b"hi".to_vec()));
    fs.files.push((units("Z:\\boot.cfg"), b"x".to_vec()));
    fs.files.push((units("Z:\\system\\apps\\a.txt"), b"y".to_vec()));

    let dir = units("Z:\\");
    let mut buf = vec![0u16; 256];
    let count = fs.list_entries(&dir, &mut buf).unwrap();
    let got = names(&buf, count);

    assert!(got.contains(&String::from("readme.txt")), "{got:?}");
    assert!(got.contains(&String::from("boot.cfg")), "{got:?}");
    assert!(got.contains(&String::from("system\\")), "{got:?}");
    assert_eq!(count, 3, "{got:?}");
}

#[test]
fn a_path_at_the_limit_is_accepted_and_one_past_is_not() {
    assert_eq!(Utf16Path::new(&"a".repeat(MAX_PATH)).unwrap().len(), MAX_PATH);
    let p = Utf16Path::new(&"a".repeat(MAX_PATH - 3)).unwrap();
    assert!(p.with_suffix(".tmp").is_err());
    assert_eq!(p.with_suffix(".t").unwrap().len(), MAX_PATH - 1);
}

#[test]
fn list_dir_stops_at_the_first_name_that_does_not_fit() {
    let mut fs = MemFs::new();
    fs.files.push((units("Z:\\ab"), b"1".to_vec()));
    fs.files.push((units("Z:\\sub\\x"), b"2".to_vec()));
    fs.files.push((units("Z:\\cdef"), b"3".to_vec()));
    fs.files.push((units("Z:\\g"), b"4".to_vec()));

    let dir = units("Z:\\");
    let mut buf = vec![7u16; 6];
    // "ab\0" fits, "cdef\0" does not, and "g" after it is not tried.
    assert_eq!(fs.list_dir(&dir, &mut buf).unwrap(), 1);
    assert_eq!(buf, vec![0x61, 0x62, 0, 7, 7, 7]);

    let mut wide = vec![0u16; 64];
    let n = fs.list_dir(&dir, &mut wide).unwrap();
    assert_eq!(names(&wide, n), vec!["ab", "cdef", "g"]);
}

#[test]
fn the_fake_reports_what_is_missing_and_what_is_not_open() {
    let mut fs = MemFs::new();
    let p = units("C:\\a.txt");
    let q = units("C:\\b.txt");
    assert_eq!(fs.delete(&p), Err(Error::NotFound));
    assert_eq!(fs.rename(&p, &q), Err(Error::NotFound));
    assert!(fs.stat(&p).is_err());
    let h = fs.open(&p, OpenMode::Replace).unwrap();
    assert_eq!(fs.write(h, b"hello").unwrap(), 5);
    assert_eq!(fs.size(h).unwrap(), 5);
    assert_eq!(fs.stat(&p).unwrap().size, 5);
    fs.close(h);
    assert!(fs.size(h).is_err());
    assert!(fs.seek(h, 0).is_err());
    assert!(fs.mkdir(&units("C:\\d\\")).is_ok());
    assert_eq!(fs.mkdirs.len(), 1);
    assert!(fs.rename(&p, &q).is_ok());
    assert_eq!(fs.contents("C:\\b.txt"), Some(&b"hello"[..]));
    let mut small = vec![0u16; 3];
    assert_eq!(fs.private_path(&mut small), Err(Error::Overflow));
}

#[test]
fn a_write_past_the_end_fills_the_gap_with_zeros() {
    let mut fs = MemFs::new();
    let p = units("C:\\gap.bin");
    let h = fs.open(&p, OpenMode::Replace).unwrap();
    fs.seek(h, 3).unwrap();
    assert_eq!(fs.write(h, b"x").unwrap(), 1);
    fs.close(h);
    assert_eq!(fs.contents("C:\\gap.bin"), Some(&[0u8, 0, 0, b'x'][..]));
}
