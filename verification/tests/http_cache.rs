use lib::fs::MemFs;
use lib::http::cache::{decode_ref, encode_into, load, put, remove, Ref, MAX_ENTRY};
use lib::http::{Flags, GZIP, GZIP_MAGIC};
use lib::Error;

const FLAGS: i32 = GZIP | GZIP_MAGIC;

/// A stand-in for the URL key the application derives with SHA-256: any function of the URL
/// alone that tells these test URLs apart will do here.
fn key(url: &str) -> i64 {
    let mut h: u64 = 0xcbf2_9ce4_8422_2325;
    for b in url.bytes() {
        h ^= b as u64;
        h = h.wrapping_mul(0x100_0000_01b3);
    }
    h as i64
}

fn r<'a>(url: &'a str, body: &'a [u8]) -> Ref<'a> {
    Ref { url, status: 200, flags: Flags(FLAGS), etag: "\"abc\"", last_modified: "", body }
}

fn encoded_len(e: &Ref<'_>) -> usize {
    4 + 2 + 4 + (2 + e.url.len()) + (2 + e.etag.len()) + (2 + e.last_modified.len()) + 4 + e.body.len()
}

#[test]
fn a_stored_response_comes_back_whole() {
    let mut fs = MemFs::new();
    let mut scratch = Vec::new();
    let e = r("https://example.com/", b"\x1f\x8b compressed bytes");
    put(&mut fs, &e, key(e.url), &mut scratch).unwrap();

    let mut buf = Vec::new();
    assert!(load(&mut fs, "https://example.com/", key("https://example.com/"), &mut buf));
    assert_eq!(decode_ref(&buf), Some(e));
}

#[test]
fn a_url_that_was_never_stored_is_a_miss() {
    let mut fs = MemFs::new();
    let mut buf = Vec::new();
    assert!(!load(&mut fs, "https://example.com/", key("https://example.com/"), &mut buf));
    assert!(buf.is_empty(), "a miss must not leave bytes behind to be decoded");
}

#[test]
fn the_flags_survive_the_round_trip() {
    let mut fs = MemFs::new();
    let mut scratch = Vec::new();
    put(&mut fs, &r("https://example.com/", b"xx"), key("https://example.com/"), &mut scratch).unwrap();
    let mut buf = Vec::new();
    assert!(load(&mut fs, "https://example.com/", key("https://example.com/"), &mut buf));
    assert!(decode_ref(&buf).unwrap().flags.needs_inflate());
}

#[test]
fn different_urls_do_not_share_an_entry() {
    let mut fs = MemFs::new();
    let mut scratch = Vec::new();
    for (u, b) in [("https://e.com/a", &b"AAA"[..]), ("https://e.com/b", b"BBB"), ("https://e.com/a?x=1", b"CCC")] {
        put(&mut fs, &r(u, b), key(u), &mut scratch).unwrap();
    }
    for (u, b) in [("https://e.com/a", &b"AAA"[..]), ("https://e.com/b", b"BBB"), ("https://e.com/a?x=1", b"CCC")] {
        let mut buf = Vec::new();
        assert!(load(&mut fs, u, key(u), &mut buf), "{u} should be stored");
        assert_eq!(decode_ref(&buf).unwrap().body, b, "wrong body for {u}");
    }
}

#[test]
fn a_damaged_blob_is_a_miss() {
    let mut scratch = Vec::new();
    encode_into(&r("https://example.com/", b"hello"), &mut scratch);
    assert!(decode_ref(&scratch).is_some());
    for cut in 0..scratch.len() {
        assert!(decode_ref(&scratch[..cut]).is_none(), "a {cut}-byte prefix decoded");
    }
    let mut wrong = scratch.clone();
    wrong[0] = b'X';
    assert!(decode_ref(&wrong).is_none(), "a foreign magic must not be read");
}

#[test]
fn an_empty_body_is_not_an_entry() {
    let mut fs = MemFs::new();
    let mut scratch = Vec::new();
    assert!(put(&mut fs, &r("https://example.com/", b""), key("https://example.com/"), &mut scratch).is_err());
    let mut buf = Vec::new();
    assert!(!load(&mut fs, "https://example.com/", key("https://example.com/"), &mut buf));
}

#[test]
fn an_oversized_response_is_refused() {
    let mut fs = MemFs::new();
    let mut scratch = Vec::new();
    let big = vec![0u8; MAX_ENTRY + 1];
    assert_eq!(put(&mut fs, &r("https://e.com/huge", &big), key("https://e.com/huge"), &mut scratch), Err(Error::Overflow));
    let mut buf = Vec::new();
    assert!(!load(&mut fs, "https://e.com/huge", key("https://e.com/huge"), &mut buf), "and nothing was written");
}

#[test]
fn removing_an_entry_makes_it_a_miss() {
    let mut fs = MemFs::new();
    let mut scratch = Vec::new();
    put(&mut fs, &r("https://e.com/", b"x"), key("https://e.com/"), &mut scratch).unwrap();
    let mut buf = Vec::new();
    assert!(load(&mut fs, "https://e.com/", key("https://e.com/"), &mut buf));
    remove(&mut fs, key("https://e.com/"));
    assert!(!load(&mut fs, "https://e.com/", key("https://e.com/"), &mut buf));
}

#[test]
fn an_entry_knows_whether_it_can_be_revalidated() {
    let body = b"x";
    assert!(r("https://e.com/", body).has_validator(), "an ETag is a validator");
    let mut e = r("https://e.com/", body);
    e.etag = "";
    assert!(!e.has_validator());
    e.last_modified = "Sat, 23 Aug 2026 00:00:00 GMT";
    assert!(e.has_validator(), "so is Last-Modified");
}

#[test]
fn a_very_long_url_is_storable() {
    let mut fs = MemFs::new();
    let mut scratch = Vec::new();
    let mut url = String::from("https://e.com/");
    for _ in 0..300 {
        url.push('x');
    }
    put(&mut fs, &r(&url, b"body"), key(&url), &mut scratch).unwrap();
    let mut buf = Vec::new();
    assert!(load(&mut fs, &url, key(&url), &mut buf));
    assert_eq!(decode_ref(&buf).unwrap().body, b"body");
}

#[test]
fn a_body_past_sixty_four_kilobytes_round_trips() {
    let big = vec![0x5Au8; 300 * 1024];
    let mut scratch = Vec::new();
    encode_into(&r("https://e.com/big", &big), &mut scratch);
    assert_eq!(decode_ref(&scratch).unwrap().body.len(), big.len());
}

#[test]
fn encoding_allocates_exactly_once() {
    let big = vec![0u8; 200 * 1024];
    let e = r("https://e.com/big", &big);
    let mut scratch = Vec::new();
    encode_into(&e, &mut scratch);
    assert_eq!(scratch.len(), encoded_len(&e));
}

#[test]
fn the_scratch_buffer_is_reused() {
    let mut fs = MemFs::new();
    let mut scratch = Vec::new();
    put(&mut fs, &r("https://e.com/1", b"aaaa"), key("https://e.com/1"), &mut scratch).unwrap();
    let after_first = scratch.capacity();
    put(&mut fs, &r("https://e.com/2", b"bb"), key("https://e.com/2"), &mut scratch).unwrap();
    assert!(scratch.capacity() >= after_first.min(scratch.capacity()));
    let mut buf = Vec::new();
    assert!(load(&mut fs, "https://e.com/1", key("https://e.com/1"), &mut buf));
    assert_eq!(decode_ref(&buf).unwrap().body, b"aaaa", "the first entry survived the second");
}

#[test]
fn an_entry_under_another_urls_key_is_not_served() {
    let mut fs = MemFs::new();
    let mut scratch = Vec::new();
    put(&mut fs, &r("https://a.com/", b"A"), 7, &mut scratch).unwrap();
    let mut buf = Vec::new();
    assert!(!load(&mut fs, "https://b.com/", 7, &mut buf), "the stored URL is checked");
    assert!(buf.is_empty());
    assert!(load(&mut fs, "https://a.com/", 7, &mut buf));
}

#[test]
fn the_key_is_the_digests_first_eight_bytes_big_endian() {
    let mut d = [0u8; 32];
    for (i, b) in d.iter_mut().enumerate() {
        *b = (i + 1) as u8;
    }
    assert_eq!(lib::http::cache::key_from_digest(&d), 0x0102_0304_0506_0708);
    d[0] = 0xFF;
    assert!(lib::http::cache::key_from_digest(&d) < 0, "the top bit is the sign");
    d[8] = 0xEE;
    assert_eq!(
        lib::http::cache::key_from_digest(&d),
        i64::from_be_bytes([0xFF, 2, 3, 4, 5, 6, 7, 8]),
        "only the first eight bytes count"
    );
}
