//! A fetched response, kept on disk.
//!
//! What this stores is a **snapshot**: this response, as it came off the wire, at a moment —
//! for back navigation, for reading offline, and for not paying twice for a body on a link
//! metered by the kilobyte. It must not answer an ordinary navigation without asking the
//! server; the validators are stored beside the body for the request that asks.
//!
//! The body is stored exactly as the server sent it, still compressed, with the flags that
//! describe it. Metadata and body share one blob, so [`crate::fs::write_atomic`] makes the
//! pair atomic for free.
//!
//! An entry lives under a key the caller derives from the URL (the first eight bytes of its
//! SHA-256, big-endian); the stored URL is checked against the one asked for on every load.

use vstd::prelude::*;
use vstd::string::StringSliceAdditionalSpecFns;
use vstd::utf8::*;

use super::Flags;
use crate::blob::{field, field_at, field_text, lemma_field_round_trip, put_str, Reader};
use crate::cache::{cache_path, reachable, writable};
use crate::codec::{le16, le32, lemma_read16_le16, lemma_read32_le32, push_bytes, push_u16, push_u32, read16, read32};
use crate::error::{Error, Result};
use crate::fs::{tmp_of, Fs};

verus! {

broadcast use {vstd::seq::group_seq_axioms, vstd::slice::group_slice_axioms};

/// `HC` and a format version. A blob whose magic does not match is a miss, which is what lets
/// the format change without a migration.
pub const MAGIC: [u8; 4] = [0x48, 0x43, 0x01, 0x00];

/// The prefix these take in the data cage, apart from the photo cache sharing it.
pub const PREFIX: char = 'h';

/// A number spelled by bytes, most significant first.
pub open spec fn be_value(s: Seq<u8>) -> int
    decreases s.len(),
{
    if s.len() == 0 {
        0
    } else {
        be_value(s.drop_last()) * 256 + s.last()
    }
}

/// `256` to the `n`.
pub open spec fn pow256(n: nat) -> int
    decreases n,
{
    if n == 0 {
        1
    } else {
        256 * pow256((n - 1) as nat)
    }
}

proof fn lemma_pow256_grows(a: nat, b: nat)
    requires
        a <= b,
    ensures
        pow256(a) <= pow256(b),
        pow256(a) >= 1,
    decreases b,
{
    if b > a {
        lemma_pow256_grows(a, (b - 1) as nat);
    } else if a > 0 {
        lemma_pow256_grows((a - 1) as nat, (a - 1) as nat);
    }
}

/// The key a URL is stored under, from the SHA-256 digest of its bytes: the digest's first
/// eight bytes, big-endian, as a signed number.
pub fn key_from_digest(d: &[u8; 32]) -> (k: i64)
    ensures
        k == (be_value(d@.subrange(0, 8)) as u64) as i64,
{
    let mut acc: u64 = 0;
    let mut i: usize = 0;
    proof {
        reveal_with_fuel(pow256, 9);
    }
    while i < 8
        invariant
            i <= 8,
            d@.len() == 32,
            acc == be_value(d@.subrange(0, i as int)),
            acc < pow256(i as nat),
            pow256(8) == 0x1_0000_0000_0000_0000int,
        decreases 8 - i,
    {
        proof {
            assert(d@.subrange(0, i + 1).drop_last() =~= d@.subrange(0, i as int));
            assert(pow256((i + 1) as nat) == 256 * pow256(i as nat));
            lemma_pow256_grows(i as nat + 1, 8);
        }
        acc = acc * 256 + d[i] as u64;
        i += 1;
    }
    acc as i64
}

/// The largest response this will store, compressed.
pub const MAX_ENTRY: usize = 2 * 1024 * 1024;

/// A response to store or one just read back. The body is **borrowed**: nothing here copies
/// a body, on a heap where five copies of one page once killed the run.
#[derive(Copy, Clone, Debug, PartialEq, Eq)]
pub struct Ref<'a> {
    /// Where the bytes came from — the effective URL, after redirects.
    pub url: &'a str,
    pub status: u16,
    /// The flags the response arrived with.
    pub flags: Flags,
    /// `ETag`, when the response carried one. Empty otherwise.
    pub etag: &'a str,
    /// `Last-Modified`, when the response carried one. Empty otherwise.
    pub last_modified: &'a str,
    /// The body as it came off the wire, still compressed if it arrived that way.
    pub body: &'a [u8],
}

/// An entry as values: status, flags, and the bytes of the URL, the ETag, the Last-Modified
/// and the body.
pub type Entry = (u16, i32, Seq<u8>, Seq<u8>, Seq<u8>, Seq<u8>);

impl<'a> View for Ref<'a> {
    type V = Entry;

    open spec fn view(&self) -> Entry {
        (
            self.status,
            self.flags.0,
            self.url.spec_bytes(),
            self.etag.spec_bytes(),
            self.last_modified.spec_bytes(),
            self.body@,
        )
    }
}

impl<'a> Ref<'a> {
    /// Whether this entry could be revalidated with a conditional request.
    pub fn has_validator(&self) -> (r: bool)
        ensures
            r == (self.etag@.len() > 0 || self.last_modified@.len() > 0),
    {
        !crate::codec::str_is_empty(self.etag) || !crate::codec::str_is_empty(self.last_modified)
    }
}

/// The blob for an entry.
pub open spec fn entry_bytes(e: Ref) -> Seq<u8> {
    MAGIC@ + le16(e.status) + le32(e.flags.0 as u32) + field(e.url@) + field(e.etag@) + field(
        e.last_modified@,
    ) + le32(e.body@.len() as u32) + e.body@
}

/// What a blob reads as: its entry, or `None` for a short read, a foreign magic, a field that
/// is not text or a truncated body. Bytes past the body are not looked at.
pub open spec fn parse_entry(b: Seq<u8>) -> Option<Entry> {
    if b.len() < 10 || b.subrange(0, 4) != MAGIC@ {
        None
    } else {
        match field_at(b, 10) {
            None => None,
            Some((u, p1)) => match field_at(b, p1) {
                None => None,
                Some((e, p2)) => match field_at(b, p2) {
                    None => None,
                    Some((l, p3)) => {
                        if !valid_utf8(u) || !valid_utf8(e) || !valid_utf8(l) || p3 + 4 > b.len() {
                            None
                        } else {
                            let n = read32(b, p3) as int;
                            if p3 + 4 + n > b.len() {
                                None
                            } else {
                                Some(
                                    (
                                        read16(b, 4),
                                        read32(b, 6) as i32,
                                        u,
                                        e,
                                        l,
                                        b.subrange(p3 + 4, p3 + 4 + n),
                                    ),
                                )
                            }
                        }
                    },
                },
            },
        }
    }
}

/// Serialise into `out`, which is cleared first.
pub fn encode_into(e: &Ref<'_>, out: &mut Vec<u8>)
    ensures
        final(out)@ == entry_bytes(*e),
{
    out.clear();
    push_bytes(out, &MAGIC);
    push_u16(out, e.status);
    push_u32(out, e.flags.0 as u32);
    put_str(out, e.url);
    put_str(out, e.etag);
    put_str(out, e.last_modified);
    push_u32(out, e.body.len() as u32);
    push_bytes(out, e.body);
    assert(out@ =~= entry_bytes(*e));
}

/// Parse a blob, borrowing from it. `None` for anything that is not one: every one of those
/// is a cache miss, and none is worth an error type.
pub fn decode_ref(bytes: &[u8]) -> (r: Option<Ref<'_>>)
    ensures
        match r {
            Some(e) => parse_entry(bytes@) == Some(e@),
            None => parse_entry(bytes@) is None,
        },
{
    let ghost b = bytes@;
    let mut r = Reader::new(bytes);
    let magic = match r.take(4) {
        Some(m) => m,
        None => {
            return None;
        },
    };
    if magic[0] != MAGIC[0] || magic[1] != MAGIC[1] || magic[2] != MAGIC[2] || magic[3] != MAGIC[3] {
        proof {
            if b.len() >= 10 {
                assert(b.subrange(0, 4) =~= magic@);
            }
        }
        return None;
    }
    assert(b.subrange(0, 4) =~= MAGIC@);
    let status = match r.u16() {
        Some(s) => s,
        None => {
            return None;
        },
    };
    let flags = match r.i32() {
        Some(f) => Flags(f),
        None => {
            return None;
        },
    };
    let url = match r.str() {
        Some(s) => s,
        None => {
            return None;
        },
    };
    let etag = match r.str() {
        Some(s) => s,
        None => {
            return None;
        },
    };
    let last_modified = match r.str() {
        Some(s) => s,
        None => {
            return None;
        },
    };
    let body_len = match r.u32() {
        Some(n) => n as usize,
        None => {
            return None;
        },
    };
    let body = match r.take(body_len) {
        Some(s) => s,
        None => {
            return None;
        },
    };
    Some(Ref { url, status, flags, etag, last_modified, body })
}

/// Whether a response's parts can be stored whole: its strings fit a field, its body fits the
/// length.
pub open spec fn storable(e: Ref) -> bool {
    &&& e.url.spec_bytes().len() <= crate::blob::MAX_FIELD
    &&& e.etag.spec_bytes().len() <= crate::blob::MAX_FIELD
    &&& e.last_modified.spec_bytes().len() <= crate::blob::MAX_FIELD
    &&& e.body@.len() <= u32::MAX
}

/// A stored response reads back as itself: the same status, flags, URL, validators and body —
/// its strings cut on a character boundary when they were too long for a field.
#[verifier::rlimit(100)]
#[verifier::spinoff_prover]
pub proof fn lemma_entry_round_trip(e: Ref)
    requires
        e.body@.len() <= u32::MAX,
    ensures
        parse_entry(entry_bytes(e)) == Some(
            (
                e.status,
                e.flags.0,
                field_text(e.url@),
                field_text(e.etag@),
                field_text(e.last_modified@),
                e.body@,
            ),
        ),
        storable(e) ==> parse_entry(entry_bytes(e)) == Some(e@),
{
    let b = entry_bytes(e);
    let h = MAGIC@ + le16(e.status) + le32(e.flags.0 as u32);
    let fu = field(e.url@);
    let fe = field(e.etag@);
    let fl = field(e.last_modified@);
    let tail = le32(e.body@.len() as u32) + e.body@;
    assert(b =~= h + fu + (fe + fl + tail));
    assert(b.subrange(0, 4) =~= MAGIC@);
    assert(b =~= MAGIC@ + le16(e.status) + (le32(e.flags.0 as u32) + fu + fe + fl + tail));
    lemma_read16_le16(e.status, MAGIC@, le32(e.flags.0 as u32) + fu + fe + fl + tail);
    assert(b =~= (MAGIC@ + le16(e.status)) + le32(e.flags.0 as u32) + (fu + fe + fl + tail));
    lemma_read32_le32(e.flags.0 as u32, MAGIC@ + le16(e.status), fu + fe + fl + tail);
    crate::codec::lemma_i32_bits(e.flags.0);
    lemma_field_round_trip(e.url@, h, fe + fl + tail);
    assert(b =~= (h + fu) + fe + (fl + tail));
    lemma_field_round_trip(e.etag@, h + fu, fl + tail);
    assert(b =~= (h + fu + fe) + fl + tail);
    lemma_field_round_trip(e.last_modified@, h + fu + fe, tail);
    let p3 = (h + fu + fe + fl).len() as int;
    assert(b =~= (h + fu + fe + fl) + le32(e.body@.len() as u32) + e.body@);
    lemma_read32_le32(e.body@.len() as u32, h + fu + fe + fl, e.body@);
    assert(b.subrange(p3 + 4, p3 + 4 + e.body@.len()) =~= e.body@);
    if storable(e) {
        lemma_field_exact(e.url);
        lemma_field_exact(e.etag);
        lemma_field_exact(e.last_modified);
    }
}

/// A field that reads from a prefix of `b` reads the same from `b`.
proof fn lemma_field_at_prefix(b: Seq<u8>, c: int, p: int)
    requires
        0 <= p,
        0 <= c <= b.len(),
        field_at(b.take(c), p) is Some,
    ensures
        field_at(b, p) == field_at(b.take(c), p),
        (field_at(b, p)->0).1 <= c,
{
    let t = b.take(c);
    assert(t[p] == b[p] && t[p + 1] == b[p + 1]);
    let n = read16(b, p) as int;
    assert(t.subrange(p + 2, p + 2 + n) =~= b.subrange(p + 2, p + 2 + n));
}

/// The field of `s` between `pre` and `post` reads back as itself and ends where it ends.
proof fn lemma_field_in(s: Seq<char>, pre: Seq<u8>, post: Seq<u8>, b: Seq<u8>)
    requires
        b == pre + field(s) + post,
    ensures
        field_at(b, pre.len() as int) == Some((field_text(s), (pre.len() + field(s).len()) as int)),
{
    lemma_field_round_trip(s, pre, post);
    assert(le16(field_text(s).len() as u16).len() == 2);
}

/// Where a stored response's body ends is where its blob ends.
#[verifier::spinoff_prover]
proof fn lemma_entry_end(e: Ref)
    requires
        e.body@.len() <= u32::MAX,
    ensures
        ({
            let b = entry_bytes(e);
            let p1 = 10 + field(e.url@).len();
            let p2 = p1 + field(e.etag@).len();
            let p3 = p2 + field(e.last_modified@).len();
            &&& field_at(b, 10) == Some((field_text(e.url@), p1 as int))
            &&& field_at(b, p1 as int) == Some((field_text(e.etag@), p2 as int))
            &&& field_at(b, p2 as int) == Some((field_text(e.last_modified@), p3 as int))
            &&& p3 + 4 + read32(b, p3 as int) == b.len()
        }),
{
    let b = entry_bytes(e);
    let h = MAGIC@ + le16(e.status) + le32(e.flags.0 as u32);
    let fu = field(e.url@);
    let fe = field(e.etag@);
    let fl = field(e.last_modified@);
    let tail = le32(e.body@.len() as u32) + e.body@;
    assert(h.len() == 10);
    assert(b == h + fu + (fe + fl + tail)) by {
        assert(b =~= h + fu + (fe + fl + tail));
    }
    lemma_field_in(e.url@, h, fe + fl + tail, b);
    assert(b == (h + fu) + fe + (fl + tail)) by {
        assert(b =~= (h + fu) + fe + (fl + tail));
    }
    lemma_field_in(e.etag@, h + fu, fl + tail, b);
    assert(b == (h + fu + fe) + fl + tail) by {
        assert(b =~= (h + fu + fe) + fl + tail);
    }
    lemma_field_in(e.last_modified@, h + fu + fe, tail, b);
    assert(b == (h + fu + fe + fl) + le32(e.body@.len() as u32) + e.body@) by {
        assert(b =~= (h + fu + fe + fl) + le32(e.body@.len() as u32) + e.body@);
    }
    lemma_read32_le32(e.body@.len() as u32, h + fu + fe + fl, e.body@);
}

/// A cut blob is no entry: any proper prefix of a stored response reads as nothing, so a
/// download interrupted while its entry was being written is fetched again, not served short.
pub proof fn lemma_cut_entry_is_refused(e: Ref, cut: int)
    requires
        e.body@.len() <= u32::MAX,
        0 <= cut < entry_bytes(e).len(),
    ensures
        parse_entry(entry_bytes(e).take(cut)) is None,
{
    let b = entry_bytes(e);
    let t = b.take(cut);
    if parse_entry(t) is Some {
        lemma_entry_end(e);
        lemma_field_at_prefix(b, cut, 10);
        let p1 = (field_at(t, 10)->0).1;
        lemma_field_at_prefix(b, cut, p1);
        let p2 = (field_at(t, p1)->0).1;
        lemma_field_at_prefix(b, cut, p2);
        let p3 = (field_at(t, p2)->0).1;
        assert(t[p3] == b[p3] && t[p3 + 1] == b[p3 + 1] && t[p3 + 2] == b[p3 + 2] && t[p3 + 3]
            == b[p3 + 3]);
        assert(read32(t, p3) == read32(b, p3));
    }
}

proof fn lemma_field_exact(s: &str)
    requires
        s.spec_bytes().len() <= crate::blob::MAX_FIELD,
    ensures
        field_text(s@) == s.spec_bytes(),
{
    encode_utf8_valid_utf8(s@);
    crate::codec::lemma_cut_utf8(encode_utf8(s@), crate::blob::MAX_FIELD as int);
}

/// Where the entry under `key` lives, in the cage `dir`.
pub open spec fn entry_path(dir: Seq<u16>, key: i64) -> Seq<u16> {
    cache_path(dir, PREFIX, key)
}

/// Store a response under `key`, the key of its URL. [`Error::Argument`] for an empty body (it
/// would read back as a complete page) or when there is no path to store it at;
/// [`Error::Overflow`] for a body over [`MAX_ENTRY`]. `scratch` is the caller's encode buffer,
/// cleared and reused.
pub fn put<F: Fs>(fs: &mut F, e: &Ref<'_>, key: i64, scratch: &mut Vec<u8>) -> (r: Result<()>)
    requires
        old(fs).inv(),
    ensures
        final(fs).inv(),
        final(fs).private_dir() == old(fs).private_dir(),
        final(fs).handles().dom().subset_of(old(fs).handles().dom()),
        e.body@.len() == 0 ==> r == Err::<(), Error>(Error::Argument) && *final(fs) == *old(fs),
        e.body@.len() > MAX_ENTRY ==> r == Err::<(), Error>(Error::Overflow) && *final(fs) == *old(
            fs,
        ),
        0 < e.body@.len() <= MAX_ENTRY ==> final(scratch)@ == entry_bytes(*e),
        ({
            let p = entry_path(old(fs).private_dir(), key);
            &&& r is Ok ==> final(fs).files() == old(fs).files().remove(tmp_of(p)).insert(
                p,
                entry_bytes(*e),
            )
            &&& r is Err ==> final(fs).files().remove(tmp_of(p)) == old(fs).files().remove(
                tmp_of(p),
            )
        }),
        old(fs).steady() ==> final(fs).steady(),
        final(fs).room() + 1 >= old(fs).room(),
        old(fs).steady() && old(fs).room() > 0 && 0 < e.body@.len() <= MAX_ENTRY && writable(
            old(fs).private_dir(),
            PREFIX,
            key,
        ) ==> r is Ok,
{
    if e.body.len() == 0 {
        return Err(Error::Argument);
    }
    if e.body.len() > MAX_ENTRY {
        return Err(Error::Overflow);
    }
    encode_into(e, scratch);
    let p = match crate::cache::path_kind(fs, PREFIX, key) {
        Some(p) => p,
        None => {
            return Err(Error::Argument);
        },
    };
    crate::fs::write_atomic(fs, &p, scratch.as_slice())
}

fn same_bytes(a: &[u8], b: &[u8]) -> (r: bool)
    ensures
        r == (a@ == b@),
{
    if a.len() != b.len() {
        return false;
    }
    let mut i: usize = 0;
    while i < a.len()
        invariant
            a@.len() == b@.len(),
            i <= a@.len(),
            forall|k: int| 0 <= k < i ==> a@[k] == b@[k],
        decreases a@.len() - i,
    {
        if a[i] != b[i] {
            return false;
        }
        i = i + 1;
    }
    assert(a@ =~= b@);
    true
}

/// Read the stored blob for `url`, under `key`, into `buf`, ready for [`decode_ref`]. `true`
/// only when a blob is there, reads as an entry, and is for this very URL; otherwise `buf`
/// is left empty.
pub fn load<F: Fs>(fs: &mut F, url: &str, key: i64, buf: &mut Vec<u8>) -> (r: bool)
    requires
        old(fs).inv(),
    ensures
        final(fs).inv(),
        final(fs).private_dir() == old(fs).private_dir(),
        final(fs).files() == old(fs).files(),
        final(fs).handles() == old(fs).handles(),
        !r ==> final(buf)@.len() == 0,
        r ==> {
            let p = entry_path(old(fs).private_dir(), key);
            &&& old(fs).files().contains_key(p)
            &&& final(buf)@ == old(fs).files()[p]
            &&& parse_entry(final(buf)@) matches Some(m) && m.2 == url.spec_bytes()
        },
        old(fs).steady() ==> final(fs).steady(),
        final(fs).room() + 1 >= old(fs).room(),
        old(fs).steady() && old(fs).room() > 0 && reachable(
            old(fs).files(),
            old(fs).private_dir(),
            PREFIX,
            key,
        ) ==> r == holds_entry(old(fs).files(), entry_path(old(fs).private_dir(), key), url.spec_bytes()),
{
    buf.clear();
    let p = match crate::cache::path_kind(fs, PREFIX, key) {
        Some(p) => p,
        None => {
            return false;
        },
    };
    let bytes = match crate::fs::read(fs, &p) {
        Ok(Some(b)) => b,
        _ => {
            return false;
        },
    };
    *buf = bytes;
    let same = match decode_ref(buf.as_slice()) {
        Some(e) => same_bytes(e.url.as_bytes(), url.as_bytes()),
        None => false,
    };
    if !same {
        buf.clear();
    }
    same
}

/// Whether the file at `p` holds an entry for the URL whose bytes are `url`.
pub open spec fn holds_entry(files: crate::fs::Files, p: Seq<u16>, url: Seq<u8>) -> bool {
    files.contains_key(p) && (parse_entry(files[p]) matches Some(m) && m.2 == url)
}

/// What is stored is what is loaded: once a response that fits its fields is stored under
/// `key`, the file there reads back as that very response, under its own URL.
pub proof fn lemma_put_then_load(files: crate::fs::Files, dir: Seq<u16>, key: i64, e: Ref)
    requires
        storable(e),
    ensures
        ({
            let p = entry_path(dir, key);
            let after = files.remove(tmp_of(p)).insert(p, entry_bytes(e));
            &&& holds_entry(after, p, e.url.spec_bytes())
            &&& parse_entry(after[p]) == Some(e@)
        }),
{
    lemma_entry_round_trip(e);
}

/// Forget the entry under `key`.
pub fn remove<F: Fs>(fs: &mut F, key: i64)
    requires
        old(fs).inv(),
    ensures
        final(fs).inv(),
        final(fs).private_dir() == old(fs).private_dir(),
        final(fs).handles().dom().subset_of(old(fs).handles().dom()),
        ({
            let p = entry_path(old(fs).private_dir(), key);
            ||| final(fs).files() == old(fs).files().remove(p)
            ||| final(fs).files() == old(fs).files()
        }),
{
    if let Some(p) = crate::cache::path_kind(fs, PREFIX, key) {
        let _ = fs.delete(p.as_units());
    }
}

} // verus!
