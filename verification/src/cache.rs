//! Bytes fetched once, kept on disk between openings.
//!
//! A handset like this one runs over GPRS, metered by the kilobyte: backing out of a picture
//! and opening it again must not pay for it twice.
//!
//! Everything lives in the data cage, `C:\private\<UID3>\`, the one place an unsigned
//! application can write to with no capability. Files are flat, with a one-character prefix
//! in the name for separation. The key is a `u64` the caller owns, whose bytes never change,
//! which is what lets a hit be served with no validation at all.

use vstd::prelude::*;

use crate::codec::push_char;
use crate::error::{Error, Result};
use crate::fs::{self, joined, readable, tmp_of, utf16, Fs, Utf16Path};

verus! {

/// How much a single cached file may be. Above this it is not written at all.
pub const MAX_CACHED: usize = 1024 * 1024;

/// The `i`-th hex digit of `v`, most significant first.
pub open spec fn nibble(v: u64, i: int) -> u64 {
    (v >> ((60 - 4 * i) as u64)) & 0xf
}

/// A digit below sixteen in lower-case hex.
pub open spec fn hex_char(d: u64) -> char {
    if d < 10 {
        ((48 + d) as u32) as char
    } else {
        ((87 + d) as u32) as char
    }
}

/// The file name for `id` under `prefix`: the prefix, sixteen lower-case hex digits of the id
/// taken unsigned (so a negative id puts no `-` in a file name), and `.bin`.
pub open spec fn cache_name(prefix: char, id: i64) -> Seq<char> {
    seq![prefix] + Seq::new(16, |i: int| hex_char(nibble(id as u64, i))) + seq!['.', 'b', 'i', 'n']
}

/// Where `id` is kept under `prefix`, in the cage `dir`.
pub open spec fn cache_path(dir: Seq<u16>, prefix: char, id: i64) -> Seq<u16> {
    joined(dir, utf16(cache_name(prefix, id)))
}

fn hex_digit(d: u64) -> (c: char)
    requires
        d < 16,
    ensures
        c == hex_char(d),
{
    if d < 10 {
        ((48 + d) as u8) as char
    } else {
        ((87 + d) as u8) as char
    }
}

fn name(prefix: char, id: i64) -> (r: String)
    ensures
        r@ == cache_name(prefix, id),
{
    let v = id as u64;
    let ghost digits = Seq::new(16, |i: int| hex_char(nibble(v, i)));
    let mut s = String::new();
    push_char(&mut s, prefix);
    let mut i: u64 = 0;
    assert(s@ =~= seq![prefix] + digits.take(0));
    while i < 16
        invariant
            i <= 16,
            v == id as u64,
            digits == Seq::new(16, |i: int| hex_char(nibble(v, i))),
            s@ == seq![prefix] + digits.take(i as int),
        decreases 16 - i,
    {
        let shift: u64 = 60 - 4 * i;
        let d = (v >> shift) & 0xf;
        assert(d < 16) by (bit_vector)
            requires
                d == (v >> shift) & 0xf,
        ;
        push_char(&mut s, hex_digit(d));
        assert(s@ =~= seq![prefix] + digits.take(i + 1));
        i = i + 1;
    }
    push_char(&mut s, '.');
    push_char(&mut s, 'b');
    push_char(&mut s, 'i');
    push_char(&mut s, 'n');
    assert(s@ =~= cache_name(prefix, id));
    s
}

/// Where `id` is kept: the `m` prefix separates these from the other files in the cage.
pub fn path<F: Fs>(fs: &mut F, id: i64) -> (r: Option<Utf16Path>)
    requires
        old(fs).inv(),
    ensures
        final(fs).inv(),
        final(fs).private_dir() == old(fs).private_dir(),
        final(fs).files() == old(fs).files(),
        final(fs).handles() == old(fs).handles(),
        r matches Some(p) ==> p@ == cache_path(old(fs).private_dir(), 'm', id),
        old(fs).steady() ==> final(fs).steady(),
        final(fs).room() >= old(fs).room(),
        old(fs).steady() && old(fs).private_dir().len() <= fs::MAX_PATH && cache_path(
            old(fs).private_dir(),
            'm',
            id,
        ).len() <= fs::MAX_PATH ==> r is Some,
{
    path_kind(fs, 'm', id)
}

/// The same, under an explicit one-character prefix: a photo has one id and two cached
/// things behind it, and sharing a name would serve one as the other. `None` when the cage
/// cannot be found or the name does not fit.
pub fn path_kind<F: Fs>(fs: &mut F, prefix: char, id: i64) -> (r: Option<Utf16Path>)
    requires
        old(fs).inv(),
    ensures
        final(fs).inv(),
        final(fs).private_dir() == old(fs).private_dir(),
        final(fs).files() == old(fs).files(),
        final(fs).handles() == old(fs).handles(),
        r matches Some(p) ==> p@ == cache_path(old(fs).private_dir(), prefix, id),
        cache_path(old(fs).private_dir(), prefix, id).len() > fs::MAX_PATH ==> r is None,
        old(fs).steady() ==> final(fs).steady(),
        final(fs).room() >= old(fs).room(),
        old(fs).steady() && old(fs).private_dir().len() <= fs::MAX_PATH && cache_path(
            old(fs).private_dir(),
            prefix,
            id,
        ).len() <= fs::MAX_PATH ==> r is Some,
{
    let dir = match fs::private_path(fs) {
        Ok(d) => d,
        Err(_) => {
            return None;
        },
    };
    let n = name(prefix, id);
    match Utf16Path::join(dir.as_units(), n.as_str()) {
        Ok(p) => Some(p),
        Err(_) => None,
    }
}

/// What a cache read of `path` gives: the bytes when the file is there and not empty.
pub open spec fn cached(files: fs::Files, path: Seq<u16>) -> Option<Seq<u8>> {
    if files.contains_key(path) && files[path].len() > 0 {
        Some(files[path])
    } else {
        None
    }
}

fn get_at<F: Fs>(fs: &mut F, p: Utf16Path) -> (r: Option<Vec<u8>>)
    requires
        old(fs).inv(),
    ensures
        final(fs).inv(),
        final(fs).private_dir() == old(fs).private_dir(),
        final(fs).files() == old(fs).files(),
        final(fs).handles() == old(fs).handles(),
        r matches Some(v) ==> cached(old(fs).files(), p@) == Some(v@),
        cached(old(fs).files(), p@) is None ==> r is None,
        old(fs).steady() ==> final(fs).steady(),
        final(fs).room() + 1 >= old(fs).room(),
        old(fs).steady() && old(fs).room() > 0 && readable(old(fs).files(), p@) ==> r is Some
            == cached(old(fs).files(), p@) is Some,
{
    match fs::read(fs, &p) {
        Ok(Some(bytes)) => {
            if bytes.len() > 0 {
                Some(bytes)
            } else {
                None
            }
        },
        _ => None,
    }
}

/// The spilled inline preview for `id`, or `None`. A read error is a miss too.
pub fn get_preview<F: Fs>(fs: &mut F, id: i64) -> (r: Option<Vec<u8>>)
    requires
        old(fs).inv(),
    ensures
        final(fs).inv(),
        final(fs).private_dir() == old(fs).private_dir(),
        final(fs).files() == old(fs).files(),
        final(fs).handles() == old(fs).handles(),
        r matches Some(v) ==> cached(old(fs).files(), cache_path(old(fs).private_dir(), 'p', id))
            == Some(v@),
        cached(old(fs).files(), cache_path(old(fs).private_dir(), 'p', id)) is None ==> r is None,
        old(fs).steady() ==> final(fs).steady(),
        final(fs).room() + 1 >= old(fs).room(),
        old(fs).steady() && old(fs).room() > 0 && reachable(old(fs).files(), old(fs).private_dir(), 'p', id)
            ==> r is Some == cached(old(fs).files(), cache_path(old(fs).private_dir(), 'p', id)) is Some,
{
    let p = match path_kind(fs, 'p', id) {
        Some(p) => p,
        None => {
            return None;
        },
    };
    get_at(fs, p)
}

/// The cached bytes for `id`, or `None` when it has not been downloaded. A read error is a
/// miss too: a corrupt file must not block the download that would fix it.
pub fn get<F: Fs>(fs: &mut F, id: i64) -> (r: Option<Vec<u8>>)
    requires
        old(fs).inv(),
    ensures
        final(fs).inv(),
        final(fs).private_dir() == old(fs).private_dir(),
        final(fs).files() == old(fs).files(),
        final(fs).handles() == old(fs).handles(),
        r matches Some(v) ==> cached(old(fs).files(), cache_path(old(fs).private_dir(), 'm', id))
            == Some(v@),
        cached(old(fs).files(), cache_path(old(fs).private_dir(), 'm', id)) is None ==> r is None,
        old(fs).steady() ==> final(fs).steady(),
        final(fs).room() + 1 >= old(fs).room(),
        old(fs).steady() && old(fs).room() > 0 && reachable(old(fs).files(), old(fs).private_dir(), 'm', id)
            ==> r is Some == cached(old(fs).files(), cache_path(old(fs).private_dir(), 'm', id)) is Some,
{
    let p = match path(fs, id) {
        Some(p) => p,
        None => {
            return None;
        },
    };
    get_at(fs, p)
}

/// The cache file for `id` under `prefix` can be named and, when it is there, held in memory.
pub open spec fn reachable(files: fs::Files, dir: Seq<u16>, prefix: char, id: i64) -> bool {
    &&& dir.len() <= fs::MAX_PATH
    &&& cache_path(dir, prefix, id).len() <= fs::MAX_PATH
    &&& readable(files, cache_path(dir, prefix, id))
}

/// The cache file for `id` under `prefix`, and the temporary name beside it, can be named.
pub open spec fn writable(dir: Seq<u16>, prefix: char, id: i64) -> bool {
    &&& dir.len() <= fs::MAX_PATH
    &&& tmp_of(cache_path(dir, prefix, id)).len() <= fs::MAX_PATH
}

/// What storing `bytes` at `path` leaves: the file holding them (and its temporary name gone)
/// when the write went through; only that temporary name touched when it did not.
pub open spec fn stored(before: fs::Files, after: fs::Files, path: Seq<u16>, bytes: Seq<u8>, ok: bool) -> bool {
    &&& ok ==> after == before.remove(tmp_of(path)).insert(path, bytes)
    &&& !ok ==> after.remove(tmp_of(path)) == before.remove(tmp_of(path))
}

/// Whether `bytes` may be cached: not empty, and no more than [`MAX_CACHED`].
pub open spec fn cacheable(bytes: Seq<u8>) -> bool {
    0 < bytes.len() <= MAX_CACHED
}

/// Spill an inline preview to disk so it can be dropped from the heap. Returns whether the
/// bytes are safely on disk — the caller must look, because a preview cannot be fetched
/// again on its own.
pub fn put_preview<F: Fs>(fs: &mut F, id: i64, bytes: &[u8]) -> (r: bool)
    requires
        old(fs).inv(),
    ensures
        final(fs).inv(),
        final(fs).private_dir() == old(fs).private_dir(),
        final(fs).handles().dom().subset_of(old(fs).handles().dom()),
        !cacheable(bytes@) ==> !r && *final(fs) == *old(fs),
        cacheable(bytes@) ==> stored(
            old(fs).files(),
            final(fs).files(),
            cache_path(old(fs).private_dir(), 'p', id),
            bytes@,
            r,
        ),
        old(fs).steady() ==> final(fs).steady(),
        final(fs).room() + 1 >= old(fs).room(),
        old(fs).steady() && old(fs).room() > 0 && cacheable(bytes@) && writable(
            old(fs).private_dir(),
            'p',
            id,
        ) ==> r,
{
    if bytes.len() == 0 || bytes.len() > MAX_CACHED {
        return false;
    }
    let p = match path_kind(fs, 'p', id) {
        Some(p) => p,
        None => {
            return false;
        },
    };
    fs::write_atomic(fs, &p, bytes).is_ok()
}

/// Store `bytes` under `id`. Failure is ignored by design: the photo is already on screen,
/// so a full disk only means the next opening is slow.
pub fn put<F: Fs>(fs: &mut F, id: i64, bytes: &[u8])
    requires
        old(fs).inv(),
    ensures
        final(fs).inv(),
        final(fs).private_dir() == old(fs).private_dir(),
        final(fs).handles().dom().subset_of(old(fs).handles().dom()),
        !cacheable(bytes@) ==> *final(fs) == *old(fs),
        cacheable(bytes@) ==> ({
            let p = cache_path(old(fs).private_dir(), 'm', id);
            ||| final(fs).files() == old(fs).files().remove(tmp_of(p)).insert(p, bytes@)
            ||| final(fs).files().remove(tmp_of(p)) == old(fs).files().remove(tmp_of(p))
        }),
        old(fs).steady() ==> final(fs).steady(),
        final(fs).room() + 1 >= old(fs).room(),
        old(fs).steady() && old(fs).room() > 0 && cacheable(bytes@) && writable(
            old(fs).private_dir(),
            'm',
            id,
        ) ==> final(fs).files() == old(fs).files().remove(
            tmp_of(cache_path(old(fs).private_dir(), 'm', id)),
        ).insert(cache_path(old(fs).private_dir(), 'm', id), bytes@),
{
    let _ = put_result(fs, id, bytes);
}

/// Store, reporting what happened: [`Error::Overflow`] for bytes that are empty or larger
/// than [`MAX_CACHED`], [`Error::Argument`] when there is no path to store them at.
pub fn put_result<F: Fs>(fs: &mut F, id: i64, bytes: &[u8]) -> (r: Result<()>)
    requires
        old(fs).inv(),
    ensures
        final(fs).inv(),
        final(fs).private_dir() == old(fs).private_dir(),
        final(fs).handles().dom().subset_of(old(fs).handles().dom()),
        !cacheable(bytes@) ==> r == Err::<(), Error>(Error::Overflow) && *final(fs) == *old(fs),
        cacheable(bytes@) ==> stored(
            old(fs).files(),
            final(fs).files(),
            cache_path(old(fs).private_dir(), 'm', id),
            bytes@,
            r is Ok,
        ),
        old(fs).steady() ==> final(fs).steady(),
        final(fs).room() + 1 >= old(fs).room(),
        old(fs).steady() && old(fs).room() > 0 && cacheable(bytes@) && writable(
            old(fs).private_dir(),
            'm',
            id,
        ) ==> r is Ok,
{
    if bytes.len() == 0 || bytes.len() > MAX_CACHED {
        return Err(Error::Overflow);
    }
    let p = match path(fs, id) {
        Some(p) => p,
        None => {
            return Err(Error::Argument);
        },
    };
    fs::write_atomic(fs, &p, bytes)
}

proof fn lemma_nibble_small(v: u64, sh: u64)
    ensures
        (v >> sh) & 0xf < 16,
{
    assert((v >> sh) & 0xf < 16) by (bit_vector);
}

proof fn lemma_nibbles_determine(v: u64, w: u64)
    requires
        forall|i: int| 0 <= i < 16 ==> #[trigger] nibble(v, i) == nibble(w, i),
    ensures
        v == w,
{
    assert(nibble(v, 0) == (v >> 60u64) & 0xf && nibble(w, 0) == (w >> 60u64) & 0xf);
    assert(nibble(v, 1) == (v >> 56u64) & 0xf && nibble(w, 1) == (w >> 56u64) & 0xf);
    assert(nibble(v, 2) == (v >> 52u64) & 0xf && nibble(w, 2) == (w >> 52u64) & 0xf);
    assert(nibble(v, 3) == (v >> 48u64) & 0xf && nibble(w, 3) == (w >> 48u64) & 0xf);
    assert(nibble(v, 4) == (v >> 44u64) & 0xf && nibble(w, 4) == (w >> 44u64) & 0xf);
    assert(nibble(v, 5) == (v >> 40u64) & 0xf && nibble(w, 5) == (w >> 40u64) & 0xf);
    assert(nibble(v, 6) == (v >> 36u64) & 0xf && nibble(w, 6) == (w >> 36u64) & 0xf);
    assert(nibble(v, 7) == (v >> 32u64) & 0xf && nibble(w, 7) == (w >> 32u64) & 0xf);
    assert(nibble(v, 8) == (v >> 28u64) & 0xf && nibble(w, 8) == (w >> 28u64) & 0xf);
    assert(nibble(v, 9) == (v >> 24u64) & 0xf && nibble(w, 9) == (w >> 24u64) & 0xf);
    assert(nibble(v, 10) == (v >> 20u64) & 0xf && nibble(w, 10) == (w >> 20u64) & 0xf);
    assert(nibble(v, 11) == (v >> 16u64) & 0xf && nibble(w, 11) == (w >> 16u64) & 0xf);
    assert(nibble(v, 12) == (v >> 12u64) & 0xf && nibble(w, 12) == (w >> 12u64) & 0xf);
    assert(nibble(v, 13) == (v >> 8u64) & 0xf && nibble(w, 13) == (w >> 8u64) & 0xf);
    assert(nibble(v, 14) == (v >> 4u64) & 0xf && nibble(w, 14) == (w >> 4u64) & 0xf);
    assert(nibble(v, 15) == (v >> 0u64) & 0xf && nibble(w, 15) == (w >> 0u64) & 0xf);
    assert((v >> 60u64) & 0xf == (w >> 60u64) & 0xf && (v >> 56u64) & 0xf == (w >> 56u64) & 0xf && (v >> 52u64) & 0xf == (w >> 52u64) & 0xf && (v >> 48u64) & 0xf == (w >> 48u64) & 0xf && (v >> 44u64) & 0xf == (w >> 44u64) & 0xf && (v >> 40u64) & 0xf == (w >> 40u64) & 0xf && (v >> 36u64) & 0xf == (w >> 36u64) & 0xf && (v >> 32u64) & 0xf == (w >> 32u64) & 0xf && (v >> 28u64) & 0xf == (w >> 28u64) & 0xf && (v >> 24u64) & 0xf == (w >> 24u64) & 0xf && (v >> 20u64) & 0xf == (w >> 20u64) & 0xf && (v >> 16u64) & 0xf == (w >> 16u64) & 0xf && (v >> 12u64) & 0xf == (w >> 12u64) & 0xf && (v >> 8u64) & 0xf == (w >> 8u64) & 0xf && (v >> 4u64) & 0xf == (w >> 4u64) & 0xf && (v >> 0u64) & 0xf == (w >> 0u64) & 0xf ==> v == w) by (bit_vector);
}

proof fn lemma_hex_char(d: u64, e: u64)
    requires
        d < 16,
        e < 16,
        hex_char(d) == hex_char(e),
    ensures
        d == e,
        (hex_char(d) as u32) < 0x80,
{
    let x: u32 = if d < 10 {
        (48 + d) as u32
    } else {
        (87 + d) as u32
    };
    let y: u32 = if e < 10 {
        (48 + e) as u32
    } else {
        (87 + e) as u32
    };
    vstd::utf8::char_u32_cast(hex_char(d), x);
    vstd::utf8::char_u32_cast(hex_char(e), y);
    assert(hex_char(d) as u32 == x);
    assert(hex_char(e) as u32 == y);
}

proof fn lemma_name_ascii(prefix: char, id: i64)
    requires
        (prefix as u32) < 0x80,
    ensures
        cache_name(prefix, id).len() == 21,
        forall|i: int| 0 <= i < 21 ==> (#[trigger] cache_name(prefix, id)[i] as u32) < 0x80,
{
    let n = cache_name(prefix, id);
    assert forall|i: int| 0 <= i < 21 implies (#[trigger] n[i] as u32) < 0x80 by {
        if 1 <= i < 17 {
            let d = nibble(id as u64, i - 1);
            lemma_nibble_small(id as u64, (60 - 4 * (i - 1)) as u64);
            lemma_hex_char(d, d);
        }
    }
}

/// Two different things in the cache never share a file: a different id, or the same id
/// under a different prefix (the downloaded file and its inline preview), is a different
/// path.
pub proof fn lemma_cache_paths_differ(dir: Seq<u16>, p1: char, id1: i64, p2: char, id2: i64)
    requires
        (p1 as u32) < 0x80,
        (p2 as u32) < 0x80,
        p1 != p2 || id1 != id2,
    ensures
        cache_path(dir, p1, id1) != cache_path(dir, p2, id2),
{
    let n1 = cache_name(p1, id1);
    let n2 = cache_name(p2, id2);
    lemma_name_ascii(p1, id1);
    lemma_name_ascii(p2, id2);
    fs::lemma_utf16_ascii(n1);
    fs::lemma_utf16_ascii(n2);
    let u1 = utf16(n1);
    let u2 = utf16(n2);
    // The first position at which the two names differ.
    let k: int = if p1 != p2 {
        0
    } else {
        let v = id1 as u64;
        let w = id2 as u64;
        if forall|i: int| 0 <= i < 16 ==> #[trigger] nibble(v, i) == nibble(w, i) {
            lemma_nibbles_determine(v, w);
            assert(id1 == id2) by (bit_vector)
                requires
                    v == id1 as u64,
                    w == id2 as u64,
                    v == w,
            ;
        }
        let i = choose|i: int| 0 <= i < 16 && #[trigger] nibble(v, i) != nibble(w, i);
        i + 1
    };
    assert(n1[k] != n2[k]) by {
        if k > 0 {
            let d = nibble(id1 as u64, k - 1);
            let e = nibble(id2 as u64, k - 1);
            lemma_nibble_small(id1 as u64, (60 - 4 * (k - 1)) as u64);
            lemma_nibble_small(id2 as u64, (60 - 4 * (k - 1)) as u64);
            if hex_char(d) == hex_char(e) {
                lemma_hex_char(d, e);
            }
        }
    }
    let x: u32 = n1[k] as u32;
    let y: u32 = n2[k] as u32;
    vstd::utf8::char_u32_cast(n1[k], x);
    vstd::utf8::char_u32_cast(n2[k], y);
    assert(x < 0x80 && y < 0x80 && x != y ==> (x as u16) != (y as u16)) by (bit_vector);
    assert(u1[k] != u2[k]);
    let j1 = joined(dir, u1);
    let j2 = joined(dir, u2);
    let off: int = if dir.len() > 0 && dir.last() != fs::SEP {
        dir.len() + 1int
    } else {
        dir.len() as int
    };
    assert(j1[off + k] == u1[k]);
    assert(j2[off + k] == u2[k]);
}

/// Two things stored under different ids are both there to be read back: the second store
/// touches neither the first one's file nor its name.
pub proof fn lemma_put_then_get(
    files: fs::Files,
    dir: Seq<u16>,
    id: i64,
    b: Seq<u8>,
    id2: i64,
    b2: Seq<u8>,
)
    requires
        cacheable(b),
        cacheable(b2),
        id != id2,
    ensures
        ({
            let p = cache_path(dir, 'm', id);
            let p2 = cache_path(dir, 'm', id2);
            let first = files.remove(tmp_of(p)).insert(p, b);
            let both = first.remove(tmp_of(p2)).insert(p2, b2);
            &&& cached(first, p) == Some(b)
            &&& cached(both, p) == Some(b)
            &&& cached(both, p2) == Some(b2)
        }),
{
    let p = cache_path(dir, 'm', id);
    let p2 = cache_path(dir, 'm', id2);
    lemma_cache_paths_differ(dir, 'm', id, 'm', id2);
    lemma_name_ascii('m', id);
    lemma_name_ascii('m', id2);
    fs::lemma_utf16_ascii(cache_name('m', id));
    fs::lemma_utf16_ascii(cache_name('m', id2));
    reveal_strlit(".tmp");
    fs::lemma_utf16_len(".tmp"@);
    assert(p.len() == p2.len());
    assert(tmp_of(p2).len() > p2.len());
    assert(tmp_of(p2) != p);
}

} // verus!
