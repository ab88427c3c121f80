//! A one-shot request channel into the launcher, and a return lane out of it.
//!
//! An application asks the launcher to open a link by writing the link to a file and bumping a
//! property the launcher subscribes to; the launcher takes the request, which removes it. The
//! payload does not fit in a property, so the property only says "something changed" and the
//! file says what. The return lane has the same shape the other way: the launcher leaves a line
//! for the messaging daemon to put in the Inbox.
//!
//! The half that is pure filesystem lives here, where it is testable on a host; ringing the
//! bell needs a kernel.

use vstd::prelude::*;
use vstd::string::StringSliceAdditionalSpecFns;
use vstd::utf8::*;

use crate::codec::string_from_utf8;
use crate::error::{Error, Result};
use crate::fs::{self, lemma_utf16_len, readable, tmp_of, utf16, Fs, Utf16Path};

verus! {

/// The launcher's P&S category — its UID3.
pub const CATEGORY: u32 = 0xE0AA_0000;

/// The launcher's UID3, for a caller that needs to *start* it. The same number as
/// [`CATEGORY`]; two different facts that happen to coincide.
pub const LAUNCHER_UID: u32 = CATEGORY;

/// The key bumped to say "there is a request waiting". The value carries nothing but change.
pub const OPEN_URL_KEY: u32 = 101;

/// The key bumped to say "there is a notice waiting to be delivered".
pub const NOTICE_KEY: u32 = 102;

/// Where a notice waits until the daemon delivers it.
pub const NOTICE_FILE: &'static str = "C:\\Data\\launcher\\notice.dat";

/// Where the payload is written: under `C:\Data`, which needs no capability to write.
pub const REQUEST_FILE: &'static str = "C:\\Data\\launcher\\openurl.dat";

/// The directory holding both, created blind before every write. The trailing separator is
/// load-bearing: `RFs::MkDirAll` drops the last component when there is none.
const REQUEST_DIR: &'static str = "C:\\Data\\launcher\\";

/// The longest URL (or notice) carried, in bytes. A sanity limit, not a protocol one.
pub const MAX_URL: usize = 1024;

/// The request file, as a model.
pub open spec fn request_path() -> Seq<u16> {
    utf16(REQUEST_FILE@)
}

/// The notice file, as a model.
pub open spec fn notice_path() -> Seq<u16> {
    utf16(NOTICE_FILE@)
}

/// Whether `bytes` can be carried: not empty, and no longer than [`MAX_URL`].
pub open spec fn carried(bytes: Seq<u8>) -> bool {
    0 < bytes.len() <= MAX_URL
}

/// What a reader takes from a file holding `bytes`: its text, when it is text and could have
/// been carried.
pub open spec fn payload(bytes: Seq<u8>) -> Option<Seq<char>> {
    if carried(bytes) && valid_utf8(bytes) {
        Some(decode_utf8(bytes))
    } else {
        None
    }
}

/// What a poster leaves behind: the files, with `path` now holding `text` (the temporary
/// name beside it gone) when the write went through, and nothing but that temporary name
/// touched when it did not.
pub open spec fn posted(
    before: fs::Files,
    after: fs::Files,
    path: Seq<u16>,
    text: Seq<u8>,
    r: Result<()>,
) -> bool {
    &&& r is Ok ==> after == before.remove(tmp_of(path)).insert(path, text)
    &&& r is Err ==> after.remove(tmp_of(path)) == before.remove(tmp_of(path))
}

fn channel_path(which: &'static str) -> (r: Result<Utf16Path>)
    requires
        which@ == REQUEST_FILE@ || which@ == NOTICE_FILE@,
    ensures
        r matches Ok(p) && p@ == utf16(which@),
{
    proof {
        reveal_strlit("C:\\Data\\launcher\\openurl.dat");
        reveal_strlit("C:\\Data\\launcher\\notice.dat");
        lemma_utf16_len(which@);
    }
    match Utf16Path::new(which) {
        Ok(p) => Ok(p),
        Err(_) => Err(Error::Argument),
    }
}

fn post<F: Fs>(fs: &mut F, which: &'static str, text: &str) -> (r: Result<()>)
    requires
        old(fs).inv(),
        which@ == REQUEST_FILE@ || which@ == NOTICE_FILE@,
    ensures
        final(fs).inv(),
        final(fs).private_dir() == old(fs).private_dir(),
        final(fs).handles().dom().subset_of(old(fs).handles().dom()),
        !carried(text.spec_bytes()) ==> r == Err::<(), Error>(Error::Argument) && *final(fs)
            == *old(fs),
        carried(text.spec_bytes()) ==> posted(
            old(fs).files(),
            final(fs).files(),
            utf16(which@),
            text.spec_bytes(),
            r,
        ),
        old(fs).steady() ==> final(fs).steady(),
        final(fs).room() + 1 >= old(fs).room(),
        old(fs).steady() && old(fs).room() > 0 && carried(text.spec_bytes()) ==> r is Ok,
{
    proof {
        reveal_strlit("C:\\Data\\launcher\\openurl.dat");
        reveal_strlit("C:\\Data\\launcher\\notice.dat");
        reveal_strlit(".tmp");
        lemma_utf16_len(which@);
        lemma_utf16_len(".tmp"@);
    }
    let n = text.as_bytes().len();
    if n == 0 || n > MAX_URL {
        return Err(Error::Argument);
    }
    let dir = fs::encode_utf16(REQUEST_DIR);
    let _ = fs.mkdir(dir.as_slice());
    let p = channel_path(which)?;
    fs::write_atomic(fs, &p, text.as_bytes())
}

fn take<F: Fs>(fs: &mut F, which: &'static str) -> (r: Option<String>)
    requires
        old(fs).inv(),
        which@ == REQUEST_FILE@ || which@ == NOTICE_FILE@,
    ensures
        final(fs).inv(),
        final(fs).private_dir() == old(fs).private_dir(),
        final(fs).handles().dom().subset_of(old(fs).handles().dom()),
        final(fs).files() == old(fs).files().remove(utf16(which@)) || final(fs).files() == old(
            fs,
        ).files(),
        !old(fs).files().contains_key(utf16(which@)) ==> r is None && final(fs).files() == old(
            fs,
        ).files(),
        r matches Some(s) ==> old(fs).files().contains_key(utf16(which@)) && payload(
            old(fs).files()[utf16(which@)],
        ) == Some(s@),
        old(fs).steady() ==> final(fs).steady(),
        final(fs).room() + 1 >= old(fs).room(),
        old(fs).steady() && old(fs).room() > 0 && readable(old(fs).files(), utf16(which@))
            && old(fs).files().contains_key(utf16(which@)) ==> final(fs).files() == old(fs).files().remove(
            utf16(which@),
        ) && (r is Some <==> payload(old(fs).files()[utf16(which@)]) is Some),
{
    let path = match channel_path(which) {
        Ok(p) => p,
        Err(_) => {
            return None;
        },
    };
    let bytes = match fs::read(fs, &path) {
        Ok(Some(b)) => b,
        _ => {
            return None;
        },
    };
    // Removed before the caller ever sees it: if acting on it takes the process down, it must
    // not still be here to do it again on the next start.
    let _ = fs.delete(path.as_units());
    if bytes.len() == 0 || bytes.len() > MAX_URL {
        return None;
    }
    string_from_utf8(bytes.as_slice())
}

/// Write the payload of a request to open `url`, without ringing the bell.
/// [`Error::Argument`] for an empty URL or one longer than [`MAX_URL`] bytes.
pub fn write_request<F: Fs>(fs: &mut F, url: &str) -> (r: Result<()>)
    requires
        old(fs).inv(),
    ensures
        final(fs).inv(),
        final(fs).private_dir() == old(fs).private_dir(),
        final(fs).handles().dom().subset_of(old(fs).handles().dom()),
        !carried(url.spec_bytes()) ==> r == Err::<(), Error>(Error::Argument) && *final(fs)
            == *old(fs),
        carried(url.spec_bytes()) ==> posted(
            old(fs).files(),
            final(fs).files(),
            request_path(),
            url.spec_bytes(),
            r,
        ),
        old(fs).steady() ==> final(fs).steady(),
        final(fs).room() + 1 >= old(fs).room(),
        old(fs).steady() && old(fs).room() > 0 && carried(url.spec_bytes()) ==> r is Ok,
{
    post(fs, REQUEST_FILE, url)
}

/// Take the pending request, if there is one, removing it. `None` when nothing is waiting,
/// and for a file that is empty, too long, or not text — which is still removed, so a bad file
/// cannot wedge the channel.
pub fn take_request<F: Fs>(fs: &mut F) -> (r: Option<String>)
    requires
        old(fs).inv(),
    ensures
        final(fs).inv(),
        final(fs).private_dir() == old(fs).private_dir(),
        final(fs).handles().dom().subset_of(old(fs).handles().dom()),
        final(fs).files() == old(fs).files().remove(request_path()) || final(fs).files() == old(
            fs,
        ).files(),
        !old(fs).files().contains_key(request_path()) ==> r is None && final(fs).files() == old(
            fs,
        ).files(),
        r matches Some(s) ==> old(fs).files().contains_key(request_path()) && payload(
            old(fs).files()[request_path()],
        ) == Some(s@),
        old(fs).steady() ==> final(fs).steady(),
        final(fs).room() + 1 >= old(fs).room(),
        old(fs).steady() && old(fs).room() > 0 && readable(old(fs).files(), request_path())
            && old(fs).files().contains_key(request_path()) ==> final(fs).files() == old(fs).files().remove(
            request_path(),
        ) && (r is Some <==> payload(old(fs).files()[request_path()]) is Some),
{
    take(fs, REQUEST_FILE)
}

/// Leave a line for the messaging daemon to deliver to the Inbox.
/// [`Error::Argument`] for an empty line or one longer than [`MAX_URL`] bytes.
pub fn post_notice<F: Fs>(fs: &mut F, text: &str) -> (r: Result<()>)
    requires
        old(fs).inv(),
    ensures
        final(fs).inv(),
        final(fs).private_dir() == old(fs).private_dir(),
        final(fs).handles().dom().subset_of(old(fs).handles().dom()),
        !carried(text.spec_bytes()) ==> r == Err::<(), Error>(Error::Argument) && *final(fs)
            == *old(fs),
        carried(text.spec_bytes()) ==> posted(
            old(fs).files(),
            final(fs).files(),
            notice_path(),
            text.spec_bytes(),
            r,
        ),
        old(fs).steady() ==> final(fs).steady(),
        final(fs).room() + 1 >= old(fs).room(),
        old(fs).steady() && old(fs).room() > 0 && carried(text.spec_bytes()) ==> r is Ok,
{
    post(fs, NOTICE_FILE, text)
}

/// Take the pending notice, if any, removing it.
pub fn take_notice<F: Fs>(fs: &mut F) -> (r: Option<String>)
    requires
        old(fs).inv(),
    ensures
        final(fs).inv(),
        final(fs).private_dir() == old(fs).private_dir(),
        final(fs).handles().dom().subset_of(old(fs).handles().dom()),
        final(fs).files() == old(fs).files().remove(notice_path()) || final(fs).files() == old(
            fs,
        ).files(),
        !old(fs).files().contains_key(notice_path()) ==> r is None && final(fs).files() == old(
            fs,
        ).files(),
        r matches Some(s) ==> old(fs).files().contains_key(notice_path()) && payload(
            old(fs).files()[notice_path()],
        ) == Some(s@),
        old(fs).steady() ==> final(fs).steady(),
        final(fs).room() + 1 >= old(fs).room(),
        old(fs).steady() && old(fs).room() > 0 && readable(old(fs).files(), notice_path())
            && old(fs).files().contains_key(notice_path()) ==> final(fs).files() == old(fs).files().remove(
            notice_path(),
        ) && (r is Some <==> payload(old(fs).files()[notice_path()]) is Some),
{
    take(fs, NOTICE_FILE)
}

/// What a request carries is what the reader takes: a URL that could be posted comes back
/// as itself, and the two lanes are different files, so a notice never consumes a request.
pub proof fn lemma_request_round_trip(url: Seq<char>)
    ensures
        carried(encode_utf8(url)) ==> payload(encode_utf8(url)) == Some(url),
        request_path() != notice_path(),
        request_path() != tmp_of(notice_path()),
        notice_path() != tmp_of(request_path()),
{
    encode_utf8_valid_utf8(url);
    encode_utf8_decode_utf8(url);
    reveal_strlit("C:\\Data\\launcher\\openurl.dat");
    reveal_strlit("C:\\Data\\launcher\\notice.dat");
    let r = REQUEST_FILE@;
    let n = NOTICE_FILE@;
    assert(r.subrange(0, 17) =~= n.subrange(0, 17));
    lemma_utf16_prefix_differs(r, n, 17);
    lemma_utf16_ascii_len(r);
    lemma_utf16_ascii_len(n);
    reveal_strlit(".tmp");
    lemma_utf16_ascii_len(".tmp"@);
}

proof fn lemma_utf16_ascii_len(s: Seq<char>)
    requires
        forall|i: int| 0 <= i < s.len() ==> (#[trigger] s[i] as u32) < 0x80,
    ensures
        utf16(s).len() == s.len(),
    decreases s.len(),
{
    if s.len() > 0 {
        let d = s.drop_last();
        assert forall|i: int| 0 <= i < d.len() implies (#[trigger] d[i] as u32) < 0x80 by {
            assert(d[i] == s[i]);
        }
        lemma_utf16_ascii_len(d);
        assert(s.last() == s[s.len() - 1]);
    }
}

proof fn lemma_utf16_prefix_differs(a: Seq<char>, b: Seq<char>, k: int)
    requires
        0 <= k < a.len(),
        k < b.len(),
        a.subrange(0, k) == b.subrange(0, k),
        a[k] != b[k],
        (a[k] as u32) < 0x80,
        (b[k] as u32) < 0x80,
    ensures
        utf16(a) != utf16(b),
{
    lemma_utf16_split(a, k);
    lemma_utf16_split(b, k);
    let pa = utf16(a.subrange(0, k));
    let x: u32 = a[k] as u32;
    let y: u32 = b[k] as u32;
    char_u32_cast(a[k], x);
    char_u32_cast(b[k], y);
    assert(x != y);
    assert(x < 0x80 && y < 0x80 && x != y ==> (x as u16) != (y as u16)) by (bit_vector);
    assert(utf16(a)[pa.len() as int] != utf16(b)[pa.len() as int]);
}

proof fn lemma_utf16_split(a: Seq<char>, k: int)
    requires
        0 <= k < a.len(),
        (a[k] as u32) < 0x80,
    ensures
        utf16(a).len() > utf16(a.subrange(0, k)).len(),
        utf16(a)[utf16(a.subrange(0, k)).len() as int] == a[k] as u32 as u16,
        utf16(a).subrange(0, utf16(a.subrange(0, k)).len() as int) == utf16(a.subrange(0, k)),
    decreases a.len(),
{
    if k < a.len() - 1 {
        let d = a.drop_last();
        assert(d.subrange(0, k) =~= a.subrange(0, k));
        assert(d[k] == a[k]);
        lemma_utf16_split(d, k);
        let u = utf16(d);
        assert(utf16(a) == u + crate::fs::utf16_char(a.last()));
        assert(utf16(a).subrange(0, utf16(a.subrange(0, k)).len() as int) =~= u.subrange(
            0,
            utf16(a.subrange(0, k)).len() as int,
        ));
    } else {
        assert(a.drop_last() =~= a.subrange(0, k));
        assert(a.last() == a[k]);
        let u = utf16(a.subrange(0, k));
        assert(utf16(a) == u + crate::fs::utf16_char(a[k]));
        assert(utf16(a).subrange(0, u.len() as int) =~= u);
    }
}

/// A request survives the trip and is consumed once: after a request for `url` is posted,
/// the file holds exactly what a reader takes as `url`, and once the reader has removed it
/// nothing is left to take a second time.
pub proof fn lemma_request_taken_once(files: fs::Files, url: Seq<char>)
    requires
        carried(encode_utf8(url)),
    ensures
        ({
            let after = files.remove(tmp_of(request_path())).insert(request_path(), encode_utf8(url));
            &&& posted(files, after, request_path(), encode_utf8(url), Ok(()))
            &&& after.contains_key(request_path())
            &&& payload(after[request_path()]) == Some(url)
            &&& !after.remove(request_path()).contains_key(request_path())
        }),
{
    lemma_request_round_trip(url);
}

} // verus!
