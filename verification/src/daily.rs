//! What is on the calendar in the next few days, for a home screen to show at a glance.
//!
//! Not the reminder queue of [`crate::agenda`]: that carries only events with a reminder, at
//! the reminder's instant, and entries leave it as they fire. A reminder happens once; this is
//! a thing that is *true for a while*. Same two processes, same directory — a different file,
//! because they are different facts.
//!
//! The calendar writes it on every change. The file is only as fresh as the last time the
//! calendar ran, which is why the window is a week, and why the reader skips what is over: a
//! stale file shows **less**, never something wrong.

use vstd::prelude::*;
use vstd::string::StringSliceAdditionalSpecFns;
use vstd::utf8::*;

use crate::codec::{
    cut_text, cut_utf8, get_u16, get_u64, le16, le_i64, lemma_cut_text, lemma_i64_bits,
    lemma_read16_le16, lemma_read64_le64, push_bytes, push_u16, push_u64, read16, read64,
    string_from_utf8, truncate_on_boundary,
};
use crate::error::{Error, Result};
use crate::fs::{self, lemma_utf16_len, readable, tmp_of, utf16, Fs, Utf16Path};

verus! {

broadcast use {vstd::seq::group_seq_axioms, vstd::slice::group_slice_axioms};

/// The P&S category: the launcher's, shared with [`crate::intent`] and [`crate::agenda`].
pub const CATEGORY: u32 = crate::intent::CATEGORY;

/// The key bumped to say "the day changed". 103 is the reminder queue's; this is the next.
pub const DAILY_KEY: u32 = 104;

/// Where the digest lives: beside the reminder queue, under `C:\Data`.
pub const DAILY_FILE: &'static str = "C:\\Data\\launcher\\daily.dat";

/// The directory holding it, with the trailing separator `RFs::MkDirAll` needs.
const DAILY_DIR: &'static str = "C:\\Data\\launcher\\";

/// File magic, `CALD`: distinct from the queue's so neither can be read as the other.
pub const MAGIC: [u8; 4] = [0x43, 0x41, 0x4c, 0x44];

/// Format version. A reader that does not know a version answers empty rather than guessing.
pub const VERSION: u16 = 1;

/// How many occurrences the digest carries.
pub const MAX_ENTRIES: usize = 32;

/// How far ahead the writer should look. Not enforced here: the file is whatever was written.
pub const WINDOW_DAYS: i64 = 7;

/// The longest title, in bytes.
pub const MAX_TITLE: usize = 64;

/// `start`, `end`, flags, and the title's length.
pub const ENTRY_HEADER: usize = 18;

/// Magic, version, count.
pub const FILE_HEADER: usize = 8;

/// Set when the occurrence covers whole days and has no meaningful clock time.
pub const FLAG_ALL_DAY: u8 = 1;

/// One occurrence, denormalised: when it runs and what it is called.
#[derive(Clone, Debug, PartialEq, Eq)]
pub struct Entry {
    /// When it starts, UTC seconds.
    pub start: i64,
    /// When it ends, UTC seconds. Equal to `start` for something with no duration.
    pub end: i64,
    /// Whole-day: show no clock time for it.
    pub all_day: bool,
    /// What it is called.
    pub title: String,
}

/// An occurrence as a value: start, end, whole-day, title.
pub type Occurrence = (i64, i64, bool, Seq<char>);

impl View for Entry {
    type V = Occurrence;

    open spec fn view(&self) -> Occurrence {
        (self.start, self.end, self.all_day, self.title@)
    }
}

impl Entry {
    pub fn new(start: i64, end: i64, all_day: bool, title: &str) -> (r: Self)
        ensures
            r.start == start,
            r.end == end,
            r.all_day == all_day,
            r.title@ == title@,
    {
        Entry { start, end, all_day, title: title.to_owned() }
    }
}

/// A whole list of occurrences as values.
pub open spec fn models(v: Seq<Entry>) -> Seq<Occurrence> {
    v.map_values(|e: Entry| e@)
}

/// How many of `n` occurrences the file keeps.
pub open spec fn kept(n: int) -> int {
    if n < MAX_ENTRIES {
        n
    } else {
        MAX_ENTRIES as int
    }
}

/// A title as stored: cut to [`MAX_TITLE`] bytes on a character boundary.
pub open spec fn stored_title(t: Seq<char>) -> Seq<u8> {
    cut_utf8(encode_utf8(t), MAX_TITLE as int)
}

/// An occurrence as it comes back from the file.
pub open spec fn stored(e: Occurrence) -> Occurrence {
    (e.0, e.1, e.2, cut_text(e.3, MAX_TITLE as int))
}

/// The flag byte for an occurrence.
pub open spec fn flag_byte(all_day: bool) -> u8 {
    if all_day {
        FLAG_ALL_DAY
    } else {
        0
    }
}

/// The bytes of one occurrence.
pub open spec fn entry_bytes(e: Occurrence) -> Seq<u8> {
    let t = stored_title(e.3);
    le_i64(e.0) + le_i64(e.1) + seq![flag_byte(e.2), t.len() as u8] + t
}

/// The bytes of a run of occurrences, in order.
pub open spec fn entries_bytes(s: Seq<Occurrence>) -> Seq<u8>
    decreases s.len(),
{
    if s.len() == 0 {
        Seq::empty()
    } else {
        entries_bytes(s.drop_last()) + entry_bytes(s.last())
    }
}

/// The file header for `n` occurrences.
pub open spec fn header(n: int) -> Seq<u8> {
    MAGIC@ + le16(VERSION) + le16(n as u16)
}

/// The file for a digest: the first [`MAX_ENTRIES`] occurrences, titles cut to [`MAX_TITLE`].
pub open spec fn spec_encode(s: Seq<Occurrence>) -> Seq<u8> {
    let k = s.take(kept(s.len() as int));
    header(k.len() as int) + entries_bytes(k)
}

/// `n` occurrences read from `b` starting at `at`, or `None` when they are not all there.
pub open spec fn parse(b: Seq<u8>, at: int, n: nat) -> Option<Seq<Occurrence>>
    decreases n,
{
    if n == 0 {
        Some(Seq::empty())
    } else if at + ENTRY_HEADER > b.len() {
        None
    } else {
        let len = b[at + 17] as int;
        let start = at + ENTRY_HEADER;
        let title = b.subrange(start, start + len);
        if len > MAX_TITLE || start + len > b.len() || !valid_utf8(title) {
            None
        } else {
            match parse(b, start + len, (n - 1) as nat) {
                Some(rest) => Some(
                    seq![
                        (
                            read64(b, at) as i64,
                            read64(b, at + 8) as i64,
                            b[at + 16] & FLAG_ALL_DAY != 0,
                            decode_utf8(title),
                        ),
                    ] + rest,
                ),
                None => None,
            }
        }
    }
}

/// The digest a file holds, or `None` when it is not one.
pub open spec fn spec_decode(b: Seq<u8>) -> Option<Seq<Occurrence>> {
    if b.len() < FILE_HEADER || b.subrange(0, 4) != MAGIC@ || read16(b, 4) != VERSION
        || read16(b, 6) > MAX_ENTRIES {
        None
    } else {
        parse(b, FILE_HEADER as int, read16(b, 6) as nat)
    }
}

/// `p` in front of what `o` holds.
pub open spec fn prepend(p: Seq<Occurrence>, o: Option<Seq<Occurrence>>) -> Option<
    Seq<Occurrence>,
> {
    match o {
        Some(x) => Some(p + x),
        None => None,
    }
}

/// Serialise a digest. Little-endian, occurrences past [`MAX_ENTRIES`] dropped, titles cut on
/// a character boundary — so the file never carries bytes that are not UTF-8.
pub fn encode(entries: &[Entry]) -> (r: Vec<u8>)
    ensures
        r@ == spec_encode(models(entries@)),
{
    let ghost m = models(entries@);
    let n = if entries.len() < MAX_ENTRIES {
        entries.len()
    } else {
        MAX_ENTRIES
    };
    let ghost k = m.take(n as int);
    let mut out: Vec<u8> = Vec::new();
    push_bytes(&mut out, &MAGIC);
    push_u16(&mut out, VERSION);
    push_u16(&mut out, n as u16);
    assert(out@ =~= header(n as int));
    let mut i: usize = 0;
    while i < n
        invariant
            n <= entries.len(),
            n <= MAX_ENTRIES,
            m == models(entries@),
            k == m.take(n as int),
            i <= n,
            out@ == header(n as int) + entries_bytes(k.take(i as int)),
        decreases n - i,
    {
        let e = &entries[i];
        let title = truncate_on_boundary(e.title.as_str(), MAX_TITLE);
        let tb = title.as_bytes();
        proof {
            assert(m[i as int] == e@);
            assert(tb@ == stored_title(e.title@));
        }
        let ghost before = out@;
        push_u64(&mut out, e.start as u64);
        push_u64(&mut out, e.end as u64);
        out.push(if e.all_day { FLAG_ALL_DAY } else { 0 });
        out.push(tb.len() as u8);
        push_bytes(&mut out, tb);
        proof {
            let ki = k.take(i as int);
            let kn = k.take(i + 1);
            assert(kn.drop_last() =~= ki);
            assert(kn.last() == e@);
            assert(le_i64(e.start) == crate::codec::le64(e.start as u64));
            assert(le_i64(e.end) == crate::codec::le64(e.end as u64));
            assert(out@ =~= before + entry_bytes(e@));
        }
        i = i + 1;
    }
    proof {
        assert(k.take(n as int) =~= k);
        assert(k.len() == n);
    }
    out
}

/// Parse a digest, or `None` if this is not one. Every failure is `None`: a home screen that
/// refused to draw over a bad cache would be one bad write away from disabled.
pub fn decode(bytes: &[u8]) -> (r: Option<Vec<Entry>>)
    ensures
        match r {
            Some(v) => spec_decode(bytes@) == Some(models(v@)),
            None => spec_decode(bytes@) is None,
        },
{
    let ghost b = bytes@;
    if bytes.len() < FILE_HEADER || bytes[0] != MAGIC[0] || bytes[1] != MAGIC[1] || bytes[2]
        != MAGIC[2] || bytes[3] != MAGIC[3] {
        proof {
            if b.len() >= FILE_HEADER {
                assert(b.subrange(0, 4)[0] == b[0]);
                assert(b.subrange(0, 4)[1] == b[1]);
                assert(b.subrange(0, 4)[2] == b[2]);
                assert(b.subrange(0, 4)[3] == b[3]);
            }
        }
        return None;
    }
    assert(b.subrange(0, 4) =~= MAGIC@);
    if get_u16(bytes, 4) != VERSION {
        return None;
    }
    let count = get_u16(bytes, 6) as usize;
    if count > MAX_ENTRIES {
        return None;
    }
    let mut out: Vec<Entry> = Vec::new();
    let mut at: usize = FILE_HEADER;
    let mut k: usize = 0;
    assert(models(out@) =~= Seq::<Occurrence>::empty());
    assert(Seq::<Occurrence>::empty() + parse(b, at as int, count as nat)->0 =~= parse(
        b,
        at as int,
        count as nat,
    )->0);
    while k < count
        invariant
            b == bytes@,
            FILE_HEADER <= at <= bytes.len(),
            k <= count,
            count <= MAX_ENTRIES,
            spec_decode(b) == parse(b, FILE_HEADER as int, count as nat),
            parse(b, FILE_HEADER as int, count as nat) == prepend(
                models(out@),
                parse(b, at as int, (count - k) as nat),
            ),
        decreases count - k,
    {
        if bytes.len() - at < ENTRY_HEADER {
            return None;
        }
        let start = get_u64(bytes, at);
        let end = get_u64(bytes, at + 8);
        let flags = bytes[at + 16];
        let len = bytes[at + 17] as usize;
        let from = at + ENTRY_HEADER;
        if len > MAX_TITLE || bytes.len() - from < len {
            return None;
        }
        let piece = vstd::slice::slice_subrange(bytes, from, from + len);
        let title = match string_from_utf8(piece) {
            Some(t) => t,
            None => {
                return None;
            },
        };
        let ghost rest = parse(b, (from + len) as int, (count - k - 1) as nat);
        let ghost before = models(out@);
        let e = Entry {
            start: start as i64,
            end: end as i64,
            all_day: flags & FLAG_ALL_DAY != 0,
            title,
        };
        out.push(e);
        proof {
            assert(piece@ =~= b.subrange(from as int, from + len));
            assert(models(out@) =~= before.push(e@));
            if rest is Some {
                assert(before + (seq![e@] + rest->0) =~= before.push(e@) + rest->0);
            }
        }
        at = from + len;
        k = k + 1;
    }
    Some(out)
}

/// The digest's path, as a model.
pub open spec fn daily_path() -> Seq<u16> {
    utf16(DAILY_FILE@)
}

/// The digest the file at [`DAILY_FILE`] holds, or empty.
pub open spec fn digest_of(files: fs::Files) -> Seq<Occurrence> {
    if files.contains_key(daily_path()) {
        match spec_decode(files[daily_path()]) {
            Some(q) => q,
            None => Seq::empty(),
        }
    } else {
        Seq::empty()
    }
}

fn daily_file() -> (r: Result<Utf16Path>)
    ensures
        r matches Ok(p) && p@ == daily_path(),
{
    proof {
        reveal_strlit("C:\\Data\\launcher\\daily.dat");
        lemma_utf16_len(DAILY_FILE@);
    }
    match Utf16Path::new(DAILY_FILE) {
        Ok(p) => Ok(p),
        Err(_) => Err(Error::Argument),
    }
}

/// Write the digest, without ringing the bell. Creates the directory first.
pub fn write<F: Fs>(fs: &mut F, entries: &[Entry]) -> (r: Result<()>)
    requires
        old(fs).inv(),
    ensures
        final(fs).inv(),
        final(fs).private_dir() == old(fs).private_dir(),
        final(fs).handles().dom().subset_of(old(fs).handles().dom()),
        r is Ok ==> final(fs).files() == old(fs).files().remove(tmp_of(daily_path())).insert(
            daily_path(),
            spec_encode(models(entries@)),
        ),
        r is Err ==> final(fs).files().remove(tmp_of(daily_path())) == old(fs).files().remove(
            tmp_of(daily_path()),
        ),
        old(fs).steady() ==> final(fs).steady(),
        final(fs).room() + 1 >= old(fs).room(),
        old(fs).steady() && old(fs).room() > 0 ==> r is Ok,
{
    proof {
        reveal_strlit("C:\\Data\\launcher\\daily.dat");
        reveal_strlit(".tmp");
        lemma_utf16_len(DAILY_FILE@);
        lemma_utf16_len(".tmp"@);
    }
    let dir = fs::encode_utf16(DAILY_DIR);
    let _ = fs.mkdir(dir.as_slice());
    let p = daily_file()?;
    let bytes = encode(entries);
    fs::write_atomic(fs, &p, bytes.as_slice())
}

/// The digest as it stands. Empty when there is no file, or the file is not one of ours;
/// empty too when the file system fails to hand it over.
pub fn read<F: Fs>(fs: &mut F) -> (r: Vec<Entry>)
    requires
        old(fs).inv(),
    ensures
        final(fs).inv(),
        final(fs).private_dir() == old(fs).private_dir(),
        final(fs).files() == old(fs).files(),
        final(fs).handles() == old(fs).handles(),
        models(r@) == digest_of(old(fs).files()) || r@.len() == 0,
        !old(fs).files().contains_key(daily_path()) ==> r@.len() == 0,
        old(fs).steady() ==> final(fs).steady(),
        final(fs).room() + 1 >= old(fs).room(),
        old(fs).steady() && old(fs).room() > 0 && readable(old(fs).files(), daily_path()) ==> models(
            r@,
        ) == digest_of(old(fs).files()),
{
    let p = match daily_file() {
        Ok(p) => p,
        Err(_) => {
            return Vec::new();
        },
    };
    match fs::read(fs, &p) {
        Ok(Some(bytes)) => match decode(bytes.as_slice()) {
            Some(v) => v,
            None => Vec::new(),
        },
        _ => Vec::new(),
    }
}

/// Whether an occurrence is still ahead at `now`: by its end (or its start, when that is
/// later), so a meeting under way stays on the screen.
pub open spec fn is_ahead(e: Occurrence, now: i64) -> bool {
    (if e.1 > e.0 {
        e.1
    } else {
        e.0
    }) > now
}

/// `a` sorts no later than `b`: by start, then by end.
pub open spec fn sorts_before(a: Occurrence, b: Occurrence) -> bool {
    a.0 < b.0 || (a.0 == b.0 && a.1 <= b.1)
}

/// `s` in order by [`sorts_before`].
pub open spec fn sorted(s: Seq<Occurrence>) -> bool {
    forall|i: int, j: int| 0 <= i < j < s.len() ==> sorts_before(s[i], s[j])
}

/// Where `x` goes in a sorted `s` so that it lands after everything that sorts no later than
/// it: the number of leading elements that sort no later than `x`.
pub open spec fn slot(s: Seq<Occurrence>, x: Occurrence) -> int
    decreases s.len(),
{
    if s.len() == 0 {
        0
    } else if sorts_before(s[0], x) {
        1 + slot(s.drop_first(), x)
    } else {
        0
    }
}

/// The stable sort of `s` by [`sorts_before`]: each element in turn placed after everything
/// that sorts no later than it, so equal keys keep the order they came in.
pub open spec fn stable_sort(s: Seq<Occurrence>) -> Seq<Occurrence>
    decreases s.len(),
{
    if s.len() == 0 {
        s
    } else {
        let r = stable_sort(s.drop_last());
        r.insert(slot(r, s.last()), s.last())
    }
}

/// What [`upcoming`] shows of a digest at `now`: what is still ahead, soonest first, at most
/// `limit` of it.
pub open spec fn upcoming_of(q: Seq<Occurrence>, now: i64, limit: nat) -> Seq<Occurrence> {
    let s = stable_sort(q.filter(|e: Occurrence| is_ahead(e, now)));
    if s.len() <= limit {
        s
    } else {
        s.take(limit as int)
    }
}

fn duplicate(e: &Entry) -> (c: Entry)
    ensures
        c@ == e@,
{
    Entry { start: e.start, end: e.end, all_day: e.all_day, title: e.title.clone() }
}

fn ahead(all: &Vec<Entry>, now: i64) -> (r: Vec<Entry>)
    ensures
        models(r@) == models(all@).filter(|e: Occurrence| is_ahead(e, now)),
{
    let ghost m = models(all@);
    let ghost p = |e: Occurrence| is_ahead(e, now);
    let mut out: Vec<Entry> = Vec::new();
    let mut i: usize = 0;
    proof {
        reveal(Seq::filter);
        assert(m.take(0).filter(p) =~= Seq::<Occurrence>::empty());
    }
    while i < all.len()
        invariant
            i <= all.len(),
            m == models(all@),
            p == (|e: Occurrence| is_ahead(e, now)),
            models(out@) == m.take(i as int).filter(p),
        decreases all.len() - i,
    {
        let ghost e = m[i as int];
        proof {
            assert(m.take(i + 1) =~= m.take(i as int).push(e));
            m.take(i as int).lemma_filter_push(e, p);
        }
        let last = if all[i].end > all[i].start {
            all[i].end
        } else {
            all[i].start
        };
        if last > now {
            let ghost o0 = models(out@);
            out.push(duplicate(&all[i]));
            assert(models(out@) =~= o0.push(e));
        }
        i = i + 1;
    }
    assert(m.take(all.len() as int) =~= m);
    out
}

fn sort_by_start(v: Vec<Entry>) -> (r: Vec<Entry>)
    ensures
        models(r@) == stable_sort(models(v@)),
{
    let ghost m = models(v@);
    let mut out: Vec<Entry> = Vec::new();
    let mut rest = v;
    let mut i: usize = 0;
    let n = rest.len();
    proof {
        assert(m.take(0) =~= Seq::<Occurrence>::empty());
    }
    while i < n
        invariant
            n == m.len(),
            i <= n,
            rest@.len() == n,
            models(rest@) == m,
            models(out@) == stable_sort(m.take(i as int)),
        decreases n - i,
    {
        let x = duplicate(&rest[i]);
        let ghost s = models(out@);
        let mut pos: usize = 0;
        assert(s.subrange(0, s.len() as int) =~= s);
        while pos < out.len() && (out[pos].start < x.start || (out[pos].start == x.start
            && out[pos].end <= x.end))
            invariant
                models(out@) == s,
                pos <= out.len(),
                i < n,
                n == m.len(),
                x@ == m[i as int],
                slot(s, x@) == pos + slot(s.subrange(pos as int, s.len() as int), x@),
            decreases out.len() - pos,
        {
            proof {
                let t = s.subrange(pos as int, s.len() as int);
                assert(t.drop_first() =~= s.subrange(pos + 1, s.len() as int));
                assert(t[0] == s[pos as int]);
            }
            pos = pos + 1;
        }
        proof {
            let t = s.subrange(pos as int, s.len() as int);
            if pos < out.len() {
                assert(t[0] == s[pos as int]);
            }
            assert(m.take(i + 1).drop_last() =~= m.take(i as int));
            assert(m.take(i + 1).last() == x@);
        }
        out.insert(pos, x);
        proof {
            assert(models(out@) =~= s.insert(pos as int, m[i as int]));
        }
        i = i + 1;
    }
    proof {
        assert(m.take(n as int) =~= m);
    }
    out
}

/// What is still ahead, soonest first, at most `limit` of them. "Ahead" is by *end*, so a
/// meeting that began ten minutes ago stays on the screen while it is happening.
pub fn upcoming<F: Fs>(fs: &mut F, now: i64, limit: usize) -> (r: Vec<Entry>)
    requires
        old(fs).inv(),
    ensures
        final(fs).inv(),
        final(fs).private_dir() == old(fs).private_dir(),
        final(fs).files() == old(fs).files(),
        final(fs).handles() == old(fs).handles(),
        models(r@) == upcoming_of(digest_of(old(fs).files()), now, limit as nat) || r@.len()
            == 0,
        !old(fs).files().contains_key(daily_path()) ==> r@.len() == 0,
        old(fs).steady() && old(fs).room() > 0 && readable(old(fs).files(), daily_path()) ==> models(
            r@,
        ) == upcoming_of(digest_of(old(fs).files()), now, limit as nat),
{
    let all = read(fs);
    let kept = ahead(&all, now);
    let mut sorted = sort_by_start(kept);
    proof {
        lemma_stable_sort_len(models(all@).filter(|e: Occurrence| is_ahead(e, now)));
    }
    let ghost s = models(sorted@);
    if sorted.len() > limit {
        sorted.truncate(limit);
        assert(models(sorted@) =~= s.take(limit as int));
    }
    proof {
        if all@.len() == 0 {
            reveal(Seq::filter);
            assert(models(all@) =~= Seq::<Occurrence>::empty());
        }
    }
    sorted
}

/// Sorting keeps the length.
pub proof fn lemma_stable_sort_len(s: Seq<Occurrence>)
    ensures
        stable_sort(s).len() == s.len(),
    decreases s.len(),
{
    if s.len() > 0 {
        lemma_stable_sort_len(s.drop_last());
        lemma_slot_bound(stable_sort(s.drop_last()), s.last());
    }
}

proof fn lemma_slot_bound(s: Seq<Occurrence>, x: Occurrence)
    ensures
        0 <= slot(s, x) <= s.len(),
    decreases s.len(),
{
    if s.len() > 0 {
        lemma_slot_bound(s.drop_first(), x);
    }
}

/// A digest the file can carry exactly: no more than [`MAX_ENTRIES`] occurrences, no title
/// over [`MAX_TITLE`] bytes.
pub open spec fn well_formed(q: Seq<Occurrence>) -> bool {
    &&& q.len() <= MAX_ENTRIES
    &&& forall|i: int| 0 <= i < q.len() ==> encode_utf8(#[trigger] q[i].3).len() <= MAX_TITLE
}

proof fn lemma_entries_front(s: Seq<Occurrence>)
    requires
        s.len() > 0,
    ensures
        entries_bytes(s) == entry_bytes(s[0]) + entries_bytes(s.drop_first()),
    decreases s.len(),
{
    if s.len() == 1 {
        assert(s.drop_last() =~= Seq::<Occurrence>::empty());
        assert(s.drop_first() =~= Seq::<Occurrence>::empty());
        assert(entries_bytes(s.drop_last()) == Seq::<u8>::empty());
        assert(entries_bytes(s.drop_first()) == Seq::<u8>::empty());
        assert(s.last() == s[0]);
        assert(entries_bytes(s) =~= entry_bytes(s[0]));
        assert(entry_bytes(s[0]) + Seq::<u8>::empty() =~= entry_bytes(s[0]));
    } else {
        let d = s.drop_last();
        lemma_entries_front(d);
        assert(d.drop_first() =~= s.drop_first().drop_last());
        assert(s.drop_first().last() == s.last());
        assert(d[0] == s[0]);
        assert(entries_bytes(s) =~= entry_bytes(s[0]) + entries_bytes(s.drop_first()));
    }
}

proof fn lemma_entry_fields(e: Occurrence, pre: Seq<u8>, tail: Seq<u8>)
    ensures
        ({
            let b = pre + entry_bytes(e) + tail;
            let at = pre.len() as int;
            let t = stored_title(e.3);
            &&& at + ENTRY_HEADER <= b.len()
            &&& read64(b, at) as i64 == e.0
            &&& read64(b, at + 8) as i64 == e.1
            &&& (b[at + 16] & FLAG_ALL_DAY != 0) == e.2
            &&& b[at + 17] == t.len()
            &&& t.len() <= MAX_TITLE
            &&& at + ENTRY_HEADER + t.len() <= b.len()
            &&& b.subrange(at + ENTRY_HEADER, at + ENTRY_HEADER + t.len()) == t
            &&& valid_utf8(t)
            &&& decode_utf8(t) == cut_text(e.3, MAX_TITLE as int)
        }),
{
    let b = pre + entry_bytes(e) + tail;
    let t = stored_title(e.3);
    lemma_cut_text(e.3, MAX_TITLE as int);
    encode_utf8_valid_utf8(cut_text(e.3, MAX_TITLE as int));
    let fl = seq![flag_byte(e.2), t.len() as u8];
    assert(b =~= pre + le_i64(e.0) + (le_i64(e.1) + fl + t + tail));
    lemma_read64_le64(e.0 as u64, pre, le_i64(e.1) + fl + t + tail);
    lemma_i64_bits(e.0);
    assert(b =~= (pre + le_i64(e.0)) + le_i64(e.1) + (fl + t + tail));
    lemma_read64_le64(e.1 as u64, pre + le_i64(e.0), fl + t + tail);
    lemma_i64_bits(e.1);
    let at = pre.len() as int;
    assert(b[at + 16] == flag_byte(e.2));
    assert(b[at + 17] == t.len() as u8);
    assert(1u8 & 1u8 != 0u8 && 0u8 & 1u8 == 0u8) by (bit_vector);
    let start = at + ENTRY_HEADER;
    assert(b.subrange(start, start + t.len()) =~= t);
}

proof fn lemma_parse_step(b: Seq<u8>, at: int, n: nat, t: Seq<u8>)
    requires
        n > 0,
        0 <= at,
        at + ENTRY_HEADER + t.len() <= b.len(),
        b[at + 17] == t.len(),
        t.len() <= MAX_TITLE,
        b.subrange(at + ENTRY_HEADER, at + ENTRY_HEADER + t.len()) == t,
        valid_utf8(t),
    ensures
        parse(b, at, n) == prepend(
            seq![
                (
                    read64(b, at) as i64,
                    read64(b, at + 8) as i64,
                    b[at + 16] & FLAG_ALL_DAY != 0,
                    decode_utf8(t),
                ),
            ],
            parse(b, at + ENTRY_HEADER + t.len(), (n - 1) as nat),
        ),
{
}

#[verifier::spinoff_prover]
#[verifier::rlimit(100)]
proof fn lemma_parse_entries(s: Seq<Occurrence>, pre: Seq<u8>, post: Seq<u8>)
    ensures
        parse(pre + entries_bytes(s) + post, pre.len() as int, s.len()) == Some(
            s.map_values(|e: Occurrence| stored(e)),
        ),
    decreases s.len(),
{
    let b = pre + entries_bytes(s) + post;
    if s.len() == 0 {
        assert(s.map_values(|e: Occurrence| stored(e)) =~= Seq::<Occurrence>::empty());
    } else {
        lemma_entries_front(s);
        let e = s[0];
        let rest = s.drop_first();
        let tail = entries_bytes(rest) + post;
        let pre2 = pre + entry_bytes(e);
        assert(b =~= pre + entry_bytes(e) + tail);
        assert(b =~= pre2 + entries_bytes(rest) + post);
        lemma_entry_fields(e, pre, tail);
        let t = stored_title(e.3);
        lemma_parse_step(b, pre.len() as int, s.len(), t);
        lemma_parse_entries(rest, pre2, post);
        assert(s.map_values(|e: Occurrence| stored(e)) =~= seq![stored(e)] + rest.map_values(
            |e: Occurrence| stored(e),
        ));
    }
}

/// What a file gives back of the digest it was written from: the first [`MAX_ENTRIES`]
/// occurrences, in order, flags intact, titles cut on a character boundary — and, for a
/// digest the file can carry exactly, the digest itself.
#[verifier::spinoff_prover]
#[verifier::rlimit(100)]
pub proof fn lemma_round_trip(q: Seq<Occurrence>)
    ensures
        spec_decode(spec_encode(q)) == Some(
            q.take(kept(q.len() as int)).map_values(|e: Occurrence| stored(e)),
        ),
        well_formed(q) ==> spec_decode(spec_encode(q)) == Some(q),
{
    let k = q.take(kept(q.len() as int));
    let h = header(k.len() as int);
    let b = spec_encode(q);
    assert(b =~= h + entries_bytes(k) + Seq::<u8>::empty());
    assert(b.subrange(0, 4) =~= MAGIC@);
    lemma_read16_le16(VERSION, MAGIC@, le16(k.len() as u16) + entries_bytes(k));
    assert(b =~= MAGIC@ + le16(VERSION) + (le16(k.len() as u16) + entries_bytes(k)));
    lemma_read16_le16(k.len() as u16, MAGIC@ + le16(VERSION), entries_bytes(k));
    assert(b =~= (MAGIC@ + le16(VERSION)) + le16(k.len() as u16) + entries_bytes(k));
    lemma_parse_entries(k, h, Seq::empty());
    if well_formed(q) {
        assert(k =~= q);
        assert forall|i: int| 0 <= i < q.len() implies #[trigger] stored(q[i]) == q[i] by {
            lemma_cut_text(q[i].3, MAX_TITLE as int);
        }
        assert(q.map_values(|e: Occurrence| stored(e)) =~= q);
    }
}

/// The reminder queue and the digest share a directory, and neither file reads as the other.
pub proof fn lemma_queue_is_not_a_digest(q: Seq<crate::agenda::Queued>, d: Seq<Occurrence>)
    ensures
        spec_decode(crate::agenda::spec_encode(q)) is None,
        crate::agenda::spec_decode(spec_encode(d)) is None,
{
    let a = crate::agenda::spec_encode(q);
    let b = spec_encode(d);
    assert(a[3] == crate::agenda::MAGIC[3]);
    assert(b[3] == MAGIC[3]);
    if a.len() >= FILE_HEADER {
        assert(a.subrange(0, 4)[3] != MAGIC@[3]);
    }
    if b.len() >= FILE_HEADER {
        assert(b.subrange(0, 4)[3] != crate::agenda::MAGIC@[3]);
    }
}

proof fn lemma_slot(s: Seq<Occurrence>, x: Occurrence)
    requires
        sorted(s),
    ensures
        0 <= slot(s, x) <= s.len(),
        forall|i: int| 0 <= i < slot(s, x) ==> sorts_before(#[trigger] s[i], x),
        slot(s, x) < s.len() ==> !sorts_before(s[slot(s, x)], x),
    decreases s.len(),
{
    if s.len() > 0 {
        let t = s.drop_first();
        assert(sorted(t)) by {
            assert forall|i: int, j: int| 0 <= i < j < t.len() implies sorts_before(t[i], t[j]) by {
                assert(t[i] == s[i + 1] && t[j] == s[j + 1]);
            }
        }
        lemma_slot(t, x);
        if sorts_before(s[0], x) {
            assert forall|i: int| 0 <= i < slot(s, x) implies sorts_before(#[trigger] s[i], x) by {
                if i > 0 {
                    assert(s[i] == t[i - 1]);
                }
            }
            if slot(s, x) < s.len() {
                assert(s[slot(s, x)] == t[slot(t, x)]);
            }
        }
    }
}

/// Sorting puts the digest in order by start, then end, keeps every occurrence exactly once,
/// and keeps its length.
pub proof fn lemma_stable_sort(s: Seq<Occurrence>)
    ensures
        sorted(stable_sort(s)),
        stable_sort(s).to_multiset() == s.to_multiset(),
        stable_sort(s).len() == s.len(),
    decreases s.len(),
{
    broadcast use vstd::seq_lib::group_to_multiset_ensures;

    if s.len() > 0 {
        let d = s.drop_last();
        let x = s.last();
        lemma_stable_sort(d);
        let r = stable_sort(d);
        lemma_slot(r, x);
        let p = slot(r, x);
        let out = r.insert(p, x);
        assert(sorted(out)) by {
            assert forall|i: int, j: int| 0 <= i < j < out.len() implies sorts_before(
                out[i],
                out[j],
            ) by {
                if j < p {
                    assert(out[i] == r[i] && out[j] == r[j]);
                } else if j == p {
                    assert(out[i] == r[i]);
                } else if i == p {
                    assert(out[j] == r[j - 1]);
                    assert(sorts_before(r[p], r[j - 1]) || p == j - 1);
                } else if i < p {
                    assert(out[i] == r[i] && out[j] == r[j - 1]);
                } else {
                    assert(out[i] == r[i - 1] && out[j] == r[j - 1]);
                }
            }
        }
        r.insert_ensures(p, x);
        assert(s =~= d.push(x));
        vstd::seq_lib::to_multiset_build(d, x);
        vstd::seq_lib::to_multiset_insert(r, p, x);
    }
}

/// What is ahead is shown soonest first and only that: every occurrence [`upcoming`] shows is
/// one of the digest's that is still ahead at `now`, they come by start and then by end, and
/// there are as many as are ahead, up to `limit`.
pub proof fn lemma_upcoming(q: Seq<Occurrence>, now: i64, limit: nat)
    ensures
        sorted(upcoming_of(q, now, limit)),
        forall|i: int|
            0 <= i < upcoming_of(q, now, limit).len() ==> is_ahead(
                #[trigger] upcoming_of(q, now, limit)[i],
                now,
            ) && q.contains(upcoming_of(q, now, limit)[i]),
        upcoming_of(q, now, limit).len() == if q.filter(|e: Occurrence| is_ahead(e, now)).len()
            <= limit {
            q.filter(|e: Occurrence| is_ahead(e, now)).len()
        } else {
            limit
        },
{
    broadcast use vstd::seq_lib::group_to_multiset_ensures;

    let p = |e: Occurrence| is_ahead(e, now);
    let f = q.filter(p);
    let t = stable_sort(f);
    lemma_stable_sort(f);
    let u = upcoming_of(q, now, limit);
    assert forall|i: int| 0 <= i < u.len() implies is_ahead(#[trigger] u[i], now) && q.contains(u[i]) by {
        assert(u[i] == t[i]);
        assert(t.contains(t[i]));
        assert(t.to_multiset().count(t[i]) > 0);
        assert(f.contains(t[i]));
        q.filter_lemma(p);
        q.lemma_filter_contains_rev(p, t[i]);
    }
}

} // verus!
