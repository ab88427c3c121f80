//! The queue of reminders waiting to fire, shared between an application and the daemon that
//! delivers them.
//!
//! The calendar writes the queue and `notifd` delivers from it. Neither depends on the other, so
//! the path, the key and the byte layout live here, in the one crate both already have.
//!
//! The file holds only the **next few** reminders, denormalised — an instant and a line of text.
//! It is a cache: the calendar rewrites it whenever anything with a reminder changes, and when
//! the two disagree the file is the one that is wrong.
//!
//! A reminder that has fired is one entry out of many, and the rest must survive — so
//! [`take_due`] writes the remainder back. An entry that fired and stayed would fire again on
//! every poll.

use vstd::prelude::*;
use vstd::string::StringSliceAdditionalSpecFns;
use vstd::utf8::*;

use crate::codec::{
    cut_text, cut_utf8, get_u16, get_u32, get_u64, le16, le32, le_i64, lemma_cut_text,
    lemma_i64_bits, lemma_read16_le16, lemma_read32_le32, lemma_read64_le64, push_bytes,
    push_u16, push_u32, push_u64, read16, read32, read64, string_from_utf8, truncate_on_boundary,
};
use crate::error::{Error, Result};
use crate::fs::{self, lemma_utf16_len, readable, tmp_of, utf16, Fs, Utf16Path};

verus! {

broadcast use {vstd::seq::group_seq_axioms, vstd::slice::group_slice_axioms};

/// The P&S category: the launcher's, the same one [`crate::intent`] uses.
pub const CATEGORY: u32 = crate::intent::CATEGORY;

/// The key bumped to say "the queue changed". The value carries nothing but change.
pub const AGENDA_KEY: u32 = 103;

/// Where the queue lives: under `C:\Data`, which needs no capability to write.
pub const AGENDA_FILE: &'static str = "C:\\Data\\launcher\\agenda.dat";

/// The directory holding it, which may not exist yet. The trailing separator matters:
/// `RFs::MkDirAll` drops the last component when there is none.
const AGENDA_DIR: &'static str = "C:\\Data\\launcher\\";

/// File magic, `CALA`: a file that is not this is rejected rather than parsed into nonsense.
pub const MAGIC: [u8; 4] = [0x43, 0x41, 0x4c, 0x41];

/// Format version. A reader that does not know a version answers empty rather than guessing.
pub const VERSION: u16 = 1;

/// How many reminders the queue carries.
pub const MAX_ENTRIES: usize = 32;

/// The longest reminder line, in bytes.
pub const MAX_TEXT: usize = 96;

/// The fixed part of an entry: `due`, `id`, and the text's length.
pub const ENTRY_HEADER: usize = 14;

/// The file header: magic, version, count.
pub const FILE_HEADER: usize = 8;

/// One waiting reminder.
#[derive(Clone, Debug, PartialEq, Eq)]
pub struct Reminder {
    /// When to fire, UTC seconds.
    pub due: i64,
    /// The writer's own identifier, echoed back untouched.
    pub id: u32,
    /// What the notice says.
    pub text: String,
}

/// A reminder as a value: when, which, and what it says.
pub type Queued = (i64, u32, Seq<char>);

impl View for Reminder {
    type V = Queued;

    open spec fn view(&self) -> Queued {
        (self.due, self.id, self.text@)
    }
}

impl Reminder {
    pub fn new(due: i64, id: u32, text: &str) -> (r: Self)
        ensures
            r.due == due,
            r.id == id,
            r.text@ == text@,
    {
        Reminder { due, id, text: text.to_owned() }
    }
}

/// A whole list of reminders as values.
pub open spec fn models(v: Seq<Reminder>) -> Seq<Queued> {
    v.map_values(|r: Reminder| r@)
}

/// How many of `n` entries the file keeps.
pub open spec fn kept(n: int) -> int {
    if n < MAX_ENTRIES {
        n
    } else {
        MAX_ENTRIES as int
    }
}

/// The text of an entry as stored: cut to [`MAX_TEXT`] bytes on a character boundary.
pub open spec fn stored_text(t: Seq<char>) -> Seq<u8> {
    cut_utf8(encode_utf8(t), MAX_TEXT as int)
}

/// An entry as it comes back from the file.
pub open spec fn stored(e: Queued) -> Queued {
    (e.0, e.1, cut_text(e.2, MAX_TEXT as int))
}

/// The bytes of one entry.
pub open spec fn entry_bytes(e: Queued) -> Seq<u8> {
    let t = stored_text(e.2);
    le_i64(e.0) + le32(e.1) + le16(t.len() as u16) + t
}

/// The bytes of a run of entries, in order.
pub open spec fn entries_bytes(s: Seq<Queued>) -> Seq<u8>
    decreases s.len(),
{
    if s.len() == 0 {
        Seq::empty()
    } else {
        entries_bytes(s.drop_last()) + entry_bytes(s.last())
    }
}

/// The file header for `n` entries.
pub open spec fn header(n: int) -> Seq<u8> {
    MAGIC@ + le16(VERSION) + le16(n as u16)
}

/// The file for a queue: the first [`MAX_ENTRIES`] entries, each text cut to [`MAX_TEXT`].
pub open spec fn spec_encode(s: Seq<Queued>) -> Seq<u8> {
    let k = s.take(kept(s.len() as int));
    header(k.len() as int) + entries_bytes(k)
}

/// `n` entries read from `b` starting at `at`, or `None` when they are not all there.
pub open spec fn parse(b: Seq<u8>, at: int, n: nat) -> Option<Seq<Queued>>
    decreases n,
{
    if n == 0 {
        Some(Seq::empty())
    } else if at + ENTRY_HEADER > b.len() {
        None
    } else {
        let len = read16(b, at + 12) as int;
        let start = at + ENTRY_HEADER;
        let text = b.subrange(start, start + len);
        if len > MAX_TEXT || start + len > b.len() || !valid_utf8(text) {
            None
        } else {
            match parse(b, start + len, (n - 1) as nat) {
                Some(rest) => Some(
                    seq![(read64(b, at) as i64, read32(b, at + 8), decode_utf8(text))] + rest,
                ),
                None => None,
            }
        }
    }
}

/// The queue a file holds, or `None` when it is not one: wrong magic, another version, a
/// count over [`MAX_ENTRIES`], or an entry that runs off the end or is not UTF-8.
pub open spec fn spec_decode(b: Seq<u8>) -> Option<Seq<Queued>> {
    if b.len() < FILE_HEADER || b.subrange(0, 4) != MAGIC@ || read16(b, 4) != VERSION
        || read16(b, 6) > MAX_ENTRIES {
        None
    } else {
        parse(b, FILE_HEADER as int, read16(b, 6) as nat)
    }
}

/// `p` in front of what `o` holds.
pub open spec fn prepend(p: Seq<Queued>, o: Option<Seq<Queued>>) -> Option<Seq<Queued>> {
    match o {
        Some(x) => Some(p + x),
        None => None,
    }
}

/// Serialise a queue. Entries past [`MAX_ENTRIES`] are dropped and text past [`MAX_TEXT`]
/// is cut **on a character boundary**, so the file never carries bytes that are not UTF-8.
pub fn encode(entries: &[Reminder]) -> (r: Vec<u8>)
    ensures
        r@ == spec_encode(models(entries@)),
{
    let ghost m = models(entries@);
    let n = if entries.len() < MAX_ENTRIES {
        entries.len()
    } else {
        MAX_ENTRIES
    };
    let ghost k = m.take(n as int);
    let mut out: Vec<u8> = Vec::new();
    push_bytes(&mut out, &MAGIC);
    push_u16(&mut out, VERSION);
    push_u16(&mut out, n as u16);
    assert(out@ =~= header(n as int));
    let mut i: usize = 0;
    while i < n
        invariant
            n <= entries.len(),
            n <= MAX_ENTRIES,
            m == models(entries@),
            k == m.take(n as int),
            i <= n,
            out@ == header(n as int) + entries_bytes(k.take(i as int)),
        decreases n - i,
    {
        let e = &entries[i];
        let text = truncate_on_boundary(e.text.as_str(), MAX_TEXT);
        let tb = text.as_bytes();
        proof {
            assert(m[i as int] == e@);
            assert(tb@ == stored_text(e.text@));
        }
        let ghost before = out@;
        push_u64(&mut out, e.due as u64);
        push_u32(&mut out, e.id);
        push_u16(&mut out, tb.len() as u16);
        push_bytes(&mut out, tb);
        proof {
            let ki = k.take(i as int);
            let kn = k.take(i + 1);
            assert(kn.drop_last() =~= ki);
            assert(kn.last() == e@);
            assert(le_i64(e.due) == crate::codec::le64(e.due as u64));
            assert(out@ =~= before + entry_bytes(e@));
        }
        i = i + 1;
    }
    proof {
        assert(k.take(n as int) =~= k);
        assert(k.len() == n);
    }
    out
}

/// Parse a queue, or `None` if this is not one. There is nothing a caller could do with the
/// distinction between kinds of damage, so every one of them is `None`.
pub fn decode(bytes: &[u8]) -> (r: Option<Vec<Reminder>>)
    ensures
        match r {
            Some(v) => spec_decode(bytes@) == Some(models(v@)),
            None => spec_decode(bytes@) is None,
        },
{
    let ghost b = bytes@;
    if bytes.len() < FILE_HEADER || bytes[0] != MAGIC[0] || bytes[1] != MAGIC[1] || bytes[2]
        != MAGIC[2] || bytes[3] != MAGIC[3] {
        proof {
            if b.len() >= FILE_HEADER {
                assert(b.subrange(0, 4)[0] == b[0]);
                assert(b.subrange(0, 4)[1] == b[1]);
                assert(b.subrange(0, 4)[2] == b[2]);
                assert(b.subrange(0, 4)[3] == b[3]);
            }
        }
        return None;
    }
    assert(b.subrange(0, 4) =~= MAGIC@);
    let version = get_u16(bytes, 4);
    if version != VERSION {
        return None;
    }
    let count = get_u16(bytes, 6) as usize;
    if count > MAX_ENTRIES {
        return None;
    }
    let mut out: Vec<Reminder> = Vec::new();
    let mut at: usize = FILE_HEADER;
    let mut k: usize = 0;
    assert(models(out@) =~= Seq::<Queued>::empty());
    assert(Seq::<Queued>::empty() + parse(b, at as int, count as nat)->0 =~= parse(
        b,
        at as int,
        count as nat,
    )->0);
    while k < count
        invariant
            b == bytes@,
            FILE_HEADER <= at <= bytes.len(),
            k <= count,
            count <= MAX_ENTRIES,
            spec_decode(b) == parse(b, FILE_HEADER as int, count as nat),
            parse(b, FILE_HEADER as int, count as nat) == prepend(
                models(out@),
                parse(b, at as int, (count - k) as nat),
            ),
        decreases count - k,
    {
        if bytes.len() - at < ENTRY_HEADER {
            return None;
        }
        let due = get_u64(bytes, at);
        let id = get_u32(bytes, at + 8);
        let len = get_u16(bytes, at + 12) as usize;
        let start = at + ENTRY_HEADER;
        if len > MAX_TEXT || bytes.len() - start < len {
            return None;
        }
        let piece = vstd::slice::slice_subrange(bytes, start, start + len);
        let text = match string_from_utf8(piece) {
            Some(t) => t,
            None => {
                return None;
            },
        };
        let ghost rest = parse(b, (start + len) as int, (count - k - 1) as nat);
        let ghost before = models(out@);
        let r = Reminder { due: due as i64, id, text };
        out.push(r);
        proof {
            assert(piece@ =~= b.subrange(start as int, start + len));
            assert(models(out@) =~= before.push(r@));
            if rest is Some {
                assert(before + (seq![r@] + rest->0) =~= before.push(r@) + rest->0);
            }
        }
        at = start + len;
        k = k + 1;
    }
    Some(out)
}

/// The queue a file system holds: empty when there is no file, or it is not one of ours.
pub open spec fn agenda_path() -> Seq<u16> {
    utf16(AGENDA_FILE@)
}

/// The queue the file at [`AGENDA_FILE`] holds, or empty.
pub open spec fn queue_of(files: fs::Files) -> Seq<Queued> {
    if files.contains_key(agenda_path()) {
        match spec_decode(files[agenda_path()]) {
            Some(q) => q,
            None => Seq::empty(),
        }
    } else {
        Seq::empty()
    }
}

/// The queue's path.
pub fn path() -> (r: Result<Utf16Path>)
    ensures
        r matches Ok(p) && p@ == agenda_path(),
{
    proof {
        reveal_strlit("C:\\Data\\launcher\\agenda.dat");
        lemma_utf16_len(AGENDA_FILE@);
    }
    match Utf16Path::new(AGENDA_FILE) {
        Ok(p) => Ok(p),
        Err(_) => Err(Error::Argument),
    }
}

/// Write the queue, without ringing the bell. Creates the directory first; an existing one
/// is no failure.
pub fn write<F: Fs>(fs: &mut F, entries: &[Reminder]) -> (r: Result<()>)
    requires
        old(fs).inv(),
    ensures
        final(fs).inv(),
        final(fs).private_dir() == old(fs).private_dir(),
        final(fs).handles().dom().subset_of(old(fs).handles().dom()),
        r is Ok ==> final(fs).files() == old(fs).files().remove(tmp_of(agenda_path())).insert(
            agenda_path(),
            spec_encode(models(entries@)),
        ),
        r is Err ==> final(fs).files().remove(tmp_of(agenda_path())) == old(fs).files().remove(
            tmp_of(agenda_path()),
        ),
        old(fs).steady() ==> final(fs).steady(),
        final(fs).room() + 1 >= old(fs).room(),
        old(fs).steady() && old(fs).room() > 0 ==> r is Ok,
{
    proof {
        reveal_strlit("C:\\Data\\launcher\\agenda.dat");
        reveal_strlit(".tmp");
        lemma_utf16_len(AGENDA_FILE@);
        lemma_utf16_len(".tmp"@);
    }
    let dir = fs::encode_utf16(AGENDA_DIR);
    let _ = fs.mkdir(dir.as_slice());
    let p = path()?;
    let bytes = encode(entries);
    fs::write_atomic(fs, &p, bytes.as_slice())
}

/// The queue as it stands. Empty when there is no file, or the file is not one of ours; empty
/// too when the file system fails to hand it over.
pub fn read<F: Fs>(fs: &mut F) -> (r: Vec<Reminder>)
    requires
        old(fs).inv(),
    ensures
        final(fs).inv(),
        final(fs).private_dir() == old(fs).private_dir(),
        final(fs).files() == old(fs).files(),
        final(fs).handles() == old(fs).handles(),
        models(r@) == queue_of(old(fs).files()) || r@.len() == 0,
        !old(fs).files().contains_key(agenda_path()) ==> r@.len() == 0,
        old(fs).steady() ==> final(fs).steady(),
        final(fs).room() + 1 >= old(fs).room(),
        old(fs).steady() && old(fs).room() > 0 && readable(old(fs).files(), agenda_path()) ==> models(
            r@,
        ) == queue_of(old(fs).files()),
{
    let p = match path() {
        Ok(p) => p,
        Err(_) => {
            return Vec::new();
        },
    };
    match fs::read(fs, &p) {
        Ok(Some(bytes)) => match decode(bytes.as_slice()) {
            Some(v) => v,
            None => Vec::new(),
        },
        _ => Vec::new(),
    }
}

/// The earliest due instant of a queue.
pub open spec fn min_due(q: Seq<Queued>) -> Option<i64>
    decreases q.len(),
{
    if q.len() == 0 {
        None
    } else {
        let d = q.last().0;
        match min_due(q.drop_last()) {
            None => Some(d),
            Some(m) => Some(
                if d < m {
                    d
                } else {
                    m
                },
            ),
        }
    }
}

/// The entries due at or before `now`, in queue order.
pub open spec fn due_of(q: Seq<Queued>, now: i64) -> Seq<Queued> {
    q.filter(|e: Queued| e.0 <= now)
}

/// The entries still waiting after `now`, in queue order.
pub open spec fn waiting_of(q: Seq<Queued>, now: i64) -> Seq<Queued> {
    q.filter(|e: Queued| e.0 > now)
}

fn earliest(v: &Vec<Reminder>) -> (r: Option<i64>)
    ensures
        r == min_due(models(v@)),
{
    let ghost m = models(v@);
    let mut best: Option<i64> = None;
    let mut i: usize = 0;
    while i < v.len()
        invariant
            i <= v.len(),
            m == models(v@),
            best == min_due(m.take(i as int)),
        decreases v.len() - i,
    {
        let d = v[i].due;
        proof {
            assert(m.take(i + 1).drop_last() =~= m.take(i as int));
        }
        best = match best {
            None => Some(d),
            Some(b) => Some(
                if d < b {
                    d
                } else {
                    b
                },
            ),
        };
        i = i + 1;
    }
    assert(m.take(v.len() as int) =~= m);
    best
}

/// When the next reminder is due, or `None` if the queue is empty. What a poller caps its
/// sleep at.
pub fn next_due<F: Fs>(fs: &mut F) -> (r: Option<i64>)
    requires
        old(fs).inv(),
    ensures
        final(fs).inv(),
        final(fs).private_dir() == old(fs).private_dir(),
        final(fs).files() == old(fs).files(),
        final(fs).handles() == old(fs).handles(),
        r == min_due(queue_of(old(fs).files())) || r is None,
        !old(fs).files().contains_key(agenda_path()) ==> r is None,
        old(fs).steady() && old(fs).room() > 0 && readable(old(fs).files(), agenda_path()) ==> r
            == min_due(queue_of(old(fs).files())),
        old(fs).steady() && old(fs).room() > 0 && readable(old(fs).files(), agenda_path()) ==> {
            let q = queue_of(old(fs).files());
            &&& r is None <==> q.len() == 0
            &&& r matches Some(d) ==> (exists|i: int| 0 <= i < q.len() && #[trigger] q[i].0 == d)
                && (forall|i: int| 0 <= i < q.len() ==> d <= #[trigger] q[i].0)
        },
{
    let all = read(fs);
    proof {
        lemma_min_due(queue_of(old(fs).files()));
    }
    earliest(&all)
}

fn duplicate(r: &Reminder) -> (c: Reminder)
    ensures
        c@ == r@,
{
    Reminder { due: r.due, id: r.id, text: r.text.clone() }
}

fn split_due(all: &Vec<Reminder>, now: i64) -> (r: (Vec<Reminder>, Vec<Reminder>))
    ensures
        models(r.0@) == due_of(models(all@), now),
        models(r.1@) == waiting_of(models(all@), now),
{
    let ghost m = models(all@);
    let ghost p_due = |e: Queued| e.0 <= now;
    let ghost p_wait = |e: Queued| e.0 > now;
    let mut due: Vec<Reminder> = Vec::new();
    let mut rest: Vec<Reminder> = Vec::new();
    let mut i: usize = 0;
    proof {
        reveal(Seq::filter);
        assert(m.take(0).filter(p_due) =~= Seq::<Queued>::empty());
        assert(m.take(0).filter(p_wait) =~= Seq::<Queued>::empty());
    }
    while i < all.len()
        invariant
            i <= all.len(),
            m == models(all@),
            p_due == (|e: Queued| e.0 <= now),
            p_wait == (|e: Queued| e.0 > now),
            models(due@) == m.take(i as int).filter(p_due),
            models(rest@) == m.take(i as int).filter(p_wait),
        decreases all.len() - i,
    {
        let c = duplicate(&all[i]);
        let ghost e = m[i as int];
        proof {
            assert(m.take(i + 1) =~= m.take(i as int).push(e));
            m.take(i as int).lemma_filter_push(e, p_due);
            m.take(i as int).lemma_filter_push(e, p_wait);
        }
        let ghost d0 = models(due@);
        let ghost r0 = models(rest@);
        if c.due <= now {
            due.push(c);
            assert(models(due@) =~= d0.push(e));
        } else {
            rest.push(c);
            assert(models(rest@) =~= r0.push(e));
        }
        i = i + 1;
    }
    assert(m.take(all.len() as int) =~= m);
    (due, rest)
}

/// Take everything due at or before `now`, leaving the rest. The remainder is written back
/// before returning, so an entry cannot fire twice even if the caller dies delivering it.
pub fn take_due<F: Fs>(fs: &mut F, now: i64) -> (r: Vec<Reminder>)
    requires
        old(fs).inv(),
    ensures
        final(fs).inv(),
        final(fs).private_dir() == old(fs).private_dir(),
        final(fs).handles().dom().subset_of(old(fs).handles().dom()),
        models(r@) == due_of(queue_of(old(fs).files()), now) || r@.len() == 0,
        r@.len() == 0 ==> final(fs).files() == old(fs).files(),
        r@.len() > 0 ==> {
            ||| final(fs).files() == old(fs).files().remove(tmp_of(agenda_path())).insert(
                agenda_path(),
                spec_encode(waiting_of(queue_of(old(fs).files()), now)),
            )
            ||| final(fs).files().remove(tmp_of(agenda_path())) == old(fs).files().remove(
                tmp_of(agenda_path()),
            )
        },
        old(fs).steady() && old(fs).room() >= 2 && readable(old(fs).files(), agenda_path()) ==> {
            &&& models(r@) == due_of(queue_of(old(fs).files()), now)
            &&& r@.len() > 0 ==> final(fs).files() == old(fs).files().remove(
                tmp_of(agenda_path()),
            ).insert(agenda_path(), spec_encode(waiting_of(queue_of(old(fs).files()), now)))
            &&& queue_of(final(fs).files()) == waiting_of(queue_of(old(fs).files()), now)
        },
{
    let all = read(fs);
    if all.len() == 0 {
        return Vec::new();
    }
    let (due, rest) = split_due(&all, now);
    if due.len() > 0 {
        proof {
            if models(all@) != queue_of(old(fs).files()) {
                assert(models(all@).len() == 0);
            }
        }
        let _ = write(fs, rest.as_slice());
        proof {
            let q = queue_of(old(fs).files());
            let w = waiting_of(q, now);
            lemma_fired_do_not_return(old(fs).files(), now);
            let f = old(fs).files();
            assert(queue_of(f.remove(tmp_of(agenda_path())).insert(agenda_path(), spec_encode(w)))
                == queue_of(f.insert(agenda_path(), spec_encode(w))));
        }
    } else {
        proof {
            lemma_nothing_due_waits(queue_of(old(fs).files()), now, models(all@));
        }
    }
    due
}

/// When nothing in a queue is due, everything in it is still waiting.
proof fn lemma_nothing_due_waits(q: Seq<Queued>, now: i64, read: Seq<Queued>)
    ensures
        read == q && due_of(q, now).len() == 0 ==> waiting_of(q, now) == q,
{
    if read == q && due_of(q, now).len() == 0 {
        let pd = |e: Queued| e.0 <= now;
        let pw = |e: Queued| e.0 > now;
        assert forall|i: int| 0 <= i < q.len() implies #[trigger] q[i].0 > now by {
            if q[i].0 <= now {
                q.filter_lemma(pd);
                assert(q.filter(pd).contains(q[i])) by {
                    lemma_filter_keeps(q, pd, i);
                }
            }
        }
        lemma_filter_all_of(q, pw);
    }
}

/// What a filter keeps, it holds.
proof fn lemma_filter_keeps(q: Seq<Queued>, p: spec_fn(Queued) -> bool, i: int)
    requires
        0 <= i < q.len(),
        p(q[i]),
    ensures
        q.filter(p).contains(q[i]),
    decreases q.len(),
{
    reveal(Seq::filter);
    if i == q.len() - 1 {
        assert(q.filter(p) == q.drop_last().filter(p).push(q.last()));
        assert(q.filter(p).last() == q[i]);
        assert(q.filter(p)[q.filter(p).len() - 1] == q[i]);
    } else {
        lemma_filter_keeps(q.drop_last(), p, i);
        assert(q.drop_last()[i] == q[i]);
        let f = q.drop_last().filter(p);
        let k = choose|k: int| 0 <= k < f.len() && f[k] == q[i];
        if p(q.last()) {
            assert(q.filter(p) == f.push(q.last()));
            assert(q.filter(p)[k] == q[i]);
        } else {
            assert(q.filter(p) == f);
        }
    }
}

/// A filter that every element passes keeps them all.
proof fn lemma_filter_all_of(q: Seq<Queued>, p: spec_fn(Queued) -> bool)
    requires
        forall|i: int| 0 <= i < q.len() ==> p(#[trigger] q[i]),
    ensures
        q.filter(p) == q,
    decreases q.len(),
{
    reveal(Seq::filter);
    if q.len() > 0 {
        lemma_filter_all_of(q.drop_last(), p);
        assert(q.drop_last().push(q.last()) =~= q);
    }
}

/// A queue the file can carry exactly: no more than [`MAX_ENTRIES`] entries, no text over
/// [`MAX_TEXT`] bytes.
pub open spec fn well_formed(q: Seq<Queued>) -> bool {
    &&& q.len() <= MAX_ENTRIES
    &&& forall|i: int| 0 <= i < q.len() ==> encode_utf8(#[trigger] q[i].2).len() <= MAX_TEXT
}

proof fn lemma_entries_front(s: Seq<Queued>)
    requires
        s.len() > 0,
    ensures
        entries_bytes(s) == entry_bytes(s[0]) + entries_bytes(s.drop_first()),
    decreases s.len(),
{
    if s.len() == 1 {
        assert(s.drop_last() =~= Seq::<Queued>::empty());
        assert(s.drop_first() =~= Seq::<Queued>::empty());
        assert(entries_bytes(s.drop_last()) == Seq::<u8>::empty());
        assert(entries_bytes(s.drop_first()) == Seq::<u8>::empty());
        assert(s.last() == s[0]);
        assert(entries_bytes(s) =~= entry_bytes(s[0]));
        assert(entry_bytes(s[0]) + Seq::<u8>::empty() =~= entry_bytes(s[0]));
    } else {
        let d = s.drop_last();
        lemma_entries_front(d);
        assert(d.drop_first() =~= s.drop_first().drop_last());
        assert(s.drop_first().last() == s.last());
        assert(d[0] == s[0]);
        assert(entries_bytes(s) =~= entry_bytes(s[0]) + entries_bytes(s.drop_first()));
    }
}

proof fn lemma_entry_fields(e: Queued, pre: Seq<u8>, tail: Seq<u8>)
    ensures
        ({
            let b = pre + entry_bytes(e) + tail;
            let at = pre.len() as int;
            let t = stored_text(e.2);
            &&& at + ENTRY_HEADER <= b.len()
            &&& read64(b, at) as i64 == e.0
            &&& read32(b, at + 8) == e.1
            &&& read16(b, at + 12) == t.len()
            &&& t.len() <= MAX_TEXT
            &&& at + ENTRY_HEADER + t.len() <= b.len()
            &&& b.subrange(at + ENTRY_HEADER, at + ENTRY_HEADER + t.len()) == t
            &&& valid_utf8(t)
            &&& decode_utf8(t) == cut_text(e.2, MAX_TEXT as int)
            &&& pre + entry_bytes(e) + tail == (pre + entry_bytes(e)) + tail
        }),
{
    let b = pre + entry_bytes(e) + tail;
    let t = stored_text(e.2);
    lemma_cut_text(e.2, MAX_TEXT as int);
    encode_utf8_valid_utf8(cut_text(e.2, MAX_TEXT as int));
    let l16 = le16(t.len() as u16);
    assert(b =~= pre + le_i64(e.0) + (le32(e.1) + l16 + t + tail));
    lemma_read64_le64(e.0 as u64, pre, le32(e.1) + l16 + t + tail);
    lemma_i64_bits(e.0);
    assert(b =~= (pre + le_i64(e.0)) + le32(e.1) + (l16 + t + tail));
    lemma_read32_le32(e.1, pre + le_i64(e.0), l16 + t + tail);
    assert(b =~= (pre + le_i64(e.0) + le32(e.1)) + l16 + (t + tail));
    lemma_read16_le16(t.len() as u16, pre + le_i64(e.0) + le32(e.1), t + tail);
    let start = pre.len() + ENTRY_HEADER;
    assert(b.subrange(start, start + t.len()) =~= t);
    assert(pre + entry_bytes(e) + tail =~= (pre + entry_bytes(e)) + tail);
}

proof fn lemma_parse_step(b: Seq<u8>, at: int, n: nat, t: Seq<u8>)
    requires
        n > 0,
        0 <= at,
        at + ENTRY_HEADER + t.len() <= b.len(),
        read16(b, at + 12) == t.len(),
        t.len() <= MAX_TEXT,
        b.subrange(at + ENTRY_HEADER, at + ENTRY_HEADER + t.len()) == t,
        valid_utf8(t),
    ensures
        parse(b, at, n) == prepend(
            seq![(read64(b, at) as i64, read32(b, at + 8), decode_utf8(t))],
            parse(b, at + ENTRY_HEADER + t.len(), (n - 1) as nat),
        ),
{
}

#[verifier::spinoff_prover]
#[verifier::rlimit(100)]
proof fn lemma_parse_entries(s: Seq<Queued>, pre: Seq<u8>, post: Seq<u8>)
    ensures
        parse(pre + entries_bytes(s) + post, pre.len() as int, s.len()) == Some(
            s.map_values(|e: Queued| stored(e)),
        ),
    decreases s.len(),
{
    let b = pre + entries_bytes(s) + post;
    if s.len() == 0 {
        assert(s.map_values(|e: Queued| stored(e)) =~= Seq::<Queued>::empty());
    } else {
        lemma_entries_front(s);
        let e = s[0];
        let rest = s.drop_first();
        let tail = entries_bytes(rest) + post;
        let pre2 = pre + entry_bytes(e);
        assert(b =~= pre + entry_bytes(e) + tail);
        assert(b =~= pre2 + entries_bytes(rest) + post);
        lemma_entry_fields(e, pre, tail);
        let t = stored_text(e.2);
        lemma_parse_step(b, pre.len() as int, s.len(), t);
        lemma_parse_entries(rest, pre2, post);
        assert(s.map_values(|e: Queued| stored(e)) =~= seq![stored(e)] + rest.map_values(
            |e: Queued| stored(e),
        ));
    }
}

/// What a file gives back of the queue it was written from: the first [`MAX_ENTRIES`]
/// entries, in order, each with its text cut on a character boundary to [`MAX_TEXT`] bytes —
/// and, for a queue the file can carry exactly, the queue itself.
#[verifier::spinoff_prover]
#[verifier::rlimit(100)]
pub proof fn lemma_round_trip(q: Seq<Queued>)
    ensures
        spec_decode(spec_encode(q)) == Some(
            q.take(kept(q.len() as int)).map_values(|e: Queued| stored(e)),
        ),
        well_formed(q) ==> spec_decode(spec_encode(q)) == Some(q),
{
    let k = q.take(kept(q.len() as int));
    let h = header(k.len() as int);
    let b = spec_encode(q);
    assert(b =~= h + entries_bytes(k) + Seq::<u8>::empty());
    assert(b.subrange(0, 4) =~= MAGIC@);
    lemma_read16_le16(VERSION, MAGIC@, le16(k.len() as u16) + entries_bytes(k));
    assert(b =~= MAGIC@ + le16(VERSION) + (le16(k.len() as u16) + entries_bytes(k)));
    lemma_read16_le16(k.len() as u16, MAGIC@ + le16(VERSION), entries_bytes(k));
    assert(b =~= (MAGIC@ + le16(VERSION)) + le16(k.len() as u16) + entries_bytes(k));
    lemma_parse_entries(k, h, Seq::empty());
    if well_formed(q) {
        assert(k =~= q);
        assert forall|i: int| 0 <= i < q.len() implies #[trigger] stored(q[i]) == q[i] by {
            lemma_cut_text(q[i].2, MAX_TEXT as int);
        }
        assert(q.map_values(|e: Queued| stored(e)) =~= q);
    }
}

proof fn lemma_parsed_fits(b: Seq<u8>, at: int, n: nat)
    requires
        0 <= at,
        parse(b, at, n) is Some,
    ensures
        parse(b, at, n)->0.len() == n,
        forall|i: int|
            0 <= i < n ==> encode_utf8(#[trigger] parse(b, at, n)->0[i].2).len() <= MAX_TEXT,
    decreases n,
{
    if n > 0 {
        let len = read16(b, at + 12) as int;
        let start = at + ENTRY_HEADER;
        let text = b.subrange(start, start + len);
        lemma_parsed_fits(b, start + len, (n - 1) as nat);
        decode_utf8_encode_utf8(text);
        let got = parse(b, at, n)->0;
        let rest = parse(b, start + len, (n - 1) as nat)->0;
        let first: Queued = (read64(b, at) as i64, read32(b, at + 8), decode_utf8(text));
        assert(got == seq![first] + rest);
        assert(text.len() == len);
        assert forall|i: int| 0 <= i < n implies encode_utf8(#[trigger] got[i].2).len()
            <= MAX_TEXT by {
            if i > 0 {
                assert(got[i] == rest[i - 1]);
            } else {
                assert(got[0] == first);
            }
        }
    }
}

/// Where reading `n` entries from `at` stops.
pub open spec fn parse_end(b: Seq<u8>, at: int, n: nat) -> int
    decreases n,
{
    if n == 0 {
        at
    } else {
        parse_end(b, at + ENTRY_HEADER + read16(b, at + 12) as int, (n - 1) as nat)
    }
}

/// Reading entries from a prefix of `b` that succeeds reads what `b` holds there, and so
/// stops inside the prefix.
proof fn lemma_parse_prefix(b: Seq<u8>, c: int, at: int, n: nat)
    requires
        0 <= at <= c <= b.len(),
        parse(b.take(c), at, n) is Some,
    ensures
        parse_end(b, at, n) <= c,
    decreases n,
{
    if n > 0 {
        let p = b.take(c);
        assert(p[at + 12] == b[at + 12]);
        assert(p[at + 13] == b[at + 13]);
        assert(read16(p, at + 12) == read16(b, at + 12));
        let len = read16(b, at + 12) as int;
        lemma_parse_prefix(b, c, at + ENTRY_HEADER + len, (n - 1) as nat);
    }
}

/// Reading a run of encoded entries stops exactly at their end.
#[verifier::spinoff_prover]
#[verifier::rlimit(100)]
proof fn lemma_parse_end_entries(s: Seq<Queued>, pre: Seq<u8>, post: Seq<u8>)
    ensures
        parse_end(pre + entries_bytes(s) + post, pre.len() as int, s.len()) == pre.len()
            + entries_bytes(s).len(),
    decreases s.len(),
{
    let b = pre + entries_bytes(s) + post;
    if s.len() > 0 {
        lemma_entries_front(s);
        let e = s[0];
        let rest = s.drop_first();
        let tail = entries_bytes(rest) + post;
        let pre2 = pre + entry_bytes(e);
        assert(b =~= pre + entry_bytes(e) + tail);
        assert(b =~= pre2 + entries_bytes(rest) + post);
        lemma_entry_fields(e, pre, tail);
        lemma_parse_end_entries(rest, pre2, post);
    }
}

/// A cut file never yields part of a queue: any proper prefix of a written queue decodes to
/// nothing, the empty file included.
pub proof fn lemma_cut_file_is_refused(q: Seq<Queued>, cut: int)
    requires
        0 <= cut < spec_encode(q).len(),
    ensures
        spec_decode(spec_encode(q).take(cut)) is None,
{
    let b = spec_encode(q);
    let p = b.take(cut);
    let k = q.take(kept(q.len() as int));
    let h = header(k.len() as int);
    if cut >= FILE_HEADER && spec_decode(p) is Some {
        lemma_round_trip(q);
        assert(p.subrange(0, 4) =~= b.subrange(0, 4));
        assert(p[4] == b[4] && p[5] == b[5] && p[6] == b[6] && p[7] == b[7]);
        assert(read16(p, 6) == read16(b, 6));
        let n = read16(b, 6) as nat;
        lemma_parse_prefix(b, cut, FILE_HEADER as int, n);
        assert(b =~= h + entries_bytes(k) + Seq::<u8>::empty());
        lemma_read16_le16(k.len() as u16, MAGIC@ + le16(VERSION), entries_bytes(k));
        assert(b =~= (MAGIC@ + le16(VERSION)) + le16(k.len() as u16) + entries_bytes(k));
        assert(n == k.len());
        lemma_parse_end_entries(k, h, Seq::empty());
    }
}

/// A file of another version, or one without the magic, is no queue.
pub proof fn lemma_foreign_file_is_refused(b: Seq<u8>)
    requires
        b.len() < FILE_HEADER || b.subrange(0, 4) != MAGIC@ || read16(b, 4) != VERSION,
    ensures
        spec_decode(b) is None,
{
}

/// Whatever a file decodes to, the file could have carried exactly.
pub proof fn lemma_decoded_well_formed(b: Seq<u8>)
    requires
        spec_decode(b) is Some,
    ensures
        well_formed(spec_decode(b)->0),
{
    lemma_parsed_fits(b, FILE_HEADER as int, read16(b, 6) as nat);
}

/// An entry that fired does not fire again: once the remainder of a queue is written back,
/// the file holds exactly the entries still waiting, and none of them is due at `now`.
pub proof fn lemma_fired_do_not_return(files: fs::Files, now: i64)
    ensures
        ({
            let w = waiting_of(queue_of(files), now);
            let after = files.insert(agenda_path(), spec_encode(w));
            &&& queue_of(after) == w
            &&& due_of(queue_of(after), now).len() == 0
        }),
{
    let q = queue_of(files);
    let p = |e: Queued| e.0 > now;
    let w = waiting_of(q, now);
    if files.contains_key(agenda_path()) && spec_decode(files[agenda_path()]) is Some {
        lemma_decoded_well_formed(files[agenda_path()]);
    } else {
        assert(q.len() == 0);
    }
    q.lemma_filter_len(p);
    assert(well_formed(w)) by {
        assert forall|i: int| 0 <= i < w.len() implies encode_utf8(#[trigger] w[i].2).len()
            <= MAX_TEXT by {
            assert(w.contains(w[i]));
            q.lemma_filter_contains_rev(p, w[i]);
        }
    }
    lemma_round_trip(w);
    let d = due_of(w, now);
    if d.len() > 0 {
        let pd = |e: Queued| e.0 <= now;
        w.lemma_filter_pred(pd, 0);
        assert(d.contains(d[0]));
        w.lemma_filter_contains_rev(pd, d[0]);
        let j = choose|j: int| 0 <= j < w.len() && w[j] == d[0];
        w.lemma_filter_pred(p, j);
    }
}

/// The earliest due instant is one of the queue's, and no entry is due before it.
pub proof fn lemma_min_due(q: Seq<Queued>)
    ensures
        min_due(q) is None <==> q.len() == 0,
        min_due(q) matches Some(d) ==> {
            &&& exists|i: int| 0 <= i < q.len() && #[trigger] q[i].0 == d
            &&& forall|i: int| 0 <= i < q.len() ==> d <= #[trigger] q[i].0
        },
    decreases q.len(),
{
    if q.len() > 0 {
        let d = q.drop_last();
        lemma_min_due(d);
        if let Some(m) = min_due(d) {
            let j = choose|j: int| 0 <= j < d.len() && #[trigger] d[j].0 == m;
            assert(q[j].0 == m);
        }
        assert(q[q.len() - 1].0 == q.last().0);
        assert forall|i: int| 0 <= i < q.len() implies min_due(q)->0 <= #[trigger] q[i].0 by {
            if i < q.len() - 1 {
                assert(q[i] == d[i]);
            }
        }
    }
}

} // verus!
