//! The device log: where it goes, how its switch reads, and what a line looks like.
//!
//! Logging is a build decision (`DEBUG` in `app.conf`) *and* a run-time one: a one-byte flag
//! file beside the log, `C:\Data\_logs\<name>.on`, lets the person holding the phone turn a
//! build's log off without a rebuild. Absent means on, so the switch can only ever turn off
//! what was compiled in.
//!
//! Writing the lines is the application's business; the decisions are here, where a host can
//! test them.

use vstd::prelude::*;
use vstd::string::StringSliceAdditionalSpecFns;
use vstd::utf8::*;

use crate::codec::{cut_utf8, decimal, push_char, push_decimal, push_str, truncate_on_boundary};
use crate::error::Result;
use crate::fs::{
    joined, lemma_utf16_concat, private_path, utf16, with_file, Fs, FsOp, OpenMode, Utf16Path,
    MAX_PATH,
};

verus! {

/// Longest a single line may be, before the stamp, in bytes.
pub const MAX_LINE: usize = 1024;

/// The directory logs and their switches live in.
pub open spec fn log_dir() -> Seq<char> {
    crate::DATA_LOG_DIR@
}

fn in_log_dir(name: &str, ext: &str) -> (r: Result<Utf16Path>)
    requires
        ext@ == ".on"@ || ext@ == ".txt"@,
    ensures
        r matches Ok(p) ==> p@ == utf16(log_dir() + name@ + ext@),
        r is Ok <==> utf16(log_dir() + name@ + ext@).len() <= crate::fs::MAX_PATH,
{
    let dir = crate::fs::encode_utf16(crate::DATA_LOG_DIR);
    proof {
        reveal_strlit("C:\\Data\\_logs\\");
        lemma_utf16_concat(log_dir(), name@);
        lemma_utf16_concat(log_dir() + name@, ext@);
        crate::fs::lemma_utf16_len(ext@);
        crate::fs::lemma_utf16_len(log_dir());
        assert(dir@.last() == crate::fs::SEP);
    }
    let base = match Utf16Path::join(dir.as_slice(), name) {
        Ok(b) => b,
        Err(e) => {
            return Err(e);
        },
    };
    base.with_suffix(ext)
}

/// The switch for `name`'s log: `C:\Data\_logs\<name>.on`.
pub fn flag_path(name: &str) -> (r: Result<Utf16Path>)
    ensures
        r matches Ok(p) ==> p@ == utf16(log_dir() + name@ + ".on"@),
        r is Ok <==> utf16(log_dir() + name@ + ".on"@).len() <= crate::fs::MAX_PATH,
{
    in_log_dir(name, ".on")
}

/// The conventional path for an app's log: `C:\Data\_logs\<name>.txt`.
pub fn data_path(name: &str) -> (r: Result<Utf16Path>)
    ensures
        r matches Ok(p) ==> p@ == utf16(log_dir() + name@ + ".txt"@),
        r is Ok <==> utf16(log_dir() + name@ + ".txt"@).len() <= crate::fs::MAX_PATH,
{
    in_log_dir(name, ".txt")
}

/// What a flag file's first byte says: `0`, `n` and `f` (any case) are off, anything else —
/// an empty file too — is on.
pub open spec fn flag_of(bytes: Seq<u8>) -> bool {
    if bytes.len() == 0 {
        true
    } else {
        let b = bytes[0];
        !(b == 0x30 || b == 0x6e || b == 0x4e || b == 0x66 || b == 0x46)
    }
}

/// How a flag file's contents read. Always an answer: the switch may only turn off what was
/// compiled in, so an unrecognised byte must not be what silences a build.
pub fn decode_flag(bytes: &[u8]) -> (r: Option<bool>)
    ensures
        r == Some(flag_of(bytes@)),
{
    if bytes.len() == 0 {
        return Some(true);
    }
    let b = bytes[0];
    Some(!(b == 0x30 || b == 0x6e || b == 0x4e || b == 0x66 || b == 0x46))
}

/// A phone number with everything but the first three and last two characters replaced by
/// `*`. A short one is left whole: redaction that reveals nothing beats an index that panics.
pub open spec fn redacted(s: Seq<char>) -> Seq<char> {
    Seq::new(s.len(), |i: int| if i < 3 || i + 2 >= s.len() { s[i] } else { '*' })
}

/// Redaction keeps the length, keeps the first three and the last two characters, and masks
/// every character between them, whatever the number's length.
pub proof fn lemma_redacted_masks_middle(s: Seq<char>)
    ensures
        redacted(s).len() == s.len(),
        forall|i: int| 0 <= i < 3 && i < s.len() ==> #[trigger] redacted(s)[i] == s[i],
        forall|i: int|
            0 <= i < s.len() && s.len() <= i + 2 ==> #[trigger] redacted(s)[i] == s[i],
        forall|i: int| 3 <= i && i + 2 < s.len() ==> #[trigger] redacted(s)[i] == '*',
        s.len() <= 5 ==> redacted(s) == s,
{
    if s.len() <= 5 {
        assert(redacted(s) =~= s);
    }
}

/// A phone number with only its ends kept, for a log that gets pasted into a chat window.
pub fn redact_phone(number: &str) -> (r: String)
    ensures
        r@ == redacted(number@),
{
    broadcast use vstd::string::axiom_spec_iter;

    let n = count_chars(number);
    let mut s = String::new();
    let mut i: usize = 0;
    for c in it: number.chars()
        invariant
            it.seq() == number@,
            n == number@.len(),
            i == it.index(),
            s@ == redacted(number@).take(i as int),
    {
        proof {
            assert(number@[i as int] == c);
        }
        if i < 3 || n - i <= 2 {
            push_char(&mut s, c);
        } else {
            push_char(&mut s, '*');
        }
        assert(s@ =~= redacted(number@).take(i + 1));
        i = i + 1;
    }
    assert(redacted(number@).take(n as int) =~= redacted(number@));
    s
}

/// `v` in decimal, with a `-` in front when it is negative.
pub open spec fn signed_decimal(v: int) -> Seq<char> {
    if v < 0 {
        seq!['-'] + decimal((-v) as nat)
    } else {
        decimal(v as nat)
    }
}

/// Append `v` in decimal, without `core::fmt`: every Symbian error is negative and the log is
/// mostly error codes. `i64::MIN` has no positive counterpart and is left out.
pub fn push_i64(s: &mut String, v: i64)
    requires
        v > i64::MIN,
    ensures
        final(s)@ == old(s)@ + signed_decimal(v as int),
{
    if v < 0 {
        push_char(s, '-');
        push_decimal(s, (-v) as u64);
        assert(final(s)@ =~= old(s)@ + signed_decimal(v as int));
    } else {
        push_decimal(s, v as u64);
    }
}

/// What [`format_line`] makes of a line: the stamp right-aligned in six, two spaces, the text
/// (cut on a character boundary to [`MAX_LINE`] bytes and marked ` …` when it was longer), and
/// a newline.
pub open spec fn formatted(ms: int, text: Seq<char>) -> Seq<char> {
    let stamp = signed_decimal(ms);
    let pad = if stamp.len() < 6 {
        Seq::new((6 - stamp.len()) as nat, |i: int| ' ')
    } else {
        Seq::empty()
    };
    let body = if encode_utf8(text).len() > MAX_LINE {
        decode_utf8(cut_utf8(encode_utf8(text), MAX_LINE as int)) + seq![' ', '…']
    } else {
        text
    };
    pad + stamp + seq![' ', ' '] + body + seq!['\n']
}

/// One log line, stamped with `ms` milliseconds since the first.
pub fn format_line(ms: i64, text: &str) -> (r: String)
    requires
        ms > i64::MIN,
    ensures
        r@ == formatted(ms as int, text@),
{
    let mut stamp = String::new();
    push_i64(&mut stamp, ms);
    let ghost digits = signed_decimal(ms as int);
    let mut out = String::new();
    let mut width: usize = 0;
    let mut n: usize = 0;
    let stamp_len = count_chars(stamp.as_str());
    while n + stamp_len < 6
        invariant
            stamp_len == digits.len(),
            out@ == Seq::new(n as nat, |i: int| ' '),
            n + stamp_len <= 6 || n == 0,
        decreases 6 - n - stamp_len,
    {
        push_char(&mut out, ' ');
        n = n + 1;
        assert(out@ =~= Seq::new(n as nat, |i: int| ' '));
    }
    push_str(&mut out, stamp.as_str());
    push_char(&mut out, ' ');
    push_char(&mut out, ' ');
    let long = text.as_bytes().len() > MAX_LINE;
    if long {
        let cut = truncate_on_boundary(text, MAX_LINE);
        proof {
            crate::codec::lemma_str_bytes(cut);
        }
        push_str(&mut out, cut);
        push_char(&mut out, ' ');
        push_char(&mut out, '…');
    } else {
        push_str(&mut out, text);
    }
    push_char(&mut out, '\n');
    proof {
        let stamp_pad = if digits.len() < 6 {
            Seq::new((6 - digits.len()) as nat, |i: int| ' ')
        } else {
            Seq::<char>::empty()
        };
        assert(Seq::new(n as nat, |i: int| ' ') =~= stamp_pad);
    }
    assert(out@ =~= formatted(ms as int, text@));
    out
}

fn count_chars(s: &str) -> (n: usize)
    ensures
        n == s@.len(),
{
    broadcast use vstd::string::axiom_spec_iter;

    let bytes = s.as_bytes().len();
    proof {
        crate::codec::lemma_chars_le_bytes(s@);
    }
    let mut n: usize = 0;
    for c in it: s.chars()
        invariant
            it.seq() == s@,
            n == it.index(),
            s@.len() <= bytes,
    {
        n = n + 1;
    }
    n
}


// --------------------------------------------------------------- the log's file --

/// The label the log reports when it settled in the public data directory.
pub const DATA_LABEL: &'static str = "C:\\Data\\_logs\\<app>.txt";

/// The label for flogger's directory, the rung for a handset whose data directory is not
/// writable.
pub const FLOGGER_LABEL: &'static str = "C:\\logs\\<app>.log";

/// The label for the drive root, the rung that needs no directory to exist.
pub const ROOT_LABEL: &'static str = "C:\\logs_<app>.txt";

/// The label for the private directory: it keeps the log, but nobody outside can read it.
pub const PRIVATE_LABEL: &'static str = "(private)\\log.txt";

/// `dir`, `mid` and `tail` one after the other, as a path, or `None` when it does not fit.
fn build(dir: &str, mid: &str, tail: &str) -> (r: Option<Utf16Path>)
    ensures
        r matches Some(p) ==> p@ == utf16(dir@ + mid@ + tail@),
        r is Some <==> utf16(dir@ + mid@ + tail@).len() <= MAX_PATH,
{
    let mut s = String::new();
    push_str(&mut s, dir);
    push_str(&mut s, mid);
    push_str(&mut s, tail);
    assert(s@ =~= dir@ + mid@ + tail@);
    match Utf16Path::new(s.as_str()) {
        Ok(p) => Some(p),
        Err(_) => None,
    }
}

/// Whether `path` opens for appending. The probe leaves nothing open, and an append never
/// truncates, so the log a previous launch left is kept; a file that was not there is
/// created empty.
fn can_append<F: Fs>(fs: &mut F, path: &Utf16Path) -> (r: bool)
    requires
        old(fs).inv(),
    ensures
        final(fs).inv(),
        final(fs).private_dir() == old(fs).private_dir(),
        final(fs).handles() == old(fs).handles(),
        r ==> final(fs).files() == with_file(old(fs).files(), path@),
        !r ==> final(fs).files() == old(fs).files(),
        final(fs).ops().len() >= old(fs).ops().len(),
        final(fs).ops().subrange(0, old(fs).ops().len() as int) == old(fs).ops(),
        probed(
            final(fs).ops().subrange(old(fs).ops().len() as int, final(fs).ops().len() as int),
            path@,
            r,
        ),
{
    match fs.open(path.as_units(), OpenMode::Append) {
        Ok(h) => {
            let ghost o1 = fs.ops();
            fs.close(h);
            assert(fs.handles() =~= old(fs).handles());
            proof {
                let n = old(fs).ops().len() as int;
                assert(fs.ops().subrange(0, n) =~= old(fs).ops());
                let t = fs.ops().subrange(n, fs.ops().len() as int);
                assert(t.len() == 2);
                assert(t[0] == fs.ops()[n]);
                assert(t[1] == fs.ops()[n + 1]);
            }
            true
        },
        Err(_) => {
            proof {
                let n = old(fs).ops().len() as int;
                assert(fs.ops().subrange(0, n) =~= old(fs).ops());
                assert(fs.ops().subrange(n, fs.ops().len() as int) =~= seq![
                    FsOp::Open(path@, OpenMode::Append, false),
                ]);
            }
            false
        },
    }
}

/// What probing `path` asks of the file system: an open for append, then, when it opened, a
/// close of what it opened.
pub open spec fn probed(ops: Seq<FsOp>, path: Seq<u16>, opened: bool) -> bool {
    if opened {
        ops.len() == 2 && ops[0] == FsOp::Open(path, OpenMode::Append, true) && ops[1] is Close
    } else {
        ops == seq![FsOp::Open(path, OpenMode::Append, false)]
    }
}

/// One rung of the log's ladder: the label it is reported under and the path it stands for.
pub open spec fn rung(label: &'static str, app: Seq<char>, private_dir: Seq<u16>, p: Seq<u16>) -> bool {
    ||| label == DATA_LABEL && p == utf16(log_dir() + app + ".txt"@)
    ||| label == FLOGGER_LABEL && p == utf16(crate::LOG_DIR@ + app + ".log"@)
    ||| label == ROOT_LABEL && p == utf16("C:\\"@ + "logs_"@ + app)
    ||| label == PRIVATE_LABEL && p == joined(private_dir, utf16("log.txt"@))
}

/// `p` when it fits in a platform path.
pub open spec fn fitting(p: Seq<u16>) -> Option<Seq<u16>> {
    if p.len() <= MAX_PATH {
        Some(p)
    } else {
        None
    }
}

/// The paths of the three rungs that are probed, best first; `None` for one whose path does
/// not fit, which is passed over without a probe.
pub open spec fn rung_paths(app: Seq<char>) -> Seq<Option<Seq<u16>>> {
    seq![
        fitting(utf16(log_dir() + app + ".txt"@)),
        fitting(utf16(crate::LOG_DIR@ + app + ".log"@)),
        fitting(utf16("C:\\"@ + "logs_"@ + app)),
    ]
}

/// The label of rung `i`; past the probed three, the private directory.
pub open spec fn rung_label(i: int) -> &'static str {
    if i == 0 {
        DATA_LABEL
    } else if i == 1 {
        FLOGGER_LABEL
    } else if i == 2 {
        ROOT_LABEL
    } else {
        PRIVATE_LABEL
    }
}

/// The requests of probes that were all refused: one refused open for each rung that has a
/// path.
pub open spec fn refusals(paths: Seq<Option<Seq<u16>>>) -> Seq<FsOp>
    decreases paths.len(),
{
    if paths.len() == 0 {
        Seq::empty()
    } else {
        refusals(paths.drop_last()) + match paths.last() {
            Some(p) => seq![FsOp::Open(p, OpenMode::Append, false)],
            None => Seq::empty(),
        }
    }
}

/// The requests of a search that settled on rung `i`: every earlier rung with a path was
/// probed and refused, and rung `i`, when it is one of the three, was probed and opened.
/// Settling on the private directory (`i == 3`) means all three were refused.
pub open spec fn settled(ops: Seq<FsOp>, app: Seq<char>, i: int) -> bool {
    let before = refusals(rung_paths(app).take(i));
    &&& 0 <= i <= 3
    &&& ops.len() >= before.len()
    &&& ops.subrange(0, before.len() as int) == before
    &&& i < 3 ==> rung_paths(app)[i] is Some && probed(
        ops.subrange(before.len() as int, ops.len() as int),
        rung_paths(app)[i]->0,
        true,
    )
    &&& i == 3 ==> ops.len() == before.len()
}

/// A journal that grew from `a` to `b` keeps what it held, so its tail past `n` is the old
/// tail and then what was added.
proof fn lemma_grown(a: Seq<FsOp>, b: Seq<FsOp>, n: int)
    requires
        0 <= n <= a.len() <= b.len(),
        b.subrange(0, a.len() as int) == a,
    ensures
        b.subrange(0, n) == a.subrange(0, n),
        b.subrange(n, b.len() as int) == a.subrange(n, a.len() as int) + b.subrange(
            a.len() as int,
            b.len() as int,
        ),
{
    assert(b.subrange(0, n) =~= a.subrange(0, n)) by {
        assert forall|k: int| 0 <= k < n implies b.subrange(0, n)[k] == a.subrange(0, n)[k] by {
            assert(b.subrange(0, a.len() as int)[k] == a[k]);
        }
    }
    assert(b.subrange(n, b.len() as int) =~= a.subrange(n, a.len() as int) + b.subrange(
        a.len() as int,
        b.len() as int,
    )) by {
        assert forall|k: int| n <= k < a.len() implies #[trigger] b[k] == a[k] by {
            assert(b.subrange(0, a.len() as int)[k] == a[k]);
        }
    }
}

/// Refusals of the first `i` rungs, then an opened probe of rung `i`, is a search that settled
/// on rung `i`.
proof fn lemma_settled(u: Seq<FsOp>, app: Seq<char>, i: int)
    requires
        0 <= i < 3,
        rung_paths(app)[i] is Some,
        u.len() >= refusals(rung_paths(app).take(i)).len(),
        u.subrange(0, refusals(rung_paths(app).take(i)).len() as int) == refusals(
            rung_paths(app).take(i),
        ),
        probed(
            u.subrange(refusals(rung_paths(app).take(i)).len() as int, u.len() as int),
            rung_paths(app)[i]->0,
            true,
        ),
    ensures
        settled(u, app, i),
{
}

/// A pick as a path and a label.
pub open spec fn answer_of(r: Option<(Utf16Path, &'static str)>) -> Option<(Seq<u16>, &'static str)> {
    match r {
        Some((p, l)) => Some((p@, l)),
        None => None,
    }
}

/// Pick the log file for `app`, and the label to report it under: the public data
/// directory, then flogger's directory, then the drive root, each probed by opening it for
/// append, and last the private directory, which always works and which nobody outside can
/// read. `None` only when not even that path can be made.
pub fn resolve<F: Fs>(fs: &mut F, app: &str) -> (r: Option<(Utf16Path, &'static str)>)
    requires
        old(fs).inv(),
    ensures
        final(fs).inv(),
        final(fs).private_dir() == old(fs).private_dir(),
        final(fs).handles() == old(fs).handles(),
        r matches Some((p, l)) ==> rung(l, app@, old(fs).private_dir(), p@),
        r matches Some((p, l)) ==> (l != PRIVATE_LABEL ==> final(fs).files() == with_file(
            old(fs).files(),
            p@,
        )),
        r is None || r.unwrap().1 == PRIVATE_LABEL ==> final(fs).files() == old(fs).files(),
        final(fs).ops().subrange(0, old(fs).ops().len() as int) == old(fs).ops(),
        exists|i: int|
            #[trigger] settled(
                final(fs).ops().subrange(old(fs).ops().len() as int, final(fs).ops().len() as int),
                app@,
                i,
            ) && (i < 3 ==> answer_of(r) == Some((rung_paths(app@)[i]->0, rung_label(i)))) && (i
                == 3 ==> (answer_of(r) is None || (answer_of(r)->0).1 == PRIVATE_LABEL)),
{
    let ghost o0 = old(fs).ops();
    let ghost n = o0.len() as int;
    let ghost paths = rung_paths(app@);
    proof {
        reveal_strlit(".txt");
        reveal_strlit(".log");
        reveal_strlit("C:\\");
        reveal_strlit("logs_");
        assert(paths.take(0) =~= Seq::<Option<Seq<u16>>>::empty());
        assert(fs.ops().subrange(0, n) =~= o0);
        assert(fs.ops().subrange(n, fs.ops().len() as int) =~= refusals(paths.take(0)));
    }
    let ghost ob = fs.ops();
    if let Ok(p) = data_path(app) {
        if can_append(fs, &p) {
            proof {
                lemma_grown(ob, fs.ops(), n);
                let u = fs.ops().subrange(n, fs.ops().len() as int);
                let before = refusals(paths.take(0));
                assert(u.subrange(0, before.len() as int) =~= before);
                assert(u.subrange(before.len() as int, u.len() as int) =~= fs.ops().subrange(
                    ob.len() as int,
                    fs.ops().len() as int,
                ));
                lemma_settled(u, app@, 0);
            }
            return Some((p, DATA_LABEL));
        }
        proof {
            lemma_grown(ob, fs.ops(), n);
        }
    }
    proof {
        let t = paths.take(1);
        assert(t.drop_last() =~= paths.take(0));
        assert(fs.ops().subrange(n, fs.ops().len() as int) =~= refusals(t));
    }
    let ghost ob = fs.ops();
    if let Some(p) = build(crate::LOG_DIR, app, ".log") {
        if can_append(fs, &p) {
            proof {
                lemma_grown(ob, fs.ops(), n);
                let u = fs.ops().subrange(n, fs.ops().len() as int);
                let before = refusals(paths.take(1));
                assert(u.subrange(0, before.len() as int) =~= before);
                assert(u.subrange(before.len() as int, u.len() as int) =~= fs.ops().subrange(
                    ob.len() as int,
                    fs.ops().len() as int,
                ));
                lemma_settled(u, app@, 1);
            }
            return Some((p, FLOGGER_LABEL));
        }
        proof {
            lemma_grown(ob, fs.ops(), n);
        }
    }
    proof {
        let t = paths.take(2);
        assert(t.drop_last() =~= paths.take(1));
        assert(fs.ops().subrange(n, fs.ops().len() as int) =~= refusals(t));
    }
    let ghost ob = fs.ops();
    if let Some(p) = build("C:\\", "logs_", app) {
        if can_append(fs, &p) {
            proof {
                lemma_grown(ob, fs.ops(), n);
                let u = fs.ops().subrange(n, fs.ops().len() as int);
                let before = refusals(paths.take(2));
                assert(u.subrange(0, before.len() as int) =~= before);
                assert(u.subrange(before.len() as int, u.len() as int) =~= fs.ops().subrange(
                    ob.len() as int,
                    fs.ops().len() as int,
                ));
                lemma_settled(u, app@, 2);
            }
            return Some((p, ROOT_LABEL));
        }
        proof {
            lemma_grown(ob, fs.ops(), n);
        }
    }
    proof {
        let t = paths.take(3);
        assert(t.drop_last() =~= paths.take(2));
        assert(paths.take(3) =~= paths);
        let u = fs.ops().subrange(n, fs.ops().len() as int);
        assert(u =~= refusals(t));
        assert(u.subrange(0, u.len() as int) =~= u);
        assert(settled(u, app@, 3));
    }
    match private_path(fs) {
        Ok(dir) => match Utf16Path::join(dir.as_units(), "log.txt") {
            Ok(p) => Some((p, PRIVATE_LABEL)),
            Err(_) => None,
        },
        Err(_) => None,
    }
}

} // verus!
