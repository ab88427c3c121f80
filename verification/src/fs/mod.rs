//! Files: UTF-16 paths, whole-file read and write, atomic replace, copy, and an append
//! that starts over past a size cap.
//!
//! # Why a trait
//!
//! [`Fs`] exists so the loops here can be proved and tested away from a phone. A partial
//! read, a partial write and a three-step atomic replace are where file code goes wrong,
//! and all three are logic sitting on top of a handful of calls. The trait states, over a
//! model of the file system (a map from path to bytes, and a map from open handle to
//! path and position), what each call may do; every loop here is verified against that
//! statement, and [`MemFs`] is an implementation verified against it too.
//!
//! # Paths
//!
//! Symbian paths are UTF-16, at most [`MAX_PATH`] units — the platform's `TFileName`.

use vstd::prelude::*;
use vstd::string::StringSliceAdditionalSpecFns;

use crate::error::{Error, Result, ERR_GENERAL};

pub mod mem;

pub use mem::MemFs;

verus! {

broadcast use {vstd::seq::group_seq_axioms, vstd::slice::group_slice_axioms};

/// Symbian's `TFileName` limit.
pub const MAX_PATH: usize = 256;

/// The backslash, as a UTF-16 unit.
pub const SEP: u16 = 0x5c;

/// The UTF-16 code units of one character.
pub open spec fn utf16_char(c: char) -> Seq<u16> {
    let v = c as u32;
    if v < 0x10000 {
        seq![v as u16]
    } else {
        let w = (v - 0x10000) as u32;
        seq![(0xD800 + (w >> 10u32)) as u16, (0xDC00 + (w & 0x3ff)) as u16]
    }
}

/// The UTF-16 code units of a string.
pub open spec fn utf16(s: Seq<char>) -> Seq<u16>
    decreases s.len(),
{
    if s.len() == 0 {
        Seq::empty()
    } else {
        utf16(s.drop_last()) + utf16_char(s.last())
    }
}

/// At most two units a character.
pub proof fn lemma_utf16_len(s: Seq<char>)
    ensures
        s.len() <= utf16(s).len() <= 2 * s.len(),
    decreases s.len(),
{
    if s.len() > 0 {
        lemma_utf16_len(s.drop_last());
    }
}

/// Text in ASCII is one unit a character, each the character's own code.
pub proof fn lemma_utf16_ascii(s: Seq<char>)
    requires
        forall|i: int| 0 <= i < s.len() ==> (#[trigger] s[i] as u32) < 0x80,
    ensures
        utf16(s).len() == s.len(),
        forall|i: int| 0 <= i < s.len() ==> #[trigger] utf16(s)[i] == (s[i] as u32) as u16,
    decreases s.len(),
{
    if s.len() > 0 {
        let d = s.drop_last();
        assert forall|i: int| 0 <= i < d.len() implies (#[trigger] d[i] as u32) < 0x80 by {
            assert(d[i] == s[i]);
        }
        lemma_utf16_ascii(d);
        assert(s.last() == s[s.len() - 1]);
        assert forall|i: int| 0 <= i < s.len() implies #[trigger] utf16(s)[i] == (s[i] as u32) as u16 by {
            if i < d.len() {
                assert(d[i] == s[i]);
            }
        }
    }
}

/// The units of two strings one after the other are the units of the two strings.
pub proof fn lemma_utf16_concat(a: Seq<char>, b: Seq<char>)
    ensures
        utf16(a + b) == utf16(a) + utf16(b),
    decreases b.len(),
{
    if b.len() == 0 {
        assert(a + b =~= a);
    } else {
        lemma_utf16_concat(a, b.drop_last());
        assert((a + b).drop_last() =~= a + b.drop_last());
        assert((a + b).last() == b.last());
    }
}

/// A string as UTF-16 code units. `str::encode_utf16`.
#[verifier::external_body]
pub(crate) fn encode_utf16(s: &str) -> (r: Vec<u16>)
    ensures
        r@ == utf16(s@),
{
    s.encode_utf16().collect()
}

/// `dir` followed by `name`, with one separator between them when `dir` does not already
/// end in one.
pub open spec fn joined(dir: Seq<u16>, name: Seq<u16>) -> Seq<u16> {
    if dir.len() > 0 && dir.last() != SEP {
        dir.push(SEP) + name
    } else {
        dir + name
    }
}

/// A UTF-16 path of at most [`MAX_PATH`] units, ready to hand to the platform.
#[derive(Debug)]
pub struct Utf16Path {
    units: Vec<u16>,
}

impl View for Utf16Path {
    type V = Seq<u16>;

    closed spec fn view(&self) -> Seq<u16> {
        self.units@
    }
}

impl Clone for Utf16Path {
    fn clone(&self) -> (r: Self)
        ensures
            r@ == self@,
    {
        proof {
            use_type_invariant(self);
        }
        let units = self.units.clone();
        assert(units@ =~= self.units@);
        Utf16Path { units }
    }
}

impl Utf16Path {
    #[verifier::type_invariant]
    closed spec fn fits(self) -> bool {
        self.units@.len() <= MAX_PATH
    }

    /// The path spelled by `s`, or [`Error::Overflow`] when it is longer than the platform
    /// can represent.
    pub fn new(s: &str) -> (r: Result<Self>)
        ensures
            r matches Ok(p) ==> p@ == utf16(s@),
            r is Ok <==> utf16(s@).len() <= MAX_PATH,
            r is Err ==> r == Err::<Self, Error>(Error::Overflow),
    {
        let units = encode_utf16(s);
        if units.len() > MAX_PATH {
            return Err(Error::Overflow);
        }
        Ok(Utf16Path { units })
    }

    /// A path from units already in UTF-16.
    pub fn from_units(units: &[u16]) -> (r: Result<Self>)
        ensures
            r matches Ok(p) ==> p@ == units@,
            r is Ok <==> units@.len() <= MAX_PATH,
            r is Err ==> r == Err::<Self, Error>(Error::Overflow),
    {
        if units.len() > MAX_PATH {
            return Err(Error::Overflow);
        }
        Ok(Utf16Path { units: vstd::slice::slice_to_vec(units) })
    }

    /// A directory and a file name, with a separator inserted when the directory does not
    /// already end in one.
    pub fn join(dir: &[u16], name: &str) -> (r: Result<Self>)
        ensures
            r matches Ok(p) ==> p@ == joined(dir@, utf16(name@)),
            r is Ok <==> joined(dir@, utf16(name@)).len() <= MAX_PATH,
            r is Err ==> r == Err::<Self, Error>(Error::Overflow),
    {
        let tail = encode_utf16(name);
        let needs_sep = dir.len() > 0 && dir[dir.len() - 1] != SEP;
        let extra: usize = if needs_sep { 1 } else { 0 };
        if dir.len() > MAX_PATH || tail.len() > MAX_PATH || dir.len() + extra + tail.len()
            > MAX_PATH {
            return Err(Error::Overflow);
        }
        let mut units = vstd::slice::slice_to_vec(dir);
        if needs_sep {
            units.push(SEP);
        }
        units.extend_from_slice(tail.as_slice());
        assert(units@ =~= joined(dir@, utf16(name@)));
        Ok(Utf16Path { units })
    }

    /// The units, for the platform call.
    pub fn as_units(&self) -> (r: &[u16])
        ensures
            r@ == self@,
            r@.len() <= MAX_PATH,
    {
        proof {
            use_type_invariant(self);
        }
        self.units.as_slice()
    }

    pub fn len(&self) -> (r: usize)
        ensures
            r == self@.len(),
            r <= MAX_PATH,
    {
        proof {
            use_type_invariant(self);
        }
        self.units.len()
    }

    pub fn is_empty(&self) -> (r: bool)
        ensures
            r == (self@.len() == 0),
    {
        self.units.len() == 0
    }

    /// The same path with `suffix` appended, for a temporary name beside the real one.
    pub fn with_suffix(&self, suffix: &str) -> (r: Result<Self>)
        ensures
            r matches Ok(p) ==> p@ == self@ + utf16(suffix@),
            r is Ok <==> self@.len() + utf16(suffix@).len() <= MAX_PATH,
            r is Err ==> r == Err::<Self, Error>(Error::Overflow),
    {
        proof {
            use_type_invariant(self);
        }
        let tail = encode_utf16(suffix);
        if tail.len() > MAX_PATH || self.units.len() + tail.len() > MAX_PATH {
            return Err(Error::Overflow);
        }
        let mut units = self.units.clone();
        units.extend_from_slice(tail.as_slice());
        assert(units@ =~= self@ + utf16(suffix@));
        Ok(Utf16Path { units })
    }
}

/// How to open a file.
#[derive(Copy, Clone, Debug, PartialEq, Eq, Structural)]
pub enum OpenMode {
    /// Must exist.
    Read,
    /// Truncate or create.
    Replace,
    /// Create if absent, then position at the end.
    Append,
}

/// One entry's metadata, as [`Fs::stat`] reports it.
#[derive(Copy, Clone, Debug, Default, PartialEq, Eq)]
pub struct Stat {
    pub size: u64,
    pub year: i32,
    pub month: i32,
    pub day: i32,
    pub hour: i32,
    pub minute: i32,
    pub second: i32,
    /// `KEntryAtt*` bits, as the file server reports them.
    pub attributes: i32,
    pub is_dir: bool,
}

/// The file system as a model: what each path holds, and where each open handle is.
pub type Files = Map<Seq<u16>, Seq<u8>>;

/// An open handle: the path it reads and writes, and its position.
pub type Handles = Map<i32, (Seq<u16>, nat)>;

/// What a successful [`Fs::open`] does: a fresh handle at the start of the file (or at
/// its end, for [`OpenMode::Append`]), and for a write mode the file exists afterwards.
pub open spec fn opened<F: Fs>(before: F, after: F, path: Seq<u16>, mode: OpenMode, h: i32) -> bool {
    &&& !before.handles().contains_key(h)
    &&& match mode {
        OpenMode::Read => before.files().contains_key(path) && after.files() == before.files()
            && after.handles() == before.handles().insert(h, (path, 0nat)),
        OpenMode::Replace => after.files() == before.files().insert(path, Seq::empty())
            && after.handles() == before.handles().insert(h, (path, 0nat)),
        OpenMode::Append => after.files() == with_file(before.files(), path) && after.handles()
            == before.handles().insert(h, (path, after.files()[path].len())),
    }
}

/// The files, with `path` created empty when it was not there.
pub open spec fn with_file(files: Files, path: Seq<u16>) -> Files {
    if files.contains_key(path) {
        files
    } else {
        files.insert(path, Seq::empty())
    }
}

/// What `path` holds, or nothing when it does not exist.
pub open spec fn contents_or_empty(files: Files, path: Seq<u16>) -> Seq<u8> {
    if files.contains_key(path) {
        files[path]
    } else {
        Seq::empty()
    }
}

/// A request that opens, releases, moves or removes a file, as the file system's journal
/// records it, with whether it succeeded.
pub ghost enum FsOp {
    Open(Seq<u16>, OpenMode, bool),
    Close(i32),
    Delete(Seq<u16>, bool),
    Rename(Seq<u16>, Seq<u16>, bool),
}

/// The calls everything here is built from, in their raw shape: a read that may return
/// less than asked, a write that may take less than offered. The looping belongs above
/// this line, where it is verified.
pub trait Fs: Sized {
    /// What each file holds. An implementation states its own model; one that states none
    /// has nothing to show.
    closed spec fn files(&self) -> Files {
        Map::empty()
    }

    /// Each open handle's path and position.
    closed spec fn handles(&self) -> Handles {
        Map::empty()
    }

    /// The application's private directory.
    closed spec fn private_dir(&self) -> Seq<u16> {
        Seq::empty()
    }

    /// The implementation's own consistency.
    closed spec fn inv(&self) -> bool {
        true
    }

    /// Every open, close, rename and delete asked of it so far, oldest first.
    closed spec fn ops(&self) -> Seq<FsOp> {
        Seq::empty()
    }

    /// Whether it fails only where its model says a request must: no disk error, no full
    /// disk. An implementation that promises nothing of the kind leaves this false.
    closed spec fn steady(&self) -> bool {
        false
    }

    /// How many more files it can open.
    closed spec fn room(&self) -> nat {
        0
    }

    fn open(&mut self, path: &[u16], mode: OpenMode) -> (r: Result<i32>)
        requires
            old(self).inv(),
        ensures
            final(self).inv(),
            final(self).private_dir() == old(self).private_dir(),
            final(self).ops() == old(self).ops().push(FsOp::Open(path@, mode, r is Ok)),
            old(self).steady() ==> final(self).steady(),
            final(self).room() + 1 >= old(self).room(),
            old(self).steady() && old(self).room() > 0 && (mode is Read ==> old(self).files().contains_key(path@)) ==> r is Ok,
            old(self).steady() && mode is Read && !old(self).files().contains_key(path@) ==> r
                == Err::<i32, Error>(Error::NotFound),
            r matches Ok(h) ==> {
                &&& !old(self).handles().contains_key(h)
                &&& match mode {
                    OpenMode::Read => old(self).files().contains_key(path@) && final(self).files()
                        == old(self).files() && final(self).handles() == old(self).handles().insert(
                        h,
                        (path@, 0nat),
                    ),
                    OpenMode::Replace => final(self).files() == old(self).files().insert(
                        path@,
                        Seq::empty(),
                    ) && final(self).handles() == old(self).handles().insert(h, (path@, 0nat)),
                    OpenMode::Append => final(self).files() == with_file(old(self).files(), path@)
                        && final(self).handles() == old(self).handles().insert(
                        h,
                        (path@, final(self).files()[path@].len()),
                    ),
                }
            },
            r is Err ==> final(self).files() == old(self).files() && final(self).handles()
                == old(self).handles(),
            mode is Read && !old(self).files().contains_key(path@) ==> (r matches Err(e)
                && e.spec_is_missing()),
            mode is Read && (r matches Err(e) && e.spec_is_missing()) ==> !old(
                self,
            ).files().contains_key(path@),
    ;

    fn read(&mut self, handle: i32, buf: &mut [u8]) -> (r: Result<usize>)
        requires
            old(self).inv(),
        ensures
            final(self).inv(),
            final(self).private_dir() == old(self).private_dir(),
            final(self).ops() == old(self).ops(),
            old(self).steady() ==> final(self).steady(),
            final(self).room() >= old(self).room(),
            old(self).steady() && old(self).handles().contains_key(handle) ==> r is Ok,
            final(self).files() == old(self).files(),
            final(buf)@.len() == old(buf)@.len(),
            r matches Ok(n) ==> {
                let (p, pos) = old(self).handles()[handle];
                let data = old(self).files()[p];
                &&& old(self).handles().contains_key(handle)
                &&& old(self).files().contains_key(p)
                &&& n <= old(buf)@.len()
                &&& n == 0 || pos + n <= data.len()
                &&& forall|i: int| 0 <= i < n ==> #[trigger] final(buf)@[i] == data[pos + i]
                &&& n == 0 && old(buf)@.len() > 0 ==> pos >= data.len()
                &&& final(self).handles() == old(self).handles().insert(handle, (p, (pos + n) as nat))
            },
            r is Err ==> final(self).handles() == old(self).handles(),
    ;

    fn write(&mut self, handle: i32, buf: &[u8]) -> (r: Result<usize>)
        requires
            old(self).inv(),
        ensures
            final(self).inv(),
            final(self).private_dir() == old(self).private_dir(),
            final(self).ops() == old(self).ops(),
            old(self).steady() ==> final(self).steady(),
            final(self).room() >= old(self).room(),
            old(self).steady() && old(self).handles().contains_key(handle) && old(self).handles()[handle].1
                + buf@.len() <= usize::MAX ==> (r matches Ok(n) && (buf@.len() > 0 ==> n > 0)),
            r matches Ok(n) ==> {
                let (p, pos) = old(self).handles()[handle];
                let data = old(self).files()[p];
                &&& old(self).handles().contains_key(handle)
                &&& old(self).files().contains_key(p)
                &&& n <= buf@.len()
                &&& final(self).handles() == old(self).handles().insert(handle, (p, (pos + n) as nat))
                &&& final(self).files() == old(self).files().insert(p, final(self).files()[p])
                &&& pos == data.len() ==> final(self).files()[p] == data + buf@.subrange(
                    0,
                    n as int,
                )
            },
            r is Err ==> final(self).files() == old(self).files() && final(self).handles()
                == old(self).handles(),
    ;

    fn size(&mut self, handle: i32) -> (r: Result<u64>)
        requires
            old(self).inv(),
        ensures
            final(self).inv(),
            final(self).private_dir() == old(self).private_dir(),
            final(self).ops() == old(self).ops(),
            old(self).steady() ==> final(self).steady(),
            final(self).room() >= old(self).room(),
            old(self).steady() && old(self).handles().contains_key(handle) ==> r is Ok,
            final(self).files() == old(self).files(),
            final(self).handles() == old(self).handles(),
            r matches Ok(s) ==> {
                &&& old(self).handles().contains_key(handle)
                &&& old(self).files().contains_key(old(self).handles()[handle].0)
                &&& s == old(self).files()[old(self).handles()[handle].0].len()
            },
    ;

    fn seek(&mut self, handle: i32, pos: u64) -> (r: Result<()>)
        requires
            old(self).inv(),
        ensures
            final(self).inv(),
            final(self).private_dir() == old(self).private_dir(),
            final(self).ops() == old(self).ops(),
            old(self).steady() ==> final(self).steady(),
            final(self).room() >= old(self).room(),
            final(self).files() == old(self).files(),
            r is Ok ==> old(self).handles().contains_key(handle) && final(self).handles()
                == old(self).handles().insert(handle, (old(self).handles()[handle].0, pos as nat)),
            r is Err ==> final(self).handles() == old(self).handles(),
    ;

    fn close(&mut self, handle: i32)
        requires
            old(self).inv(),
        ensures
            final(self).inv(),
            final(self).private_dir() == old(self).private_dir(),
            final(self).ops() == old(self).ops().push(FsOp::Close(handle)),
            old(self).steady() ==> final(self).steady(),
            final(self).room() >= old(self).room(),
            final(self).files() == old(self).files(),
            final(self).handles() == old(self).handles().remove(handle),
    ;

    /// The file entries (not subdirectories) of `path`, NUL-separated, into `out`.
    fn list_dir(&mut self, path: &[u16], out: &mut [u16]) -> (r: Result<usize>)
        requires
            old(self).inv(),
        ensures
            final(self).inv(),
            final(self).private_dir() == old(self).private_dir(),
            final(self).ops() == old(self).ops(),
            old(self).steady() ==> final(self).steady(),
            final(self).room() >= old(self).room(),
            final(self).files() == old(self).files(),
            final(self).handles() == old(self).handles(),
            final(out)@.len() == old(out)@.len(),
    ;

    /// Like [`Fs::list_dir`], with each subdirectory written once, with a trailing `\`.
    fn list_entries(&mut self, path: &[u16], out: &mut [u16]) -> (r: Result<usize>)
        requires
            old(self).inv(),
        ensures
            final(self).inv(),
            final(self).private_dir() == old(self).private_dir(),
            final(self).ops() == old(self).ops(),
            old(self).steady() ==> final(self).steady(),
            final(self).room() >= old(self).room(),
            final(self).files() == old(self).files(),
            final(self).handles() == old(self).handles(),
            final(out)@.len() == old(out)@.len(),
    ;

    fn stat(&mut self, path: &[u16]) -> (r: Result<Stat>)
        requires
            old(self).inv(),
        ensures
            final(self).inv(),
            final(self).private_dir() == old(self).private_dir(),
            final(self).ops() == old(self).ops(),
            old(self).steady() ==> final(self).steady(),
            final(self).room() >= old(self).room(),
            final(self).files() == old(self).files(),
            final(self).handles() == old(self).handles(),
            r matches Ok(st) ==> (!st.is_dir ==> old(self).files().contains_key(path@)
                && st.size == old(self).files()[path@].len()),
    ;

    fn delete(&mut self, path: &[u16]) -> (r: Result<()>)
        requires
            old(self).inv(),
        ensures
            final(self).inv(),
            final(self).private_dir() == old(self).private_dir(),
            final(self).ops() == old(self).ops().push(FsOp::Delete(path@, r is Ok)),
            old(self).steady() ==> final(self).steady(),
            final(self).room() >= old(self).room(),
            old(self).steady() && old(self).files().contains_key(path@) ==> r is Ok,
            r is Ok ==> old(self).files().contains_key(path@) && final(self).files() == old(
                self,
            ).files().remove(path@),
            r is Err ==> final(self).files() == old(self).files(),
            !old(self).files().contains_key(path@) ==> r is Err,
            final(self).handles().dom().subset_of(old(self).handles().dom()),
    ;

    fn rename(&mut self, from: &[u16], to: &[u16]) -> (r: Result<()>)
        requires
            old(self).inv(),
        ensures
            final(self).inv(),
            final(self).private_dir() == old(self).private_dir(),
            final(self).ops() == old(self).ops().push(FsOp::Rename(from@, to@, r is Ok)),
            old(self).steady() ==> final(self).steady(),
            final(self).room() >= old(self).room(),
            old(self).steady() && old(self).files().contains_key(from@) && from@ != to@ ==> r is Ok,
            r is Ok ==> old(self).files().contains_key(from@) && final(self).files() == old(
                self,
            ).files().remove(from@).insert(to@, old(self).files()[from@]),
            r is Err && from@ != to@ ==> final(self).files() == old(self).files(),
            !old(self).files().contains_key(from@) ==> r is Err,
            final(self).handles().dom().subset_of(old(self).handles().dom()),
    ;

    /// Create a directory. An existing one is success.
    fn mkdir(&mut self, path: &[u16]) -> (r: Result<()>)
        requires
            old(self).inv(),
        ensures
            final(self).inv(),
            final(self).private_dir() == old(self).private_dir(),
            final(self).ops() == old(self).ops(),
            old(self).steady() ==> final(self).steady(),
            final(self).room() >= old(self).room(),
            old(self).steady() ==> r is Ok,
            final(self).files() == old(self).files(),
            final(self).handles() == old(self).handles(),
    ;

    /// The application's private directory, created if absent.
    fn private_path(&mut self, out: &mut [u16]) -> (r: Result<usize>)
        requires
            old(self).inv(),
        ensures
            final(self).inv(),
            final(self).private_dir() == old(self).private_dir(),
            final(self).ops() == old(self).ops(),
            old(self).steady() ==> final(self).steady(),
            final(self).room() >= old(self).room(),
            old(self).steady() && old(self).private_dir().len() <= old(out)@.len() ==> r is Ok,
            final(self).files() == old(self).files(),
            final(self).handles() == old(self).handles(),
            final(out)@.len() == old(out)@.len(),
            r matches Ok(n) ==> n <= old(out)@.len() && final(out)@.subrange(0, n as int)
                == old(self).private_dir(),
    ;
}


/// Whether two unit strings are the same.
pub fn units_eq(a: &[u16], b: &[u16]) -> (r: bool)
    ensures
        r == (a@ == b@),
{
    if a.len() != b.len() {
        return false;
    }
    let mut i: usize = 0;
    while i < a.len()
        invariant
            a@.len() == b@.len(),
            i <= a@.len(),
            forall|j: int| 0 <= j < i ==> a@[j] == b@[j],
        decreases a@.len() - i,
    {
        if a[i] != b[i] {
            return false;
        }
        i += 1;
    }
    assert(a@ =~= b@);
    true
}

/// How many bytes are left from `pos` in something `len` long.
pub open spec fn avail(len: nat, pos: nat) -> nat {
    if pos <= len {
        (len - pos) as nat
    } else {
        0
    }
}

/// The handle's path and position.
pub open spec fn at<F: Fs>(fs: F, h: i32) -> (Seq<u16>, nat) {
    fs.handles()[h]
}

/// `h` is open on a file that exists.
pub open spec fn live<F: Fs>(fs: F, h: i32) -> bool {
    fs.handles().contains_key(h) && fs.files().contains_key(fs.handles()[h].0)
}

/// Read into `buf` until it is full or the file ends, through a raw handle.
///
/// The loop is the point: a read may return less than asked, so one call is not a
/// whole-file read.
pub fn read_fully_raw<F: Fs>(fs: &mut F, h: i32, buf: &mut [u8]) -> (r: Result<usize>)
    requires
        old(fs).inv(),
        live(*old(fs), h),
    ensures
        final(fs).inv(),
        final(fs).private_dir() == old(fs).private_dir(),
        final(fs).files() == old(fs).files(),
        final(fs).ops() == old(fs).ops(),
        old(fs).steady() ==> final(fs).steady() && r is Ok,
        final(fs).room() >= old(fs).room(),
        final(buf)@.len() == old(buf)@.len(),
        r matches Ok(n) ==> {
            let (p, pos) = at(*old(fs), h);
            let data = old(fs).files()[p];
            &&& n as nat == (if old(buf)@.len() <= avail(data.len(), pos) {
                old(buf)@.len()
            } else {
                avail(data.len(), pos)
            })
            &&& forall|i: int| 0 <= i < n ==> #[trigger] final(buf)@[i] == data[pos + i]
            &&& final(fs).handles() == old(fs).handles().insert(h, (p, (pos + n) as nat))
        },
        r is Err ==> final(fs).handles() == old(fs).handles().insert(
            h,
            (at(*old(fs), h).0, final(fs).handles()[h].1),
        ),
{
    let ghost p = at(*fs, h).0;
    let ghost pos0 = at(*fs, h).1;
    let ghost data = fs.files()[p];
    let ghost h0 = fs.handles();
    let len = buf.len();
    let mut done: usize = 0;
    proof {
        assert(h0.insert(h, (p, (pos0 + 0) as nat)) =~= h0);
    }
    while done < len
        invariant
            fs.inv(),
            fs.private_dir() == old(fs).private_dir(),
            fs.ops() == old(fs).ops(),
            old(fs).steady() ==> fs.steady(),
            fs.room() >= old(fs).room(),
            fs.files() == old(fs).files(),
            fs.files()[p] == data,
            fs.files().contains_key(p),
            h0 == old(fs).handles(),
            p == at(*old(fs), h).0,
            fs.handles() == h0.insert(h, (p, (pos0 + done) as nat)),
            len == buf@.len(),
            len == old(buf)@.len(),
            done <= len,
            done == 0 || pos0 + done <= data.len(),
            forall|i: int| 0 <= i < done ==> #[trigger] buf@[i] == data[pos0 + i],
        ensures
            done == len || pos0 + done >= data.len(),
            done <= len,
            done == 0 || pos0 + done <= data.len(),
            fs.handles() == h0.insert(h, (p, (pos0 + done) as nat)),
            forall|i: int| 0 <= i < done ==> #[trigger] buf@[i] == data[pos0 + i],
            fs.inv(),
            fs.files() == old(fs).files(),
            fs.private_dir() == old(fs).private_dir(),
            fs.ops() == old(fs).ops(),
            old(fs).steady() ==> fs.steady(),
            fs.room() >= old(fs).room(),
            buf@.len() == len,
        decreases len - done,
    {
        let want = len - done;
        let mut tmp: Vec<u8> = vec![0u8; want];
        let ghost hb = fs.handles();
        let n = match fs.read(h, tmp.as_mut_slice()) {
            Ok(n) => n,
            Err(e) => {
                return Err(e);
            },
        };
        if n == 0 {
            break;
        }
        let ghost before = buf@;
        let mut k: usize = 0;
        while k < n
            invariant
                k <= n,
                n <= tmp@.len(),
                done + tmp@.len() == len,
                buf@.len() == len,
                forall|i: int| 0 <= i < done ==> buf@[i] == before[i],
                forall|i: int| 0 <= i < k ==> buf@[done + i] == tmp@[i],
            decreases n - k,
        {
            buf[done + k] = tmp[k];
            k += 1;
        }
        proof {
            assert forall|i: int| 0 <= i < done + n implies #[trigger] buf@[i] == data[pos0 + i] by {
                if i < done {
                    assert(before[i] == data[pos0 + i]);
                } else {
                    assert(buf@[done + (i - done)] == tmp@[i - done]);
                    assert(tmp@[i - done] == data[pos0 + done + (i - done)]);
                }
            }
            assert(h0.insert(h, (p, (pos0 + done) as nat)).insert(h, (p, (pos0 + done + n) as nat))
                =~= h0.insert(h, (p, (pos0 + done + n) as nat)));
        }
        done = done + n;
    }
    Ok(done)
}

/// Write all of `data` through a raw handle positioned at the end of its file, looping
/// over partial writes; a write that takes nothing and reports no error is `stall`.
pub fn write_all_raw<F: Fs>(fs: &mut F, h: i32, data: &[u8], stall: Error) -> (r: Result<()>)
    requires
        old(fs).inv(),
        live(*old(fs), h),
        at(*old(fs), h).1 == old(fs).files()[at(*old(fs), h).0].len(),
    ensures
        final(fs).inv(),
        final(fs).private_dir() == old(fs).private_dir(),
        final(fs).ops() == old(fs).ops(),
        old(fs).steady() ==> final(fs).steady(),
        final(fs).room() >= old(fs).room(),
        old(fs).steady() && old(fs).files()[at(*old(fs), h).0].len() + data@.len() <= usize::MAX
            ==> r is Ok,
        ({
            let p = at(*old(fs), h).0;
            &&& r is Ok ==> final(fs).files() == old(fs).files().insert(
                p,
                old(fs).files()[p] + data@,
            ) && final(fs).handles() == old(fs).handles().insert(
                h,
                (p, (old(fs).files()[p].len() + data@.len()) as nat),
            )
            &&& final(fs).files() == old(fs).files().insert(p, final(fs).files()[p])
            &&& final(fs).handles() == old(fs).handles().insert(h, (p, final(fs).handles()[h].1))
            &&& r matches Err(e) ==> e == stall || old(fs).files()[p].is_prefix_of(
                final(fs).files()[p],
            )
        }),
{
    let ghost p = at(*fs, h).0;
    let ghost start = fs.files()[p];
    let ghost f0 = fs.files();
    let ghost h0 = fs.handles();
    let len = data.len();
    let mut done: usize = 0;
    while done < len
        invariant
            fs.inv(),
            fs.private_dir() == old(fs).private_dir(),
            fs.ops() == old(fs).ops(),
            old(fs).steady() ==> fs.steady(),
            fs.room() >= old(fs).room(),
            f0 == old(fs).files(),
            h0 == old(fs).handles(),
            p == at(*old(fs), h).0,
            f0.contains_key(p),
            start == f0[p],
            len == data@.len(),
            done <= len,
            fs.files() == f0.insert(p, start + data@.subrange(0, done as int)),
            fs.handles() == h0.insert(h, (p, (start.len() + done) as nat)),
        decreases len - done,
    {
        let rest = vstd::slice::slice_subrange(data, done, len);
        let n = match fs.write(h, rest) {
            Ok(n) => n,
            Err(e) => {
                proof {
                    assert(fs.files()[p] == start + data@.subrange(0, done as int));
                    assert(start.is_prefix_of(fs.files()[p]));
                    assert(fs.files() =~= f0.insert(p, fs.files()[p]));
                    assert(fs.handles() =~= h0.insert(h, (p, fs.handles()[h].1)));
                }
                return Err(e);
            },
        };
        if n == 0 {
            proof {
                assert(fs.files() =~= f0.insert(p, fs.files()[p]));
                assert(fs.handles() =~= h0.insert(h, (p, fs.handles()[h].1)));
            }
            return Err(stall);
        }
        proof {
            assert(start + data@.subrange(0, done as int) + rest@.subrange(0, n as int) =~= start
                + data@.subrange(0, done + n));
            assert(f0.insert(p, start + data@.subrange(0, done as int)).insert(
                p,
                start + data@.subrange(0, done + n),
            ) =~= f0.insert(p, start + data@.subrange(0, done + n)));
            assert(h0.insert(h, (p, (start.len() + done) as nat)).insert(h, (p, (start.len() + done + n) as nat))
                =~= h0.insert(h, (p, (start.len() + done + n) as nat)));
        }
        done = done + n;
    }
    proof {
        assert(data@.subrange(0, len as int) =~= data@);
    }
    Ok(())
}

/// An open file on some [`Fs`].
///
/// Close it with [`File::close`]: handles are the platform's scarce resource.
pub struct File<'a, F: Fs> {
    fs: &'a mut F,
    handle: i32,
}

impl<'a, F: Fs> File<'a, F> {
    /// The file system this file is open on.
    pub closed spec fn on(&self) -> F {
        *self.fs
    }

    /// The raw handle.
    pub closed spec fn raw(&self) -> i32 {
        self.handle
    }

    pub fn open(fs: &'a mut F, path: &Utf16Path, mode: OpenMode) -> (r: Result<Self>)
        requires
            old(fs).inv(),
        ensures
            r matches Ok(f) ==> f.on().inv() && opened(*old(fs), f.on(), path@, mode, f.raw()),
            r matches Ok(f) ==> (old(fs).steady() ==> f.on().steady()),
            old(fs).steady() && old(fs).room() > 0 && (mode is Read ==> old(fs).files().contains_key(
                path@,
            )) ==> r is Ok,
    {
        let handle = fs.open(path.as_units(), mode)?;
        Ok(File { fs, handle })
    }

    /// The raw handle, for a caller driving the platform directly.
    pub fn handle(&self) -> (r: i32)
        ensures
            r == self.raw(),
    {
        self.handle
    }

    pub fn size(&mut self) -> (r: Result<u64>)
        requires
            old(self).on().inv(),
        ensures
            final(self).on() == old(self).on() || (final(self).on().inv() && final(self).on().files()
                == old(self).on().files() && final(self).on().handles() == old(self).on().handles()),
            final(self).on().inv(),
            final(self).raw() == old(self).raw(),
            final(self).on().files() == old(self).on().files(),
            final(self).on().handles() == old(self).on().handles(),
            r matches Ok(s) ==> live(old(self).on(), old(self).raw()) && s == old(self).on().files()[at(
                old(self).on(),
                old(self).raw(),
            ).0].len(),
            old(self).on().steady() ==> final(self).on().steady(),
            old(self).on().steady() && old(self).on().handles().contains_key(old(self).raw()) ==> r is Ok,
    {
        self.fs.size(self.handle)
    }

    pub fn seek(&mut self, pos: u64) -> (r: Result<()>)
        requires
            old(self).on().inv(),
        ensures
            final(self).on().inv(),
            final(self).raw() == old(self).raw(),
            final(self).on().files() == old(self).on().files(),
            r is Ok ==> final(self).on().handles() == old(self).on().handles().insert(
                old(self).raw(),
                (at(old(self).on(), old(self).raw()).0, pos as nat),
            ),
    {
        self.fs.seek(self.handle, pos)
    }

    /// Read into `buf` until it is full or the file ends. Returns how much was read.
    pub fn read_fully(&mut self, buf: &mut [u8]) -> (r: Result<usize>)
        requires
            old(self).on().inv(),
            live(old(self).on(), old(self).raw()),
        ensures
            final(self).on().inv(),
            final(self).raw() == old(self).raw(),
            final(self).on().files() == old(self).on().files(),
            final(buf)@.len() == old(buf)@.len(),
            r matches Ok(n) ==> {
                let (p, pos) = at(old(self).on(), old(self).raw());
                let data = old(self).on().files()[p];
                &&& n as nat == (if old(buf)@.len() <= avail(data.len(), pos) {
                    old(buf)@.len()
                } else {
                    avail(data.len(), pos)
                })
                &&& forall|i: int| 0 <= i < n ==> #[trigger] final(buf)@[i] == data[pos + i]
            },
            old(self).on().steady() ==> final(self).on().steady() && r is Ok,
    {
        read_fully_raw(self.fs, self.handle, buf)
    }

    /// Write the whole buffer, looping over partial writes. The file must be positioned at
    /// its end (a fresh [`OpenMode::Replace`] or [`OpenMode::Append`]).
    pub fn write_all(&mut self, buf: &[u8]) -> (r: Result<()>)
        requires
            old(self).on().inv(),
            live(old(self).on(), old(self).raw()),
            at(old(self).on(), old(self).raw()).1 == old(self).on().files()[at(
                old(self).on(),
                old(self).raw(),
            ).0].len(),
        ensures
            final(self).on().inv(),
            final(self).raw() == old(self).raw(),
            r is Ok ==> {
                let p = at(old(self).on(), old(self).raw()).0;
                final(self).on().files() == old(self).on().files().insert(
                    p,
                    old(self).on().files()[p] + buf@,
                )
            },
            old(self).on().steady() ==> final(self).on().steady(),
            old(self).on().steady() && old(self).on().files()[at(old(self).on(), old(self).raw()).0].len()
                + buf@.len() <= usize::MAX ==> r is Ok,
    {
        write_all_raw(self.fs, self.handle, buf, Error::Platform(ERR_GENERAL))
    }

    /// Give the handle back.
    pub fn close(self)
        requires
            self.on().inv(),
    {
        self.fs.close(self.handle);
    }
}


/// The app's private directory as a path.
pub fn private_path<F: Fs>(fs: &mut F) -> (r: Result<Utf16Path>)
    requires
        old(fs).inv(),
    ensures
        final(fs).inv(),
        final(fs).private_dir() == old(fs).private_dir(),
        final(fs).files() == old(fs).files(),
        final(fs).handles() == old(fs).handles(),
        final(fs).ops() == old(fs).ops(),
        r matches Ok(p) ==> p@ == old(fs).private_dir(),
        old(fs).steady() ==> final(fs).steady(),
        final(fs).room() >= old(fs).room(),
        old(fs).steady() && old(fs).private_dir().len() <= MAX_PATH ==> r is Ok,
{
    let mut buf: Vec<u16> = vec![0u16; MAX_PATH];
    let n = fs.private_path(buf.as_mut_slice())?;
    if n > MAX_PATH {
        return Err(Error::Overflow);
    }
    buf.truncate(n);
    Ok(Utf16Path { units: buf })
}

/// Read a whole file. `Ok(None)` when it does not exist, which for a settings or session
/// file is the first run rather than a failure.
pub fn read<F: Fs>(fs: &mut F, path: &Utf16Path) -> (r: Result<Option<Vec<u8>>>)
    requires
        old(fs).inv(),
    ensures
        final(fs).inv(),
        final(fs).private_dir() == old(fs).private_dir(),
        final(fs).files() == old(fs).files(),
        final(fs).handles() == old(fs).handles(),
        r matches Ok(Some(v)) ==> old(fs).files().contains_key(path@) && v@ == old(
            fs,
        ).files()[path@],
        r matches Ok(None) <==> !old(fs).files().contains_key(path@),
        old(fs).steady() ==> final(fs).steady(),
        final(fs).room() + 1 >= old(fs).room(),
        old(fs).steady() && old(fs).room() > 0 && readable(old(fs).files(), path@) ==> r is Ok,
{
    let h = match fs.open(path.as_units(), OpenMode::Read) {
        Ok(h) => h,
        Err(e) => {
            if e.is_missing() {
                return Ok(None);
            }
            return Err(e);
        },
    };
    let ghost h0 = old(fs).handles();
    proof {
        assert(h0.insert(h, (path@, 0nat)).remove(h) =~= h0);
    }
    let size = match fs.size(h) {
        Ok(s) => s,
        Err(e) => {
            fs.close(h);
            return Err(e);
        },
    };
    if size > usize::MAX as u64 {
        fs.close(h);
        return Err(Error::Overflow);
    }
    let mut buf: Vec<u8> = vec![0u8; size as usize];
    let got = match read_fully_raw(fs, h, buf.as_mut_slice()) {
        Ok(n) => n,
        Err(e) => {
            proof {
                assert(fs.handles().remove(h) =~= h0);
            }
            fs.close(h);
            return Err(e);
        },
    };
    proof {
        assert(fs.handles().remove(h) =~= h0);
    }
    fs.close(h);
    buf.truncate(got);
    proof {
        assert(buf@ =~= old(fs).files()[path@]);
    }
    Ok(Some(buf))
}

/// `path` is absent, or holds no more bytes than memory can.
pub open spec fn readable(files: Files, path: Seq<u16>) -> bool {
    files.contains_key(path) ==> files[path].len() <= usize::MAX
}

/// The temporary name a replace writes beside `path`.
pub open spec fn tmp_of(path: Seq<u16>) -> Seq<u16> {
    path + utf16(".tmp"@)
}

/// Replace a file's contents atomically: write `<path>.tmp`, close it, rename it over the
/// target. A failure at any point leaves the target as it was.
pub fn write_atomic<F: Fs>(fs: &mut F, path: &Utf16Path, data: &[u8]) -> (r: Result<()>)
    requires
        old(fs).inv(),
    ensures
        final(fs).inv(),
        final(fs).private_dir() == old(fs).private_dir(),
        final(fs).handles().dom().subset_of(old(fs).handles().dom()),
        r is Ok ==> final(fs).files() == old(fs).files().remove(tmp_of(path@)).insert(
            path@,
            data@,
        ),
        r is Err ==> final(fs).files().remove(tmp_of(path@)) == old(fs).files().remove(
            tmp_of(path@),
        ),
        old(fs).steady() ==> final(fs).steady(),
        final(fs).room() + 1 >= old(fs).room(),
        old(fs).steady() && old(fs).room() > 0 && tmp_of(path@).len() <= MAX_PATH ==> r is Ok,
        tmp_of(path@).len() > MAX_PATH ==> r == Err::<(), Error>(Error::Overflow) && final(fs).ops()
            == old(fs).ops(),
        tmp_of(path@).len() <= MAX_PATH ==> final(fs).ops().subrange(0, old(fs).ops().len() as int)
            == old(fs).ops() && replace_run(
            final(fs).ops().subrange(old(fs).ops().len() as int, final(fs).ops().len() as int),
            path@,
            r is Ok,
        ),
{
    let tmp = path.with_suffix(".tmp")?;
    proof {
        reveal_strlit(".tmp");
        assert(tmp@.len() > path@.len());
    }
    let ghost f0 = old(fs).files();
    let ghost h0 = old(fs).handles();
    let ghost o0 = old(fs).ops();
    let h = match fs.open(tmp.as_units(), OpenMode::Replace) {
        Ok(h) => h,
        Err(e) => {
            proof {
                assert(fs.ops().subrange(0, o0.len() as int) =~= o0);
                assert(fs.ops().subrange(o0.len() as int, fs.ops().len() as int) =~= seq![
                    FsOp::Open(tmp@, OpenMode::Replace, false),
                ]);
            }
            return Err(e);
        },
    };
    let dlen = data.len();
    proof {
        assert(fs.files().remove(tmp@) =~= f0.remove(tmp@));
        assert(fs.files()[tmp@].len() == 0);
        assert(data@.len() == dlen);
    }
    let written = write_all_raw(fs, h, data, Error::Platform(ERR_GENERAL));
    proof {
        assert(fs.files().remove(tmp@) =~= f0.remove(tmp@));
        assert(fs.handles().remove(h).dom() =~= h0.dom());
    }
    fs.close(h);
    let ghost o2 = fs.ops();
    proof {
        assert(o2.subrange(0, o0.len() as int) =~= o0);
        let t = o2.subrange(o0.len() as int, o2.len() as int);
        assert(t[0] == o2[o0.len() as int]);
        assert(t[1] == o2[o0.len() + 1int]);
    }
    if let Err(e) = written {
        return Err(e);
    }
    proof {
        assert(fs.files()[tmp@] =~= data@);
    }
    let renamed = fs.rename(tmp.as_units(), path.as_units());
    proof {
        if renamed is Ok {
            assert(fs.files() =~= f0.remove(tmp@).insert(path@, data@));
        } else {
            assert(tmp@ != path@);
        }
        assert(fs.ops().subrange(0, o0.len() as int) =~= o0);
        let t = fs.ops().subrange(o0.len() as int, fs.ops().len() as int);
        assert(t[0] == fs.ops()[o0.len() as int]);
        assert(t[1] == fs.ops()[o0.len() + 1int]);
        assert(t[2] == fs.ops()[o0.len() + 2int]);
    }
    renamed
}

/// The requests an atomic replace of `path` makes, in order, and where it may stop: open the
/// temporary name to replace (a refusal ends it), close it once the bytes are written or a
/// write failed, and only then rename it over `path`. `ok` is whether the replace succeeded.
pub open spec fn replace_run(ops: Seq<FsOp>, path: Seq<u16>, ok: bool) -> bool {
    let tmp = tmp_of(path);
    ||| ops == seq![FsOp::Open(tmp, OpenMode::Replace, false)] && !ok
    ||| ops.len() == 2 && ops[0] == FsOp::Open(tmp, OpenMode::Replace, true) && ops[1] is Close
        && !ok
    ||| ops.len() == 3 && ops[0] == FsOp::Open(tmp, OpenMode::Replace, true) && ops[1] is Close
        && ops[2] == FsOp::Rename(tmp, path, ok)
}

/// What a copy from `from` puts at `to`: the source's bytes, or nothing when the source is
/// the temporary name itself, which the copy truncates before reading it.
pub open spec fn copied(files: Files, from: Seq<u16>, to: Seq<u16>) -> Seq<u8> {
    if from == tmp_of(to) {
        Seq::empty()
    } else {
        files[from]
    }
}

/// The requests a copy makes, in order, and where it may stop: open the source to read (a
/// refusal ends it); open the temporary name to replace (a refusal closes the source and ends
/// it); close both once the bytes are across or a read or write failed; rename the temporary
/// name over the target when they are across. `ok` is whether the whole copy succeeded.
pub open spec fn copy_run(ops: Seq<FsOp>, from: Seq<u16>, to: Seq<u16>, ok: bool) -> bool {
    let tmp = tmp_of(to);
    ||| ops == seq![FsOp::Open(from, OpenMode::Read, false)] && !ok
    ||| ops.len() == 3 && ops[0] == FsOp::Open(from, OpenMode::Read, true) && ops[1] == FsOp::Open(
        tmp,
        OpenMode::Replace,
        false,
    ) && ops[2] is Close && !ok
    ||| ops.len() == 4 && ops[0] == FsOp::Open(from, OpenMode::Read, true) && ops[1] == FsOp::Open(
        tmp,
        OpenMode::Replace,
        true,
    ) && ops[2] is Close && ops[3] is Close && !ok
    ||| ops.len() == 5 && ops[0] == FsOp::Open(from, OpenMode::Read, true) && ops[1] == FsOp::Open(
        tmp,
        OpenMode::Replace,
        true,
    ) && ops[2] is Close && ops[3] is Close && ops[4] == FsOp::Rename(tmp, to, ok)
}

/// The chunk [`copy`] moves at a time.
pub const COPY_CHUNK: usize = 8 * 1024;

/// Copy `from` to `to`, atomically at the destination and without holding the file in
/// memory. [`Error::NotFound`] if the source is not there. Returns the bytes copied.
pub fn copy<F: Fs>(fs: &mut F, from: &Utf16Path, to: &Utf16Path) -> (r: Result<u64>)
    requires
        old(fs).inv(),
    ensures
        final(fs).inv(),
        final(fs).private_dir() == old(fs).private_dir(),
        final(fs).handles().dom().subset_of(old(fs).handles().dom()),
        r matches Ok(n) ==> old(fs).files().contains_key(from@) && n == copied(
            old(fs).files(),
            from@,
            to@,
        ).len() && final(fs).files() == old(fs).files().remove(tmp_of(to@)).insert(
            to@,
            copied(old(fs).files(), from@, to@),
        ),
        r is Err ==> final(fs).files().remove(tmp_of(to@)) == old(fs).files().remove(
            tmp_of(to@),
        ),
        tmp_of(to@).len() > MAX_PATH ==> r == Err::<u64, Error>(Error::Overflow) && final(fs).ops()
            == old(fs).ops() && final(fs).files() == old(fs).files(),
        tmp_of(to@).len() <= MAX_PATH ==> final(fs).ops().subrange(0, old(fs).ops().len() as int)
            == old(fs).ops() && copy_run(
            final(fs).ops().subrange(old(fs).ops().len() as int, final(fs).ops().len() as int),
            from@,
            to@,
            r is Ok,
        ),
        tmp_of(to@).len() <= MAX_PATH && !old(fs).files().contains_key(from@) ==> (r matches Err(e)
            && e.spec_is_missing()) && final(fs).files() == old(fs).files(),
        old(fs).steady() && tmp_of(to@).len() <= MAX_PATH && !old(fs).files().contains_key(from@)
            ==> r == Err::<u64, Error>(Error::NotFound),
        old(fs).steady() ==> final(fs).steady(),
        final(fs).room() + 2 >= old(fs).room(),
        old(fs).steady() && old(fs).room() >= 2 && tmp_of(to@).len() <= MAX_PATH && old(
            fs,
        ).files().contains_key(from@) && readable(old(fs).files(), from@) ==> r is Ok,
{
    let tmp = to.with_suffix(".tmp")?;
    let ghost f0 = old(fs).files();
    let ghost h0 = old(fs).handles();
    let ghost o0 = old(fs).ops();
    let ghost src_data = copied(f0, from@, to@);
    proof {
        reveal_strlit(".tmp");
        assert(tmp@.len() > to@.len());
    }
    let src = match fs.open(from.as_units(), OpenMode::Read) {
        Ok(h) => h,
        Err(e) => {
            proof {
                assert(fs.ops().subrange(0, o0.len() as int) =~= o0);
                assert(fs.ops().subrange(o0.len() as int, fs.ops().len() as int) =~= seq![
                    FsOp::Open(from@, OpenMode::Read, false),
                ]);
            }
            return Err(e);
        },
    };
    let dst = match fs.open(tmp.as_units(), OpenMode::Replace) {
        Ok(h) => h,
        Err(e) => {
            let ghost o1 = fs.ops();
            proof {
                assert(fs.handles().remove(src) =~= h0);
            }
            fs.close(src);
            proof {
                assert(fs.ops().subrange(0, o0.len() as int) =~= o0);
                let t = fs.ops().subrange(o0.len() as int, fs.ops().len() as int);
                assert(t[0] == fs.ops()[o0.len() as int]);
                assert(t[1] == fs.ops()[o0.len() + 1int]);
                assert(t[2] == fs.ops()[o0.len() + 2int]);
            }
            return Err(e);
        },
    };
    let ghost o2 = fs.ops();
    let mut buf: Vec<u8> = vec![0u8; COPY_CHUNK];
    let mut total: u64 = 0;
    let mut failed: Option<Error> = None;
    proof {
        assert(fs.files()[tmp@] =~= src_data.subrange(0, 0));
    }
    loop
        invariant_except_break
            total <= src_data.len(),
            failed is None,
            old(fs).steady() ==> fs.steady(),
            fs.files() == f0.insert(tmp@, src_data.subrange(0, total as int)),
            fs.handles() == h0.insert(src, (from@, total as nat)).insert(
                dst,
                (tmp@, total as nat),
            ),
        invariant
            fs.inv(),
            fs.private_dir() == old(fs).private_dir(),
            fs.ops() == o2,
            fs.room() + 2 >= old(fs).room(),
            src_data.len() <= f0[from@].len(),
            f0 == old(fs).files(),
            h0 == old(fs).handles(),
            f0.contains_key(from@),
            src_data == copied(f0, from@, to@),
            tmp@ == tmp_of(to@),
            buf@.len() == COPY_CHUNK,
            src != dst,
            !h0.contains_key(src),
            !h0.contains_key(dst),
        ensures
            fs.inv(),
            fs.private_dir() == old(fs).private_dir(),
            failed is None ==> total == src_data.len() && fs.files() == f0.insert(tmp@, src_data),
            fs.files().remove(tmp@) == f0.remove(tmp@),
            fs.handles().dom() == h0.dom().insert(src).insert(dst),
            fs.handles().remove(src).remove(dst) == h0,
            fs.handles().contains_key(src),
            fs.handles().contains_key(dst),
            fs.ops() == o2,
            fs.room() + 2 >= old(fs).room(),
            old(fs).steady() ==> fs.steady(),
            old(fs).steady() && readable(f0, from@) ==> failed is None,
        decreases src_data.len() - total,
    {
        proof {
            if from@ == tmp@ {
                assert(src_data.len() == 0);
                assert(fs.files()[from@] =~= src_data);
            } else {
                assert(fs.files()[from@] == src_data);
            }
        }
        let got = match fs.read(src, buf.as_mut_slice()) {
            Ok(n) => n,
            Err(e) => {
                proof {
                    assert(fs.files().remove(tmp@) =~= f0.remove(tmp@));
                    assert(fs.handles().dom() =~= h0.dom().insert(src).insert(dst));
                    assert(fs.handles().remove(src).remove(dst) =~= h0);
                }
                failed = Some(e);
                break;
            },
        };
        if got == 0 {
            proof {
                assert(src_data.subrange(0, total as int) =~= src_data);
                assert(fs.files().remove(tmp@) =~= f0.remove(tmp@));
                assert(fs.handles().dom() =~= h0.dom().insert(src).insert(dst));
                assert(fs.handles().remove(src).remove(dst) =~= h0);
            }
            break;
        }
        let next = match total.checked_add(got as u64) {
            Some(t) => t,
            None => {
                proof {
                    assert(fs.files().remove(tmp@) =~= f0.remove(tmp@));
                    assert(fs.handles().dom() =~= h0.dom().insert(src).insert(dst));
                    assert(fs.handles().remove(src).remove(dst) =~= h0);
                }
                failed = Some(Error::Overflow);
                break;
            },
        };
        let ghost chunk = buf@.subrange(0, got as int);
        proof {
            assert(chunk =~= src_data.subrange(total as int, total + got));
            assert(fs.handles()[dst] == (tmp@, total as nat));
            assert(from@ != tmp@);
        }
        let sent = write_all_raw(
            fs,
            dst,
            vstd::slice::slice_subrange(buf.as_slice(), 0, got),
            Error::UnexpectedEof,
        );
        if let Err(e) = sent {
            proof {
                assert(fs.files().remove(tmp@) =~= f0.remove(tmp@));
                assert(fs.handles().dom() =~= h0.dom().insert(src).insert(dst));
                assert(fs.handles().remove(src).remove(dst) =~= h0);
            }
            failed = Some(e);
            break;
        }
        proof {
            assert(src_data.subrange(0, total as int) + chunk =~= src_data.subrange(
                0,
                total + got,
            ));
            assert(fs.files() =~= f0.insert(tmp@, src_data.subrange(0, total + got)));
            assert(fs.handles() =~= h0.insert(src, (from@, (total + got) as nat)).insert(
                dst,
                (tmp@, (total + got) as nat),
            ));
        }
        total = next;
    }
    fs.close(src);
    fs.close(dst);
    let ghost o4 = fs.ops();
    proof {
        assert(o4.subrange(0, o0.len() as int) =~= o0);
    }
    if let Some(e) = failed {
        proof {
            let t = o4.subrange(o0.len() as int, o4.len() as int);
            assert(t[0] == o4[o0.len() as int]);
            assert(t[1] == o4[o0.len() + 1int]);
            assert(t[2] == o4[o0.len() + 2int]);
            assert(t[3] == o4[o0.len() + 3int]);
        }
        return Err(e);
    }
    let renamed = fs.rename(tmp.as_units(), to.as_units());
    proof {
        if renamed is Ok {
            assert(fs.files() =~= f0.remove(tmp@).insert(to@, src_data));
        }
        assert(fs.ops().subrange(0, o0.len() as int) =~= o0);
        let t = fs.ops().subrange(o0.len() as int, fs.ops().len() as int);
        assert(t[0] == fs.ops()[o0.len() as int]);
        assert(t[1] == fs.ops()[o0.len() + 1int]);
        assert(t[2] == fs.ops()[o0.len() + 2int]);
        assert(t[3] == fs.ops()[o0.len() + 3int]);
        assert(t[4] == fs.ops()[o0.len() + 4int]);
    }
    match renamed {
        Ok(()) => Ok(total),
        Err(e) => Err(e),
    }
}

/// What an append of `data` to `path` under `cap` leaves, when every request goes through:
/// the file started over with `data` alone once it has reached `cap` bytes, else `data`
/// after what it held.
pub open spec fn capped(files: Files, path: Seq<u16>, data: Seq<u8>, cap: u64) -> Files {
    if contents_or_empty(files, path).len() >= cap {
        files.remove(tmp_of(path)).insert(path, data)
    } else {
        files.insert(path, contents_or_empty(files, path) + data)
    }
}

/// Append `data`, starting the file over first if it has already reached `cap` bytes.
///
/// The size is checked before appending, so `cap` is a ceiling rather than a ceiling plus
/// one line. A size the file system will not report counts as "not over".
pub fn append_capped<F: Fs>(fs: &mut F, path: &Utf16Path, data: &[u8], cap: u64) -> (r: Result<
    (),
>)
    requires
        old(fs).inv(),
    ensures
        final(fs).inv(),
        final(fs).private_dir() == old(fs).private_dir(),
        final(fs).handles().dom().subset_of(old(fs).handles().dom()),
        r is Ok ==> ({
            ||| final(fs).files() == old(fs).files().remove(tmp_of(path@)).insert(path@, data@)
                && contents_or_empty(old(fs).files(), path@).len() >= cap
            ||| final(fs).files() == old(fs).files().insert(
                path@,
                contents_or_empty(old(fs).files(), path@) + data@,
            )
        }),
        r is Ok && old(fs).files().contains_key(path@) && old(fs).files()[path@].len() < cap
            ==> final(fs).files() == old(fs).files().insert(path@, old(fs).files()[path@] + data@),
        old(fs).steady() ==> final(fs).steady(),
        final(fs).room() + 3 >= old(fs).room(),
        old(fs).steady() && old(fs).room() >= 3 && tmp_of(path@).len() <= MAX_PATH && contents_or_empty(
            old(fs).files(),
            path@,
        ).len() + data@.len() <= usize::MAX ==> r is Ok && final(fs).files() == capped(
            old(fs).files(),
            path@,
            data@,
            cap,
        ),
{
    let ghost f0 = old(fs).files();
    let ghost h0 = old(fs).handles();
    let too_big = match fs.open(path.as_units(), OpenMode::Append) {
        Ok(h) => {
            let big = match fs.size(h) {
                Ok(sz) => sz >= cap,
                Err(_) => false,
            };
            proof {
                assert(fs.handles().remove(h) =~= h0);
            }
            fs.close(h);
            big
        },
        Err(_) => false,
    };
    let ghost f1 = fs.files();
    proof {
        assert(f1 == f0 || f1 == with_file(f0, path@));
        assert(fs.handles() == h0);
        assert(too_big ==> contents_or_empty(f0, path@).len() >= cap);
        assert(old(fs).steady() && old(fs).room() >= 3 ==> (too_big <==> contents_or_empty(
            f0,
            path@,
        ).len() >= cap));
        assert(f1 =~= with_file(f0, path@) || f1 =~= f0);
    }
    if too_big {
        write_atomic(fs, path, &[])?;
        proof {
            assert(fs.files()[path@] =~= Seq::<u8>::empty());
        }
    }
    let ghost f2 = fs.files();
    let ghost h2 = fs.handles();
    let h = fs.open(path.as_units(), OpenMode::Append)?;
    let ghost f3 = fs.files();
    let dlen = data.len();
    proof {
        assert(data@.len() == dlen);
    }
    let written = write_all_raw(fs, h, data, Error::Platform(ERR_GENERAL));
    proof {
        assert(fs.handles().remove(h).dom() =~= h2.dom());
    }
    fs.close(h);
    proof {
        if written is Ok {
            if too_big {
                assert(f3 =~= f2);
                assert(fs.files() =~= f0.remove(tmp_of(path@)).insert(path@, data@));
            } else {
                assert(f3 =~= with_file(f0, path@));
                assert(fs.files() =~= f0.insert(path@, contents_or_empty(f0, path@) + data@));
            }
        }
    }
    written
}

} // verus!
