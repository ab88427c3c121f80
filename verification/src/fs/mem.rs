//! An in-memory [`Fs`], with the two behaviours that make real file code go wrong: reads
//! can be chopped into small pieces, and writes can be partial.
//!
//! Public, because the code above this layer is file logic worth testing and there is no
//! phone in a host test.

use vstd::prelude::*;

use super::{avail, encode_utf16, units_eq, utf16, Files, Fs, FsOp, Handles, OpenMode, Stat, SEP};
use crate::error::{Error, Result, ERR_BAD_HANDLE};

verus! {

broadcast use {vstd::seq::group_seq_axioms, vstd::slice::group_slice_axioms};

/// The most handles one [`MemFs`] hands out; handles are positive `i32`s.
pub const MAX_HANDLES: usize = 0x7fff_fffe;

/// Every file as `(path, contents)`, every handle as a slot holding `(file index,
/// position)`; handle `h` is slot `h - 1`.
pub struct MemFs {
    pub files: Vec<(Vec<u16>, Vec<u8>)>,
    pub open: Vec<Option<(usize, usize)>>,
    /// Cap on a single read. 0 means unlimited.
    pub read_chunk: usize,
    /// Cap on a single write. 0 means unlimited.
    pub write_chunk: usize,
    pub private: Vec<u16>,
    /// Every path passed to [`Fs::mkdir`], in order. The store is flat and creates no
    /// directories, so this is the only record that a caller asked.
    pub mkdirs: Vec<Vec<u16>>,
    /// Every open, close, rename and delete asked of it, with whether it succeeded.
    pub journal: Ghost<Seq<FsOp>>,
}

/// The stored files, as the model sees them.
pub type Store = Seq<(Vec<u16>, Vec<u8>)>;

pub open spec fn path_in(st: Store, i: int) -> Seq<u16> {
    st[i].0@
}

pub open spec fn data_in(st: Store, i: int) -> Seq<u8> {
    st[i].1@
}

/// No path is stored twice.
pub open spec fn unique_in(st: Store) -> bool {
    forall|i: int, j: int|
        0 <= i < st.len() && 0 <= j < st.len() && i != j ==> #[trigger] path_in(st, i)
            != #[trigger] path_in(st, j)
}

pub open spec fn has_in(st: Store, p: Seq<u16>) -> bool {
    exists|i: int| 0 <= i < st.len() && #[trigger] path_in(st, i) == p
}

pub open spec fn index_in(st: Store, p: Seq<u16>) -> int {
    choose|i: int| 0 <= i < st.len() && #[trigger] path_in(st, i) == p
}

/// The map from path to contents.
pub open spec fn files_of(st: Store) -> Files {
    Map::new(|p: Seq<u16>| has_in(st, p), |p: Seq<u16>| data_in(st, index_in(st, p)))
}

/// Slot `h - 1` is in use and names a file that is there.
pub open spec fn live_in(st: Store, open: Seq<Option<(usize, usize)>>, h: i32) -> bool {
    &&& 1 <= h <= open.len()
    &&& match open[h - 1] {
        Some((idx, _)) => idx < st.len(),
        None => false,
    }
}

pub open spec fn slot_in(open: Seq<Option<(usize, usize)>>, h: i32) -> (usize, usize) {
    match open[h - 1] {
        Some(s) => s,
        None => (0, 0),
    }
}

/// Every slot in use names a stored file.
pub open spec fn slots_ok(n: int, open: Seq<Option<(usize, usize)>>) -> bool {
    forall|k: int|
        0 <= k < open.len() ==> match #[trigger] open[k] {
            Some((idx, _)) => idx < n,
            None => true,
        }
}

/// The map from live handle to path and position.
pub open spec fn handles_of(st: Store, open: Seq<Option<(usize, usize)>>) -> Handles {
    Map::new(
        |h: i32| live_in(st, open, h),
        |h: i32| (path_in(st, slot_in(open, h).0 as int), slot_in(open, h).1 as nat),
    )
}

proof fn lemma_lookup(st: Store, i: int)
    requires
        unique_in(st),
        0 <= i < st.len(),
    ensures
        files_of(st).contains_key(path_in(st, i)),
        files_of(st)[path_in(st, i)] == data_in(st, i),
        index_in(st, path_in(st, i)) == i,
{
    assert(has_in(st, path_in(st, i)));
    let j = index_in(st, path_in(st, i));
    assert(path_in(st, j) == path_in(st, i));
}

impl MemFs {
    pub open spec fn path_at(&self, i: int) -> Seq<u16> {
        path_in(self.files@, i)
    }

    pub open spec fn data_at(&self, i: int) -> Seq<u8> {
        data_in(self.files@, i)
    }

    pub open spec fn unique(&self) -> bool {
        unique_in(self.files@)
    }

    pub open spec fn index_of(&self, p: Seq<u16>) -> int {
        index_in(self.files@, p)
    }

    pub open spec fn slot_live(&self, h: i32) -> bool {
        live_in(self.files@, self.open@, h)
    }

    pub open spec fn slot(&self, h: i32) -> (usize, usize) {
        slot_in(self.open@, h)
    }

    proof fn lemma_lookup(&self, i: int)
        requires
            self.unique(),
            0 <= i < self.files@.len(),
        ensures
            self.files().contains_key(path_in(self.files@, i)),
            self.files()[path_in(self.files@, i)] == data_in(self.files@, i),
            self.index_of(path_in(self.files@, i)) == i,
    {
        lemma_lookup(self.files@, i);
    }

    /// The index holding `path`, if any.
    fn find(&self, path: &[u16]) -> (r: Option<usize>)
        requires
            self.unique(),
        ensures
            r matches Some(i) ==> i < self.files@.len() && path_in(self.files@, i as int) == path@
                && self.files().contains_key(path@) && self.files()[path@] == data_in(self.files@, 
                i as int,
            ),
            r is None ==> !self.files().contains_key(path@) && forall|i: int|
                0 <= i < self.files@.len() ==> #[trigger] path_in(self.files@, i) != path@,
    {
        let mut i: usize = 0;
        while i < self.files.len()
            invariant
                self.unique(),
                i <= self.files@.len(),
                forall|j: int| 0 <= j < i ==> #[trigger] path_in(self.files@, j) != path@,
            decreases self.files@.len() - i,
        {
            if units_eq(self.files[i].0.as_slice(), path) {
                proof {
                    self.lemma_lookup(i as int);
                }
                return Some(i);
            }
            i += 1;
        }
        assert(!has_in(self.files@, path@));
        None
    }

    /// The slot behind `handle`, or `KErrBadHandle`.
    fn live_slot(&self, handle: i32) -> (r: Result<(usize, usize)>)
        ensures
            r matches Ok(s) ==> self.slot_live(handle) && self.slot(handle) == s,
            r is Err ==> !self.slot_live(handle) && r == Err::<(usize, usize), Error>(
                Error::Platform(ERR_BAD_HANDLE),
            ),
    {
        if handle < 1 || handle as usize > self.open.len() {
            return Err(Error::Platform(ERR_BAD_HANDLE));
        }
        match self.open[(handle - 1) as usize] {
            Some((idx, pos)) => {
                if idx < self.files.len() {
                    Ok((idx, pos))
                } else {
                    Err(Error::Platform(ERR_BAD_HANDLE))
                }
            },
            None => Err(Error::Platform(ERR_BAD_HANDLE)),
        }
    }

    /// After the file at `gone` was removed: close the slots that named it, and move the
    /// ones past it down by one, so every handle still names the file it was opened on.
    fn forget(&mut self, gone: usize)
        requires
            slots_ok(old(self).files@.len() + 1int, old(self).open@),
            gone <= old(self).files@.len(),
        ensures
            final(self).files@ == old(self).files@,
            final(self).read_chunk == old(self).read_chunk,
            final(self).write_chunk == old(self).write_chunk,
            final(self).private@ == old(self).private@,
            final(self).journal == old(self).journal,
            final(self).open@.len() == old(self).open@.len(),
            slots_ok(final(self).files@.len() as int, final(self).open@),
            forall|k: int|
                0 <= k < old(self).open@.len() ==> match #[trigger] old(self).open@[k] {
                    Some((idx, pos)) => if idx == gone {
                        final(self).open@[k] is None
                    } else if idx < gone {
                        final(self).open@[k] == Some((idx, pos))
                    } else {
                        final(self).open@[k] == Some(((idx - 1) as usize, pos))
                    },
                    None => final(self).open@[k] is None,
                },
    {
        let mut k: usize = 0;
        while k < self.open.len()
            invariant
                self.files@ == old(self).files@,
                self.read_chunk == old(self).read_chunk,
                self.write_chunk == old(self).write_chunk,
                self.private@ == old(self).private@,
                self.journal == old(self).journal,
                self.open@.len() == old(self).open@.len(),
                k <= self.open@.len(),
                slots_ok(old(self).files@.len() + 1int, old(self).open@),
                gone <= old(self).files@.len(),
                forall|j: int| k <= j < self.open@.len() ==> self.open@[j] == old(self).open@[j],
                forall|j: int|
                    0 <= j < k ==> match #[trigger] old(self).open@[j] {
                        Some((idx, pos)) => if idx == gone {
                            self.open@[j] is None
                        } else if idx < gone {
                            self.open@[j] == Some((idx, pos))
                        } else {
                            self.open@[j] == Some(((idx - 1) as usize, pos))
                        },
                        None => self.open@[j] is None,
                    },
            decreases self.open@.len() - k,
        {
            match self.open[k] {
                Some((idx, pos)) => {
                    if idx == gone {
                        self.open.set(k, None);
                    } else if idx > gone {
                        self.open.set(k, Some((idx - 1, pos)));
                    }
                },
                None => {},
            }
            k += 1;
        }
        proof {
            assert forall|j: int| 0 <= j < self.open@.len() implies match #[trigger] self.open@[j] {
                Some((idx, _)) => idx < self.files@.len(),
                None => true,
            } by {
                let o = old(self).open@[j];
            }
        }
    }

    pub fn new() -> (r: Self)
        ensures
            r.inv(),
            r.files() == Map::<Seq<u16>, Seq<u8>>::empty(),
            r.handles() == Map::<i32, (Seq<u16>, nat)>::empty(),
            r.private_dir() == utf16("C:\\private\\E1234569\\"@),
            r.read_chunk == 0,
            r.write_chunk == 0,
            r.ops() == Seq::<FsOp>::empty(),
            r.steady(),
            r.room() == MAX_HANDLES,
    {
        let r = MemFs {
            files: Vec::new(),
            open: Vec::new(),
            read_chunk: 0,
            write_chunk: 0,
            private: encode_utf16("C:\\private\\E1234569\\"),
            mkdirs: Vec::new(),
            journal: Ghost(Seq::empty()),
        };
        assert(r.files() =~= Map::<Seq<u16>, Seq<u8>>::empty());
        assert(r.handles() =~= Map::<i32, (Seq<u16>, nat)>::empty());
        r
    }

    /// The bytes stored under `path`, spelled as text.
    pub fn contents(&self, path: &str) -> (r: Option<&[u8]>)
        requires
            self.unique(),
        ensures
            r matches Some(b) ==> self.files().contains_key(utf16(path@)) && b@ == self.files()[utf16(
                path@,
            )],
            r is None <==> !self.files().contains_key(utf16(path@)),
    {
        let key = encode_utf16(path);
        match self.find(key.as_slice()) {
            Some(i) => Some(self.files[i].1.as_slice()),
            None => None,
        }
    }
}

impl MemFs {
    /// Memory never fails on its own: an in-memory file system is steady, and the room it
    /// has is what is left of the handle numbers.
    pub proof fn lemma_steady(&self)
        ensures
            self.steady(),
            self.room() == (MAX_HANDLES - self.open@.len()) as nat,
    {
    }
}

impl Default for MemFs {
    fn default() -> (r: Self)
        ensures
            r.inv(),
            r.files() == Map::<Seq<u16>, Seq<u8>>::empty(),
            r.handles() == Map::<i32, (Seq<u16>, nat)>::empty(),
    {
        Self::new()
    }
}


/// Whether `path` is a strict prefix of `key`.
fn strict_prefix(key: &[u16], path: &[u16]) -> (r: bool)
    ensures
        r == (key@.len() > path@.len() && key@.subrange(0, path@.len() as int) == path@),
{
    if key.len() <= path.len() {
        return false;
    }
    let head = vstd::slice::slice_subrange(key, 0, path.len());
    units_eq(head, path)
}

/// Whether `s` holds the unit `u`, and where first.
fn position(s: &[u16], u: u16) -> (r: Option<usize>)
    ensures
        r matches Some(i) ==> i < s@.len() && s@[i as int] == u && forall|j: int|
            0 <= j < i ==> s@[j] != u,
        r is None ==> forall|j: int| 0 <= j < s@.len() ==> s@[j] != u,
{
    let mut i: usize = 0;
    while i < s.len()
        invariant
            i <= s@.len(),
            forall|j: int| 0 <= j < i ==> s@[j] != u,
        decreases s@.len() - i,
    {
        if s[i] == u {
            return Some(i);
        }
        i += 1;
    }
    None
}

/// The units of each name.
pub open spec fn units_of(names: Seq<Vec<u16>>) -> Seq<Seq<u16>> {
    names.map_values(|v: Vec<u16>| v@)
}

/// How many of `names`, from the front, fit one after the other into `room` units, each
/// with its NUL.
pub open spec fn fit_count(names: Seq<Seq<u16>>, room: int) -> nat
    decreases names.len(),
{
    if names.len() == 0 || names[0].len() >= room {
        0
    } else {
        1 + fit_count(names.drop_first(), room - names[0].len() - 1)
    }
}

/// The names one after the other, each followed by a NUL.
pub open spec fn nul_joined(names: Seq<Seq<u16>>) -> Seq<u16>
    decreases names.len(),
{
    if names.len() == 0 {
        Seq::empty()
    } else {
        nul_joined(names.drop_last()) + names.last().push(0u16)
    }
}

/// Pack `names` NUL-separated into `out` while they fit; how many went in.
fn pack(names: &Vec<Vec<u16>>, out: &mut [u16]) -> (n: usize)
    ensures
        final(out)@.len() == old(out)@.len(),
        n == fit_count(units_of(names@), old(out)@.len() as int),
        nul_joined(units_of(names@).take(n as int)).len() <= old(out)@.len(),
        final(out)@ == nul_joined(units_of(names@).take(n as int)) + old(out)@.subrange(
            nul_joined(units_of(names@).take(n as int)).len() as int,
            old(out)@.len() as int,
        ),
{
    let ghost all = units_of(names@);
    let olen = out.len();
    let mut pos: usize = 0;
    let mut n: usize = 0;
    proof {
        assert(all.take(0) =~= Seq::<Seq<u16>>::empty());
        assert(all.skip(0) =~= all);
        assert(out@ =~= nul_joined(all.take(0)) + old(out)@.subrange(0, olen as int));
    }
    while n < names.len()
        invariant_except_break
            fit_count(all, olen as int) == n + fit_count(all.skip(n as int), olen - pos),
        invariant
            all == units_of(names@),
            olen == out@.len(),
            olen == old(out)@.len(),
            pos <= out@.len(),
            n <= names@.len(),
            pos == nul_joined(all.take(n as int)).len(),
            out@ == nul_joined(all.take(n as int)) + old(out)@.subrange(pos as int, olen as int),
        ensures
            fit_count(all, olen as int) == n,
        decreases names@.len() - n,
    {
        let name = &names[n];
        proof {
            assert(all.skip(n as int)[0] == name@);
        }
        if name.len() >= out.len() - pos {
            break;
        }
        let ghost before = out@;
        let mut k: usize = 0;
        while k < name.len()
            invariant
                k <= name@.len(),
                pos + name@.len() < out@.len(),
                olen == out@.len(),
                forall|j: int| 0 <= j < pos ==> out@[j] == before[j],
                forall|j: int| pos + name@.len() <= j < olen ==> out@[j] == before[j],
                forall|j: int| 0 <= j < k ==> out@[pos + j] == name@[j],
                before.len() == olen,
            decreases name@.len() - k,
        {
            out[pos + k] = name[k];
            k += 1;
        }
        let ghost npos = pos + name@.len();
        out[pos + name.len()] = 0;
        proof {
            let t = all.take(n + 1);
            assert(t.drop_last() =~= all.take(n as int));
            assert(t.last() == name@);
            assert(nul_joined(t) == nul_joined(all.take(n as int)) + name@.push(0u16));
            let goal = nul_joined(t) + old(out)@.subrange(npos + 1, olen as int);
            let prev = nul_joined(all.take(n as int));
            assert(goal.len() == olen);
            assert forall|j: int| 0 <= j < olen implies out@[j] == goal[j] by {
                if j < pos {
                    assert(before[j] == prev[j]);
                } else if j < npos {
                    assert(out@[pos + (j - pos)] == name@[j - pos]);
                } else if j > npos {
                    assert(before[j] == old(out)@.subrange(pos as int, olen as int)[j - pos]);
                }
            }
            assert(out@ =~= goal);
            assert(all.skip(n as int).drop_first() =~= all.skip(n + 1));
        }
        pos = pos + name.len() + 1;
        n = n + 1;
    }
    proof {
        if n == names.len() {
            assert(all.skip(n as int).len() == 0);
        }
    }
    n
}

/// Whether `names` already holds `entry`.
fn holds(names: &Vec<Vec<u16>>, entry: &Vec<u16>) -> (r: bool)
    ensures
        r == units_of(names@).contains(entry@),
{
    let mut i: usize = 0;
    while i < names.len()
        invariant
            i <= names@.len(),
            forall|j: int| 0 <= j < i ==> names@[j]@ != entry@,
        decreases names@.len() - i,
    {
        if units_eq(names[i].as_slice(), entry.as_slice()) {
            assert(units_of(names@)[i as int] == entry@);
            return true;
        }
        i += 1;
    }
    proof {
        if units_of(names@).contains(entry@) {
            let j = choose|j: int| 0 <= j < units_of(names@).len() && units_of(names@)[j] == entry@;
            assert(names@[j]@ == entry@);
        }
    }
    false
}

/// Whether `key` lies strictly below `path`.
pub open spec fn under(key: Seq<u16>, path: Seq<u16>) -> bool {
    key.len() > path.len() && key.subrange(0, path.len() as int) == path
}

/// What follows `path` in `key`.
pub open spec fn after(key: Seq<u16>, path: Seq<u16>) -> Seq<u16> {
    key.subrange(path.len() as int, key.len() as int)
}

/// The names of the files directly in `path`, in the order the store holds them.
pub open spec fn dir_names(st: Store, path: Seq<u16>) -> Seq<Seq<u16>>
    decreases st.len(),
{
    if st.len() == 0 {
        Seq::empty()
    } else {
        let prev = dir_names(st.drop_last(), path);
        let key = st.last().0@;
        if under(key, path) && !after(key, path).contains(SEP) {
            prev.push(after(key, path))
        } else {
            prev
        }
    }
}

/// Where the first separator in `name` stands.
pub open spec fn first_sep(name: Seq<u16>) -> int {
    choose|i: int| 0 <= i < name.len() && name[i] == SEP && forall|j: int| 0 <= j < i ==> name[j] != SEP
}

/// A file's name below a directory, or the subdirectory it is in, with its `\`.
pub open spec fn entry_of(name: Seq<u16>) -> Seq<u16> {
    if name.contains(SEP) {
        name.subrange(0, first_sep(name)).push(SEP)
    } else {
        name
    }
}

/// The entries directly in `path`, each once, in the order the store first shows them.
pub open spec fn dir_entries(st: Store, path: Seq<u16>) -> Seq<Seq<u16>>
    decreases st.len(),
{
    if st.len() == 0 {
        Seq::empty()
    } else {
        let prev = dir_entries(st.drop_last(), path);
        let key = st.last().0@;
        if under(key, path) && !prev.contains(entry_of(after(key, path))) {
            prev.push(entry_of(after(key, path)))
        } else {
            prev
        }
    }
}

/// How much one [`MemFs`] read hands over: what the buffer takes and the file has left,
/// cut to the read cap when one is set.
pub open spec fn read_take(room: nat, left: nat, chunk: nat) -> nat {
    let want = if room < left {
        room
    } else {
        left
    };
    if chunk > 0 && want > chunk {
        chunk
    } else {
        want
    }
}

/// How much one [`MemFs`] write takes: all of it, or the write cap when one is set.
pub open spec fn write_take(len: nat, chunk: nat) -> nat {
    if chunk > 0 && len > chunk {
        chunk
    } else {
        len
    }
}

/// `data` written over with `part` from `pos`: cut at `pos` (or zero-filled up to it), then
/// `part`.
pub open spec fn overwritten(data: Seq<u8>, pos: nat, part: Seq<u8>) -> Seq<u8> {
    if data.len() < pos {
        data + Seq::new((pos - data.len()) as nat, |i: int| 0u8) + part
    } else {
        data.subrange(0, pos as int) + part
    }
}

impl Fs for MemFs {
    open spec fn files(&self) -> Files {
        files_of(self.files@)
    }

    open spec fn handles(&self) -> Handles {
        handles_of(self.files@, self.open@)
    }

    open spec fn private_dir(&self) -> Seq<u16> {
        self.private@
    }

    closed spec fn ops(&self) -> Seq<FsOp> {
        self.journal@
    }

    /// Memory does not fail: every refusal is one the model states.
    closed spec fn steady(&self) -> bool {
        true
    }

    /// Handles are never reused, so the room left is what remains of the handle numbers.
    closed spec fn room(&self) -> nat {
        (MAX_HANDLES - self.open@.len()) as nat
    }

    open spec fn inv(&self) -> bool {
        &&& self.unique()
        &&& self.open@.len() <= MAX_HANDLES
        &&& slots_ok(self.files@.len() as int, self.open@)
    }

    fn open(&mut self, path: &[u16], mode: OpenMode) -> (r: Result<i32>) {
        let ghost old_self = *self;
        let found = self.find(path);
        if found.is_none() && mode == OpenMode::Read {
            self.journal = Ghost(self.journal@.push(FsOp::Open(path@, mode, false)));
            return Err(Error::NotFound);
        }
        if self.open.len() >= MAX_HANDLES {
            self.journal = Ghost(self.journal@.push(FsOp::Open(path@, mode, false)));
            return Err(Error::InUse);
        }
        let idx: usize;
        match found {
            Some(i) => {
                if mode == OpenMode::Replace {
                    let (p, _d) = self.files.remove(i);
                    self.files.insert(i, (p, Vec::new()));
                    proof {
                        assert(self.files@ =~= old_self.files@.update(i as int, self.files@[i as int]));
                        assert(self.files@[i as int].1@ =~= Seq::<u8>::empty());
                    }
                }
                idx = i;
            },
            None => {
                self.files.push((vstd::slice::slice_to_vec(path), Vec::new()));
                idx = self.files.len() - 1;
            },
        }
        let ghost mid = *self;
        proof {
            assert forall|i: int, j: int|
                0 <= i < mid.files@.len() && 0 <= j < mid.files@.len() && i != j implies #[trigger] path_in(mid.files@, i)
                != #[trigger] path_in(mid.files@, j) by {
                if i < old_self.files@.len() {
                    assert(path_in(mid.files@, i) == path_in(old_self.files@, i));
                } else {
                    assert(path_in(mid.files@, i) == path@);
                }
                if j < old_self.files@.len() {
                    assert(path_in(mid.files@, j) == path_in(old_self.files@, j));
                } else {
                    assert(path_in(mid.files@, j) == path@);
                }
            }
            assert(mid.unique());
            assert forall|k: int| 0 <= k < old_self.files@.len() implies #[trigger] path_in(mid.files@, k)
                == path_in(old_self.files@, k) by {}
            mid.lemma_lookup(idx as int);
            if found is Some && mode == OpenMode::Replace {
                assert(mid.files() =~= old_self.files().insert(path@, Seq::empty())) by {
                    assert forall|p: Seq<u16>| #[trigger] mid.files().contains_key(p) <==> old_self.files().insert(path@, Seq::empty()).contains_key(p) by {
                        if mid.files().contains_key(p) {
                            let k = mid.index_of(p);
                            assert(path_in(old_self.files@, k) == p);
                            old_self.lemma_lookup(k);
                        }
                        if old_self.files().contains_key(p) {
                            let k = old_self.index_of(p);
                            assert(path_in(mid.files@, k) == p);
                            mid.lemma_lookup(k);
                        }
                    }
                    assert forall|p: Seq<u16>| #[trigger] mid.files().contains_key(p) implies mid.files()[p] == old_self.files().insert(path@, Seq::empty())[p] by {
                        let k = mid.index_of(p);
                        mid.lemma_lookup(k);
                        old_self.lemma_lookup(k);
                    }
                }
            } else if found is Some {
                assert(mid.files() =~= old_self.files());
            } else {
                assert(mid.files() =~= old_self.files().insert(path@, Seq::empty())) by {
                    assert forall|p: Seq<u16>| #[trigger] mid.files().contains_key(p) <==> old_self.files().insert(path@, Seq::empty()).contains_key(p) by {
                        if mid.files().contains_key(p) {
                            let k = mid.index_of(p);
                            if k < old_self.files@.len() {
                                old_self.lemma_lookup(k);
                            }
                        }
                        if old_self.files().contains_key(p) {
                            let k = old_self.index_of(p);
                            mid.lemma_lookup(k);
                        }
                    }
                    assert forall|p: Seq<u16>| #[trigger] mid.files().contains_key(p) implies mid.files()[p] == old_self.files().insert(path@, Seq::empty())[p] by {
                        let k = mid.index_of(p);
                        mid.lemma_lookup(k);
                        if k < old_self.files@.len() {
                            old_self.lemma_lookup(k);
                        }
                    }
                }
            }
            assert(mid.handles() =~= old_self.handles()) by {
                assert forall|h: i32| #[trigger] mid.handles().contains_key(h) <==> old_self.handles().contains_key(h) by {
                    if 1 <= h <= mid.open@.len() && mid.open@[h - 1] is Some {
                        let (ix, ps) = mid.open@[h - 1]->0;
                        if ix < old_self.files@.len() {
                        }
                    }
                }
                assert forall|h: i32| #[trigger] mid.handles().contains_key(h) implies mid.handles()[h] == old_self.handles()[h] by {
                    let (ix, ps) = mid.slot(h);
                    assert(path_in(mid.files@, ix as int) == path_in(old_self.files@, ix as int));
                }
            }
        }
        let pos = if mode == OpenMode::Append {
            self.files[idx].1.len()
        } else {
            0
        };
        self.open.push(Some((idx, pos)));
        let h = self.open.len() as i32;
        proof {
            assert(self.files() == mid.files());
            assert(self.handles() =~= mid.handles().insert(h, (path@, pos as nat))) by {
                assert forall|g: i32| #[trigger] self.handles().contains_key(g) <==> mid.handles().insert(h, (path@, pos as nat)).contains_key(g) by {
                    if g != h && 1 <= g <= mid.open@.len() {
                        assert(self.open@[g - 1] == mid.open@[g - 1]);
                    }
                }
                assert forall|g: i32| #[trigger] self.handles().contains_key(g) implies self.handles()[g] == mid.handles().insert(h, (path@, pos as nat))[g] by {
                    if g != h {
                        assert(self.open@[g - 1] == mid.open@[g - 1]);
                    }
                }
            }
            assert(!old_self.handles().contains_key(h));
        }
        self.journal = Ghost(self.journal@.push(FsOp::Open(path@, mode, true)));
        Ok(h)
    }

    fn read(&mut self, handle: i32, buf: &mut [u8]) -> (r: Result<usize>)
        ensures
            r is Ok <==> old(self).handles().contains_key(handle),
            r matches Ok(n) ==> n == read_take(
                old(buf)@.len(),
                avail(
                    old(self).files()[old(self).handles()[handle].0].len(),
                    old(self).handles()[handle].1,
                ),
                old(self).read_chunk as nat,
            ),
            r is Err ==> r == Err::<usize, Error>(Error::Platform(ERR_BAD_HANDLE)),
            final(self).read_chunk == old(self).read_chunk,
            final(self).write_chunk == old(self).write_chunk,
    {
        let (idx, pos) = self.live_slot(handle)?;
        let ghost old_self = *self;
        let dlen = self.files[idx].1.len();
        let mut want: usize = if pos < dlen {
            dlen - pos
        } else {
            0
        };
        if buf.len() < want {
            want = buf.len();
        }
        if self.read_chunk > 0 && want > self.read_chunk {
            want = self.read_chunk;
        }
        let mut k: usize = 0;
        while k < want
            invariant
                k <= want,
                want == 0 || pos + want <= dlen,
                want <= buf@.len(),
                buf@.len() == old(buf)@.len(),
                idx < self.files@.len(),
                dlen == self.files@[idx as int].1@.len(),
                forall|j: int| 0 <= j < k ==> buf@[j] == self.files@[idx as int].1@[pos + j],
            decreases want - k,
        {
            buf[k] = self.files[idx].1[pos + k];
            k += 1;
        }
        self.open.set((handle - 1) as usize, Some((idx, pos + want)));
        proof {
            old_self.lemma_lookup(idx as int);
            assert(self.files() =~= old_self.files());
            assert(self.handles() =~= old_self.handles().insert(
                handle,
                (path_in(old_self.files@, idx as int), (pos + want) as nat),
            )) by {
                assert forall|g: i32| #[trigger] self.handles().contains_key(g) <==> old_self.handles().insert(handle, (path_in(old_self.files@, idx as int), (pos + want) as nat)).contains_key(g) by {
                    if g != handle && 1 <= g <= self.open@.len() {
                        assert(self.open@[g - 1] == old_self.open@[g - 1]);
                    }
                }
                assert forall|g: i32| #[trigger] self.handles().contains_key(g) implies self.handles()[g] == old_self.handles().insert(handle, (path_in(old_self.files@, idx as int), (pos + want) as nat))[g] by {
                    if g != handle {
                        assert(self.open@[g - 1] == old_self.open@[g - 1]);
                    }
                }
            }
        }
        Ok(want)
    }

    fn write(&mut self, handle: i32, buf: &[u8]) -> (r: Result<usize>)
        ensures
            r is Ok <==> old(self).handles().contains_key(handle) && old(self).handles()[handle].1
                + write_take(buf@.len(), old(self).write_chunk as nat) <= usize::MAX,
            r matches Ok(n) ==> {
                let (p, pos) = old(self).handles()[handle];
                &&& n == write_take(buf@.len(), old(self).write_chunk as nat)
                &&& final(self).files()[p] == overwritten(
                    old(self).files()[p],
                    pos,
                    buf@.subrange(0, n as int),
                )
            },
            final(self).read_chunk == old(self).read_chunk,
            final(self).write_chunk == old(self).write_chunk,
    {
        let (idx, pos) = self.live_slot(handle)?;
        let ghost old_self = *self;
        let n = if self.write_chunk > 0 && buf.len() > self.write_chunk {
            self.write_chunk
        } else {
            buf.len()
        };
        let end = match pos.checked_add(n) {
            Some(e) => e,
            None => {
                return Err(Error::Overflow);
            },
        };
        let (p, mut data) = self.files.remove(idx);
        if data.len() < pos {
            data.resize(pos, 0u8);
        }
        data.truncate(pos);
        data.extend_from_slice(vstd::slice::slice_subrange(buf, 0, n));
        let ghost new_data = data@;
        self.files.insert(idx, (p, data));
        self.open.set((handle - 1) as usize, Some((idx, end)));
        proof {
            let q = path_in(old_self.files@, idx as int);
            old_self.lemma_lookup(idx as int);
            assert(self.files@ =~= old_self.files@.update(idx as int, self.files@[idx as int]));
            assert forall|i: int, j: int|
                0 <= i < self.files@.len() && 0 <= j < self.files@.len() && i != j implies #[trigger] path_in(self.files@, i)
                != #[trigger] path_in(self.files@, j) by {
                assert(path_in(self.files@, i) == path_in(old_self.files@, i));
                assert(path_in(self.files@, j) == path_in(old_self.files@, j));
            }
            assert(self.unique());
            self.lemma_lookup(idx as int);
            assert(self.files() =~= old_self.files().insert(q, new_data)) by {
                assert forall|x: Seq<u16>| #[trigger] self.files().contains_key(x) <==> old_self.files().insert(q, new_data).contains_key(x) by {
                    if self.files().contains_key(x) {
                        let k = self.index_of(x);
                        old_self.lemma_lookup(k);
                    }
                    if old_self.files().contains_key(x) {
                        let k = old_self.index_of(x);
                        self.lemma_lookup(k);
                    }
                }
                assert forall|x: Seq<u16>| #[trigger] self.files().contains_key(x) implies self.files()[x] == old_self.files().insert(q, new_data)[x] by {
                    let k = self.index_of(x);
                    self.lemma_lookup(k);
                    old_self.lemma_lookup(k);
                }
            }
            if pos == data_in(old_self.files@, idx as int).len() {
                assert(new_data =~= data_in(old_self.files@, idx as int) + buf@.subrange(0, n as int));
            }
            assert(self.handles() =~= old_self.handles().insert(handle, (q, (pos + n) as nat))) by {
                assert forall|g: i32| #[trigger] self.handles().contains_key(g) <==> old_self.handles().insert(handle, (q, (pos + n) as nat)).contains_key(g) by {
                    if g != handle && 1 <= g <= self.open@.len() {
                        assert(self.open@[g - 1] == old_self.open@[g - 1]);
                    }
                }
                assert forall|g: i32| #[trigger] self.handles().contains_key(g) implies self.handles()[g] == old_self.handles().insert(handle, (q, (pos + n) as nat))[g] by {
                    if g != handle {
                        assert(self.open@[g - 1] == old_self.open@[g - 1]);
                    }
                }
            }
        }
        Ok(n)
    }

    fn size(&mut self, handle: i32) -> (r: Result<u64>)
        ensures
            r is Ok <==> old(self).handles().contains_key(handle),
            r is Err ==> r == Err::<u64, Error>(Error::Platform(ERR_BAD_HANDLE)),
    {
        let (idx, _pos) = self.live_slot(handle)?;
        proof {
            self.lemma_lookup(idx as int);
        }
        Ok(self.files[idx].1.len() as u64)
    }

    fn seek(&mut self, handle: i32, pos: u64) -> (r: Result<()>)
        ensures
            r is Ok <==> old(self).handles().contains_key(handle) && pos <= usize::MAX,
    {
        let (idx, _old_pos) = self.live_slot(handle)?;
        if pos > usize::MAX as u64 {
            return Err(Error::Overflow);
        }
        let ghost old_self = *self;
        self.open.set((handle - 1) as usize, Some((idx, pos as usize)));
        proof {
            assert(self.files() =~= old_self.files());
            assert(self.handles() =~= old_self.handles().insert(
                handle,
                (old_self.handles()[handle].0, pos as nat),
            )) by {
                assert forall|g: i32| #[trigger] self.handles().contains_key(g) <==> old_self.handles().insert(handle, (old_self.handles()[handle].0, pos as nat)).contains_key(g) by {
                    if g != handle && 1 <= g <= self.open@.len() {
                        assert(self.open@[g - 1] == old_self.open@[g - 1]);
                    }
                }
                assert forall|g: i32| #[trigger] self.handles().contains_key(g) implies self.handles()[g] == old_self.handles().insert(handle, (old_self.handles()[handle].0, pos as nat))[g] by {
                    if g != handle {
                        assert(self.open@[g - 1] == old_self.open@[g - 1]);
                    }
                }
            }
        }
        Ok(())
    }

    fn close(&mut self, handle: i32) {
        self.journal = Ghost(self.journal@.push(FsOp::Close(handle)));
        let ghost old_self = *self;
        if handle >= 1 && (handle as usize) <= self.open.len() {
            self.open.set((handle - 1) as usize, None);
        }
        proof {
            assert(self.files() =~= old_self.files());
            assert(self.handles() =~= old_self.handles().remove(handle)) by {
                assert forall|g: i32| #[trigger] self.handles().contains_key(g) <==> old_self.handles().remove(handle).contains_key(g) by {
                    if g != handle && 1 <= g <= self.open@.len() {
                        assert(self.open@[g - 1] == old_self.open@[g - 1]);
                    }
                }
                assert forall|g: i32| #[trigger] self.handles().contains_key(g) implies self.handles()[g] == old_self.handles().remove(handle)[g] by {
                    assert(self.open@[g - 1] == old_self.open@[g - 1]);
                }
            }
        }
    }

    fn list_dir(&mut self, path: &[u16], out: &mut [u16]) -> (r: Result<usize>)
        ensures
            r == Ok::<usize, Error>(
                fit_count(dir_names(old(self).files@, path@), old(out)@.len() as int) as usize,
            ),
            ({
                let shown = nul_joined(
                    dir_names(old(self).files@, path@).take(
                        fit_count(dir_names(old(self).files@, path@), old(out)@.len() as int) as int,
                    ),
                );
                final(out)@ == shown + old(out)@.subrange(shown.len() as int, old(out)@.len() as int)
            }),
    {
        let mut names: Vec<Vec<u16>> = Vec::new();
        let mut i: usize = 0;
        proof {
            assert(self.files@.take(0) =~= Seq::<(Vec<u16>, Vec<u8>)>::empty());
            assert(units_of(names@) =~= Seq::<Seq<u16>>::empty());
        }
        while i < self.files.len()
            invariant
                i <= self.files@.len(),
                units_of(names@) == dir_names(self.files@.take(i as int), path@),
            decreases self.files@.len() - i,
        {
            let key = self.files[i].0.as_slice();
            let ghost t = self.files@.take(i + 1);
            proof {
                assert(t.drop_last() =~= self.files@.take(i as int));
                assert(t.last() == self.files@[i as int]);
            }
            if strict_prefix(key, path) {
                let name = vstd::slice::slice_subrange(key, path.len(), key.len());
                if position(name, SEP).is_none() {
                    let ghost before = names@;
                    names.push(vstd::slice::slice_to_vec(name));
                    proof {
                        assert(units_of(names@) =~= units_of(before).push(name@));
                    }
                } else {
                    proof {
                        let c = choose|c: int| 0 <= c < name@.len() && name@[c] == SEP;
                        assert(name@.contains(SEP));
                    }
                }
            }
            i += 1;
        }
        proof {
            assert(self.files@.take(i as int) =~= self.files@);
        }
        Ok(pack(&names, out))
    }

    fn list_entries(&mut self, path: &[u16], out: &mut [u16]) -> (r: Result<usize>)
        ensures
            r == Ok::<usize, Error>(
                fit_count(dir_entries(old(self).files@, path@), old(out)@.len() as int) as usize,
            ),
            ({
                let shown = nul_joined(
                    dir_entries(old(self).files@, path@).take(
                        fit_count(dir_entries(old(self).files@, path@), old(out)@.len() as int) as int,
                    ),
                );
                final(out)@ == shown + old(out)@.subrange(shown.len() as int, old(out)@.len() as int)
            }),
    {
        let mut names: Vec<Vec<u16>> = Vec::new();
        let mut i: usize = 0;
        proof {
            assert(self.files@.take(0) =~= Seq::<(Vec<u16>, Vec<u8>)>::empty());
            assert(units_of(names@) =~= Seq::<Seq<u16>>::empty());
        }
        while i < self.files.len()
            invariant
                i <= self.files@.len(),
                units_of(names@) == dir_entries(self.files@.take(i as int), path@),
            decreases self.files@.len() - i,
        {
            let key = self.files[i].0.as_slice();
            let ghost t = self.files@.take(i + 1);
            proof {
                assert(t.drop_last() =~= self.files@.take(i as int));
                assert(t.last() == self.files@[i as int]);
            }
            if strict_prefix(key, path) {
                let name = vstd::slice::slice_subrange(key, path.len(), key.len());
                let entry = match position(name, SEP) {
                    None => {
                        proof {
                            assert(!name@.contains(SEP));
                        }
                        vstd::slice::slice_to_vec(name)
                    },
                    Some(cut) => {
                        proof {
                            assert(name@.contains(SEP)) by {
                                assert(name@[cut as int] == SEP);
                            }
                            let f = first_sep(name@);
                            assert(0 <= f < name@.len() && name@[f] == SEP && forall|j: int|
                                0 <= j < f ==> name@[j] != SEP);
                            assert(f == cut);
                        }
                        let mut d = vstd::slice::slice_to_vec(
                            vstd::slice::slice_subrange(name, 0, cut),
                        );
                        d.push(SEP);
                        d
                    },
                };
                proof {
                    assert(entry@ =~= entry_of(name@));
                }
                if !holds(&names, &entry) {
                    let ghost before = names@;
                    names.push(entry);
                    proof {
                        assert(units_of(names@) =~= units_of(before).push(entry_of(name@)));
                    }
                }
            }
            i += 1;
        }
        proof {
            assert(self.files@.take(i as int) =~= self.files@);
        }
        Ok(pack(&names, out))
    }

    fn stat(&mut self, path: &[u16]) -> (r: Result<Stat>)
        ensures
            r is Ok <==> old(self).files().contains_key(path@),
            r matches Ok(st) ==> st == (Stat {
                size: old(self).files()[path@].len() as u64,
                year: 0,
                month: 0,
                day: 0,
                hour: 0,
                minute: 0,
                second: 0,
                attributes: 0,
                is_dir: false,
            }),
            r is Err ==> r == Err::<Stat, Error>(Error::NotFound),
    {
        match self.find(path) {
            Some(i) => Ok(
                Stat {
                    size: self.files[i].1.len() as u64,
                    year: 0,
                    month: 0,
                    day: 0,
                    hour: 0,
                    minute: 0,
                    second: 0,
                    attributes: 0,
                    is_dir: false,
                },
            ),
            None => Err(Error::NotFound),
        }
    }

    fn delete(&mut self, path: &[u16]) -> (r: Result<()>)
        ensures
            r is Ok <==> old(self).files().contains_key(path@),
            r is Err ==> r == Err::<(), Error>(Error::NotFound),
    {
        let ghost old_self = *self;
        let r = match self.find(path) {
            Some(i) => {
                self.files.remove(i);
                self.forget(i);
                proof {
                    assert forall|a: int, b: int|
                        0 <= a < self.files@.len() && 0 <= b < self.files@.len() && a != b implies #[trigger] path_in(self.files@, a)
                        != #[trigger] path_in(self.files@, b) by {
                        let a0 = if a < i { a } else { a + 1 };
                        let b0 = if b < i { b } else { b + 1 };
                        assert(path_in(self.files@, a) == path_in(old_self.files@, a0));
                        assert(path_in(self.files@, b) == path_in(old_self.files@, b0));
                    }
                    assert(self.unique());
                    assert(self.files() =~= old_self.files().remove(path@)) by {
                        assert forall|x: Seq<u16>| #[trigger] self.files().contains_key(x) <==> old_self.files().remove(path@).contains_key(x) by {
                            if self.files().contains_key(x) {
                                let k = self.index_of(x);
                                let k0 = if k < i { k } else { k + 1 };
                                assert(path_in(old_self.files@, k0) == x);
                                old_self.lemma_lookup(k0);
                            }
                            if old_self.files().contains_key(x) && x != path@ {
                                let k0 = old_self.index_of(x);
                                let k = if k0 < i { k0 } else { k0 - 1 };
                                assert(path_in(self.files@, k) == x);
                                self.lemma_lookup(k);
                            }
                        }
                        assert forall|x: Seq<u16>| #[trigger] self.files().contains_key(x) implies self.files()[x] == old_self.files().remove(path@)[x] by {
                            let k = self.index_of(x);
                            let k0 = if k < i { k } else { k + 1 };
                            self.lemma_lookup(k);
                            old_self.lemma_lookup(k0);
                        }
                    }
                    assert forall|g: i32| #[trigger] self.handles().contains_key(g) implies old_self.handles().contains_key(g) by {
                        let o = old_self.open@[g - 1];
                    }
                }
                Ok(())
            },
            None => Err(Error::NotFound),
        };
        self.journal = Ghost(self.journal@.push(FsOp::Delete(path@, r is Ok)));
        r
    }

    fn rename(&mut self, from: &[u16], to: &[u16]) -> (r: Result<()>)
        ensures
            r is Ok <==> old(self).files().contains_key(from@) && from@ != to@,
            r is Err ==> r == Err::<(), Error>(Error::NotFound),
    {
        let ghost s0 = *self;
        if self.find(from).is_none() {
            self.journal = Ghost(self.journal@.push(FsOp::Rename(from@, to@, false)));
            return Err(Error::NotFound);
        }
        if let Some(dst) = self.find(to) {
            self.files.remove(dst);
            self.forget(dst);
            proof {
                assert forall|a: int, b: int|
                    0 <= a < self.files@.len() && 0 <= b < self.files@.len() && a != b implies #[trigger] path_in(self.files@, a)
                    != #[trigger] path_in(self.files@, b) by {
                    let a0 = if a < dst { a } else { a + 1 };
                    let b0 = if b < dst { b } else { b + 1 };
                    assert(path_in(self.files@, a) == path_in(s0.files@, a0));
                    assert(path_in(self.files@, b) == path_in(s0.files@, b0));
                }
                assert(self.unique());
                assert(self.files() =~= s0.files().remove(to@)) by {
                    assert forall|x: Seq<u16>| #[trigger] self.files().contains_key(x) <==> s0.files().remove(to@).contains_key(x) by {
                        if self.files().contains_key(x) {
                            let k = self.index_of(x);
                            let k0 = if k < dst { k } else { k + 1 };
                            assert(path_in(s0.files@, k0) == x);
                            s0.lemma_lookup(k0);
                        }
                        if s0.files().contains_key(x) && x != to@ {
                            let k0 = s0.index_of(x);
                            let k = if k0 < dst { k0 } else { k0 - 1 };
                            assert(path_in(self.files@, k) == x);
                            self.lemma_lookup(k);
                        }
                    }
                    assert forall|x: Seq<u16>| #[trigger] self.files().contains_key(x) implies self.files()[x] == s0.files().remove(to@)[x] by {
                        let k = self.index_of(x);
                        let k0 = if k < dst { k } else { k + 1 };
                        self.lemma_lookup(k);
                        s0.lemma_lookup(k0);
                    }
                }
                assert forall|g: i32| #[trigger] self.handles().contains_key(g) implies s0.handles().contains_key(g) by {
                    let o = s0.open@[g - 1];
                }
            }
        } else {
            proof {
                assert(!s0.files().contains_key(to@));
                assert(s0.files().remove(to@) =~= s0.files());
            }
        }
        let ghost s1 = *self;
        let src = match self.find(from) {
            Some(i) => i,
            None => {
                self.journal = Ghost(self.journal@.push(FsOp::Rename(from@, to@, false)));
            return Err(Error::NotFound);
            },
        };
        let (_old_name, data) = self.files.remove(src);
        self.files.insert(src, (vstd::slice::slice_to_vec(to), data));
        proof {
            assert(from@ != to@);
            assert(self.files@ =~= s1.files@.update(src as int, self.files@[src as int]));
            assert forall|a: int, b: int|
                0 <= a < self.files@.len() && 0 <= b < self.files@.len() && a != b implies #[trigger] path_in(self.files@, a)
                != #[trigger] path_in(self.files@, b) by {
                if a != src && b != src {
                    assert(path_in(self.files@, a) == path_in(s1.files@, a));
                    assert(path_in(self.files@, b) == path_in(s1.files@, b));
                } else if a == src {
                    assert(path_in(self.files@, b) == path_in(s1.files@, b));
                    s1.lemma_lookup(b);
                } else {
                    assert(path_in(self.files@, a) == path_in(s1.files@, a));
                    s1.lemma_lookup(a);
                }
            }
            assert(self.unique());
            s1.lemma_lookup(src as int);
            let expected = s0.files().remove(from@).insert(to@, s0.files()[from@]);
            assert(s1.files()[from@] == s0.files()[from@]);
            assert(self.files() =~= expected) by {
                assert forall|x: Seq<u16>| #[trigger] self.files().contains_key(x) <==> expected.contains_key(x) by {
                    if self.files().contains_key(x) {
                        let k = self.index_of(x);
                        if k != src {
                            assert(path_in(s1.files@, k) == x);
                            s1.lemma_lookup(k);
                        }
                    }
                    if expected.contains_key(x) {
                        if x == to@ {
                            self.lemma_lookup(src as int);
                        } else {
                            let k = s1.index_of(x);
                            assert(k != src);
                            assert(path_in(self.files@, k) == x);
                            self.lemma_lookup(k);
                        }
                    }
                }
                assert forall|x: Seq<u16>| #[trigger] self.files().contains_key(x) implies self.files()[x] == expected[x] by {
                    let k = self.index_of(x);
                    self.lemma_lookup(k);
                    if k != src {
                        assert(path_in(s1.files@, k) == x);
                        s1.lemma_lookup(k);
                    }
                }
            }
            assert forall|g: i32| #[trigger] self.handles().contains_key(g) implies s0.handles().contains_key(g) by {
                assert(s1.handles().contains_key(g));
            }
            assert(self.handles().dom() =~= self.handles().dom().intersect(s0.handles().dom()));
        }
        self.journal = Ghost(self.journal@.push(FsOp::Rename(from@, to@, true)));
        Ok(())
    }

    fn mkdir(&mut self, path: &[u16]) -> (r: Result<()>)
        ensures
            r is Ok,
            final(self).mkdirs@.len() == old(self).mkdirs@.len() + 1,
            final(self).mkdirs@.last()@ == path@,
            forall|i: int| 0 <= i < old(self).mkdirs@.len() ==> #[trigger] final(self).mkdirs@[i]
                == old(self).mkdirs@[i],
    {
        self.mkdirs.push(vstd::slice::slice_to_vec(path));
        Ok(())
    }

    fn private_path(&mut self, out: &mut [u16]) -> (r: Result<usize>)
        ensures
            r is Ok <==> old(self).private@.len() <= old(out)@.len(),
            r matches Ok(n) ==> n == old(self).private@.len(),
            r is Err ==> r == Err::<usize, Error>(Error::Overflow),
    {
        let n = self.private.len();
        if n > out.len() {
            return Err(Error::Overflow);
        }
        let mut k: usize = 0;
        while k < n
            invariant
                k <= n,
                n == self.private@.len(),
                n <= out@.len(),
                out@.len() == old(out)@.len(),
                forall|j: int| 0 <= j < k ==> out@[j] == self.private@[j],
            decreases n - k,
        {
            out[k] = self.private[k];
            k += 1;
        }
        assert(out@.subrange(0, n as int) =~= self.private@);
        Ok(n)
    }
}

} // verus!
