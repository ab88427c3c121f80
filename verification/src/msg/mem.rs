//! An in-memory message store, for tests of the code above [`Msv`]: it keeps the trait's
//! contracts over its own model, and it logs every call, because the order of calls is the
//! thing a return value cannot show.

use vstd::prelude::*;

use super::store::{
    distinct_ids, filled, first_at, has_id, in_folder, index_of, message_record, newest_first,
    reflag, reparent, reported, service_record, services_of, unread_in, without_services, Msv,
    MtmInfo, RawEntry, Store, DETAILS_UNITS,
};
use super::{EntryId, NewMessage, MSV_COMPLETE, MSV_ROOT, MSV_UNREAD, MSV_VISIBLE, TYPE_MESSAGE, TYPE_SERVICE};
use crate::codec::{from_utf16_lossy, utf16_lossy};
use crate::error::{Error, Result, ERR_NOT_SUPPORTED};
use crate::fs::{encode_utf16, units_eq, utf16};

verus! {

/// Which store operation was asked for, in order.
#[derive(Copy, Clone, Debug, PartialEq, Eq)]
pub enum MsvCall {
    Open,
    Close,
    InstallMtm,
    DeinstallMtm,
    CreateService(u32),
    CreateMessage(EntryId),
    DeleteEntry(EntryId),
    DeleteServices(u32),
    Entry(EntryId),
    Children(EntryId),
    Services(u32),
    Body(EntryId),
    SetFlags(EntryId, i32, i32),
    MoveEntry(EntryId, EntryId),
    Observe(bool),
}

/// The first id the in-memory store hands out.
pub const FIRST_ID: EntryId = 0x2000;

/// An in-memory message store.
pub struct MemMsv {
    /// Each entry with its body text.
    pub entries: Vec<(RawEntry, Vec<u16>)>,
    /// Registration paths installed, in order.
    pub installed: Vec<Vec<u16>>,
    pub calls: Vec<MsvCall>,
    pub observing: bool,
    /// Make `observe` refuse, on its own, without touching the other calls.
    pub refuse_observe: bool,
    /// Fail the next call with this, then clear it.
    pub fail_next: Option<Error>,
    next_id: EntryId,
}

/// A text field of `cap` units written from `units`: what fits, the rest zero.
fn text_field(units: &[u16]) -> (a: [u16; DETAILS_UNITS])
    ensures
        a@ == filled(units@, DETAILS_UNITS as nat),
{
    let mut a = [0u16; DETAILS_UNITS];
    let mut i: usize = 0;
    while i < DETAILS_UNITS
        invariant
            i <= DETAILS_UNITS,
            a@.len() == DETAILS_UNITS,
            forall|k: int|
                0 <= k < i ==> #[trigger] a@[k] == (if k < units@.len() {
                    units@[k]
                } else {
                    0u16
                }),
        decreases DETAILS_UNITS - i,
    {
        if i < units.len() {
            a[i] = units[i];
        } else {
            a[i] = 0;
        }
        i += 1;
    }
    assert(a@ =~= filled(units@, DETAILS_UNITS as nat));
    a
}

/// A length as the record reports it.
fn length_of(n: usize) -> (r: i32)
    ensures
        r == reported(n as nat),
{
    if n <= i32::MAX as usize {
        n as i32
    } else {
        i32::MAX
    }
}

/// The entry at `i` has `id`, and ids are distinct: so `i` is where `id` is.
proof fn lemma_index_of(s: Store, id: EntryId, i: int)
    requires
        distinct_ids(s),
        0 <= i < s.len(),
        s[i].0.id == id,
    ensures
        has_id(s, id),
        index_of(s, id) == i,
{
    assert(has_id(s, id));
    let j = index_of(s, id);
    assert(0 <= j < s.len() && s[j].0.id == id);
}

impl MemMsv {
    /// The calls made, in order.
    pub closed spec fn log(&self) -> Seq<MsvCall> {
        self.calls@
    }

    /// The failure the next call will report.
    pub closed spec fn pending(&self) -> Option<Error> {
        self.fail_next
    }

    /// Whether `observe` refuses.
    pub closed spec fn refusing(&self) -> bool {
        self.refuse_observe
    }

    /// Room for another entry: an id to give it and a count to report it in.
    pub closed spec fn has_room(&self) -> bool {
        self.next_id < i32::MAX && self.entries@.len() + 1 < i32::MAX
    }

    pub fn new() -> (r: Self)
        ensures
            r.inv(),
            r.has_room(),
            r.store() == Seq::<(RawEntry, Seq<u16>)>::empty(),
            r.registry() == Seq::<Seq<u16>>::empty(),
            !r.observing(),
            r.log() == Seq::<MsvCall>::empty(),
            r.pending() is None,
            !r.refusing(),
    {
        let r = MemMsv {
            entries: Vec::new(),
            installed: Vec::new(),
            calls: Vec::new(),
            observing: false,
            refuse_observe: false,
            fail_next: None,
            next_id: FIRST_ID,
        };
        assert(r.store() =~= Seq::<(RawEntry, Seq<u16>)>::empty());
        assert(r.registry() =~= Seq::<Seq<u16>>::empty());
        r
    }

    /// The injected failure, once.
    fn take_failure(&mut self) -> (r: Result<()>)
        ensures
            r == (match old(self).fail_next {
                Some(e) => Err(e),
                None => Ok(()),
            }),
            *final(self) == (MemMsv { fail_next: None, ..*old(self) }),
    {
        match self.fail_next {
            Some(e) => {
                self.fail_next = None;
                Err(e)
            },
            None => Ok(()),
        }
    }

    fn log_call(&mut self, c: MsvCall)
        ensures
            *final(self) == (MemMsv { calls: final(self).calls, ..*old(self) }),
            final(self).calls@ == old(self).calls@.push(c),
    {
        self.calls.push(c);
    }

    /// Where the entry with this id is.
    fn find(&self, id: EntryId) -> (r: Option<usize>)
        ensures
            r matches Some(i) ==> i < self.entries@.len() && self.entries@[i as int].0.id == id,
            r is None <==> !has_id(self.store(), id),
    {
        let mut i: usize = 0;
        while i < self.entries.len()
            invariant
                i <= self.entries@.len(),
                forall|j: int| 0 <= j < i ==> (#[trigger] self.entries@[j]).0.id != id,
            decreases self.entries@.len() - i,
        {
            if self.entries[i].0.id == id {
                assert(self.store()[i as int].0 == self.entries@[i as int].0);
                return Some(i);
            }
            i += 1;
        }
        assert forall|j: int| 0 <= j < self.store().len() implies (#[trigger] self.store()[j]).0.id
            != id by {
            assert(self.store()[j].0 == self.entries@[j].0);
        }
        None
    }

    /// Keep an entry, under the next id.
    fn keep(&mut self, raw: RawEntry, body: Vec<u16>) -> (id: EntryId)
        requires
            old(self).inv(),
            old(self).has_room(),
        ensures
            final(self).inv(),
            id == old(self).next_id,
            !has_id(old(self).store(), id),
            final(self).next_id == old(self).next_id + 1,
            final(self).store() == old(self).store().push((RawEntry { id, ..raw }, body@)),
            final(self).registry() == old(self).registry(),
            final(self).observing == old(self).observing,
            final(self).calls == old(self).calls,
            final(self).fail_next == old(self).fail_next,
            final(self).refuse_observe == old(self).refuse_observe,
            final(self).installed == old(self).installed,
    {
        let id = self.next_id;
        let ghost before = self.store();
        proof {
            if has_id(before, id) {
                let j = choose|j: int| 0 <= j < before.len() && (#[trigger] before[j]).0.id == id;
                assert(before[j].0 == self.entries@[j].0);
            }
        }
        self.next_id = self.next_id + 1;
        self.entries.push((RawEntry { id, ..raw }, body));
        proof {
            assert(self.store() =~= before.push((RawEntry { id, ..raw }, body@)));
            let e = self.entries@;
            let n = old(self).entries@.len();
            assert forall|i: int| 0 <= i < e.len() implies (#[trigger] e[i]).0.id < self.next_id by {
                if i < n {
                    assert(e[i] == old(self).entries@[i]);
                }
            }
            assert forall|i: int, j: int| 0 <= i < j < e.len() implies (#[trigger] e[i]).0.id
                < (#[trigger] e[j]).0.id by {
                assert(e[i] == old(self).entries@[i]);
                if j < n {
                    assert(e[j] == old(self).entries@[j]);
                }
            }
        }
        id
    }

    /// Put a message in a folder as if the platform had: `details` as the correspondent,
    /// `body` as both the preview line and the text. Returns its id.
    pub fn push_message(
        &mut self,
        parent: EntryId,
        mtm_uid: u32,
        service: EntryId,
        details: &str,
        body: &str,
        flags: i32,
    ) -> (id: EntryId)
        requires
            old(self).inv(),
            old(self).has_room(),
        ensures
            final(self).inv(),
            !has_id(old(self).store(), id),
            final(self).store().len() == old(self).store().len() + 1,
            final(self).store().drop_last() == old(self).store(),
            message_record(
                final(self).store().last().0,
                id,
                parent,
                service,
                mtm_uid,
                0,
                flags,
                utf16(details@),
                utf16(body@),
            ),
            final(self).store().last().1 == utf16(body@),
            final(self).registry() == old(self).registry(),
            final(self).observing() == old(self).observing(),
            final(self).log() == old(self).log(),
            final(self).pending() == old(self).pending(),
            final(self).refusing() == old(self).refusing(),
    {
        let d = encode_utf16(details);
        let b = encode_utf16(body);
        let raw = RawEntry {
            id: 0,
            parent,
            service_id: service,
            mtm_uid,
            type_uid: TYPE_MESSAGE,
            unix_time: 0,
            size: 0,
            flags,
            details: text_field(d.as_slice()),
            details_len: length_of(d.len()),
            description: text_field(b.as_slice()),
            description_len: length_of(b.len()),
        };
        let id = self.keep(raw, b);
        assert(self.store().drop_last() =~= old(self).store());
        id
    }

    /// A service under the root, as [`super::Session::create_service`] would leave it.
    fn keep_service(&mut self, mtm_uid: u32, name: &[u16]) -> (id: EntryId)
        requires
            old(self).inv(),
            old(self).has_room(),
        ensures
            final(self).inv(),
            !has_id(old(self).store(), id),
            final(self).store().len() == old(self).store().len() + 1,
            final(self).store().drop_last() == old(self).store(),
            service_record(final(self).store().last().0, id, mtm_uid, name@),
            final(self).store().last().1 == Seq::<u16>::empty(),
            final(self).registry() == old(self).registry(),
            final(self).observing == old(self).observing,
            final(self).calls == old(self).calls,
            final(self).fail_next == old(self).fail_next,
            final(self).refuse_observe == old(self).refuse_observe,
    {
        let none: Vec<u16> = Vec::new();
        let raw = RawEntry {
            id: 0,
            parent: MSV_ROOT,
            service_id: 0,
            mtm_uid,
            type_uid: TYPE_SERVICE,
            unix_time: 0,
            size: 0,
            flags: MSV_COMPLETE | MSV_VISIBLE,
            details: text_field(name),
            details_len: length_of(name.len()),
            description: text_field(none.as_slice()),
            description_len: 0,
        };
        let id = self.keep(raw, Vec::new());
        assert(self.store().drop_last() =~= old(self).store());
        id
    }

    /// A service entry under the root, as [`super::Session::create_service`] would leave
    /// it.
    pub fn push_service(&mut self, mtm_uid: u32, name: &str) -> (id: EntryId)
        requires
            old(self).inv(),
            old(self).has_room(),
        ensures
            final(self).inv(),
            !has_id(old(self).store(), id),
            final(self).store().len() == old(self).store().len() + 1,
            final(self).store().drop_last() == old(self).store(),
            service_record(final(self).store().last().0, id, mtm_uid, utf16(name@)),
            final(self).store().last().1 == Seq::<u16>::empty(),
            final(self).registry() == old(self).registry(),
            final(self).observing() == old(self).observing(),
            final(self).log() == old(self).log(),
            final(self).pending() == old(self).pending(),
            final(self).refusing() == old(self).refusing(),
    {
        let units = encode_utf16(name);
        self.keep_service(mtm_uid, units.as_slice())
    }

    /// What a UI MTM's reply leaves behind: complete, visible, not in preparation, the
    /// correspondent in `iDetails` and the text as both preview and body.
    pub fn push_reply(&mut self, parent: EntryId, mtm_uid: u32, service: EntryId, to: &str, text: &str) -> (id: EntryId)
        requires
            old(self).inv(),
            old(self).has_room(),
        ensures
            final(self).inv(),
            !has_id(old(self).store(), id),
            final(self).store().len() == old(self).store().len() + 1,
            final(self).store().drop_last() == old(self).store(),
            message_record(
                final(self).store().last().0,
                id,
                parent,
                service,
                mtm_uid,
                0,
                MSV_COMPLETE | MSV_VISIBLE,
                utf16(to@),
                utf16(text@),
            ),
            final(self).store().last().1 == utf16(text@),
            final(self).registry() == old(self).registry(),
            final(self).observing() == old(self).observing(),
            final(self).log() == old(self).log(),
            final(self).pending() == old(self).pending(),
            final(self).refusing() == old(self).refusing(),
    {
        self.push_message(parent, mtm_uid, service, to, text, MSV_COMPLETE | MSV_VISIBLE)
    }

    /// An entry's body, as text.
    pub fn body_of(&self, id: EntryId) -> (r: Option<String>)
        requires
            self.inv(),
        ensures
            r is Some <==> has_id(self.store(), id),
            r matches Some(t) ==> t@ == utf16_lossy(self.store()[index_of(self.store(), id)].1),
    {
        match self.find(id) {
            Some(i) => {
                proof {
                    lemma_index_of(self.store(), id, i as int);
                }
                Some(from_utf16_lossy(self.entries[i].1.as_slice()))
            },
            None => None,
        }
    }

    /// An entry's parent.
    pub fn parent_of(&self, id: EntryId) -> (r: Option<EntryId>)
        requires
            self.inv(),
        ensures
            r is Some <==> has_id(self.store(), id),
            r matches Some(p) ==> p == self.store()[index_of(self.store(), id)].0.parent,
    {
        match self.find(id) {
            Some(i) => {
                proof {
                    lemma_index_of(self.store(), id, i as int);
                }
                Some(self.entries[i].0.parent)
            },
            None => None,
        }
    }

    /// An entry's flags.
    pub fn flags_of(&self, id: EntryId) -> (r: Option<i32>)
        requires
            self.inv(),
        ensures
            r is Some <==> has_id(self.store(), id),
            r matches Some(f) ==> f == self.store()[index_of(self.store(), id)].0.flags,
    {
        match self.find(id) {
            Some(i) => {
                proof {
                    lemma_index_of(self.store(), id, i as int);
                }
                Some(self.entries[i].0.flags)
            },
            None => None,
        }
    }
}

impl MemMsv {
    /// Ids rise along the store, so none repeats.
    proof fn lemma_distinct(&self)
        requires
            self.inv(),
        ensures
            distinct_ids(self.store()),
    {
        let s = self.store();
        assert forall|i: int, j: int| 0 <= i < s.len() && 0 <= j < s.len() && i != j implies (#[trigger] s[i]).0.id
            != (#[trigger] s[j]).0.id by {
            assert(s[i].0 == self.entries@[i].0);
            assert(s[j].0 == self.entries@[j].0);
            if i < j {
                assert(self.entries@[i].0.id < self.entries@[j].0.id);
            } else {
                assert(self.entries@[j].0.id < self.entries@[i].0.id);
            }
        }
    }

    /// Where the entry with this id is, in the store's terms.
    fn locate(&self, id: EntryId) -> (r: Option<usize>)
        requires
            self.inv(),
        ensures
            r matches Some(i) ==> i < self.entries@.len() && has_id(self.store(), id) && index_of(
                self.store(),
                id,
            ) == i && self.entries@[i as int].0.id == id,
            r is None <==> !has_id(self.store(), id),
    {
        let r = self.find(id);
        proof {
            if let Some(i) = r {
                self.lemma_distinct();
                assert(self.store()[i as int].0 == self.entries@[i as int].0);
                lemma_index_of(self.store(), id, i as int);
            }
        }
        r
    }

    /// The entry at `i` with a changed record and the same body.
    fn replace_record(&mut self, i: usize, raw: RawEntry)
        requires
            old(self).inv(),
            i < old(self).entries@.len(),
            raw.id == old(self).entries@[i as int].0.id,
        ensures
            final(self).inv(),
            final(self).store() == old(self).store().update(i as int, (raw, old(self).store()[i as int].1)),
            final(self).registry() == old(self).registry(),
            final(self).observing == old(self).observing,
            final(self).calls == old(self).calls,
            final(self).fail_next == old(self).fail_next,
            final(self).refuse_observe == old(self).refuse_observe,
            final(self).next_id == old(self).next_id,
            final(self).installed == old(self).installed,
    {
        let (_, body) = self.entries.remove(i);
        self.entries.insert(i, (raw, body));
        proof {
            let e = self.entries@;
            let o = old(self).entries@;
            assert(e =~= o.update(i as int, (raw, o[i as int].1)));
            assert(self.store() =~= old(self).store().update(i as int, (raw, old(self).store()[i as int].1)));
            assert forall|a: int| 0 <= a < e.len() implies (#[trigger] e[a]).0.id == o[a].0.id by {}
            assert forall|a: int, b: int| 0 <= a < b < e.len() implies (#[trigger] e[a]).0.id
                < (#[trigger] e[b]).0.id by {
                assert(o[a].0.id < o[b].0.id);
            }
            assert forall|a: int| 0 <= a < e.len() implies (#[trigger] e[a]).0.id < self.next_id by {
                assert(o[a].0.id < self.next_id);
            }
        }
    }
}

impl Msv for MemMsv {
    closed spec fn store(&self) -> Store {
        Seq::new(self.entries@.len(), |i: int| (self.entries@[i].0, self.entries@[i].1@))
    }

    closed spec fn registry(&self) -> Seq<Seq<u16>> {
        Seq::new(self.installed@.len(), |i: int| self.installed@[i]@)
    }

    closed spec fn observing(&self) -> bool {
        self.observing
    }

    closed spec fn inv(&self) -> bool {
        let e = self.entries@;
        &&& forall|i: int, j: int| 0 <= i < j < e.len() ==> (#[trigger] e[i]).0.id < (#[trigger] e[j]).0.id
        &&& forall|i: int| 0 <= i < e.len() ==> (#[trigger] e[i]).0.id < self.next_id
        &&& e.len() < i32::MAX
        &&& self.installed@.len() < i32::MAX
    }

    fn open(&mut self) -> (r: Result<i32>)
        ensures
            r is Ok <==> old(self).pending() is None,
            r matches Ok(h) ==> h == 1,
            r matches Err(e) ==> old(self).pending() == Some(e),
            final(self).pending() is None,
            final(self).log() == old(self).log().push(MsvCall::Open),
    {
        self.log_call(MsvCall::Open);
        match self.take_failure() {
            Ok(()) => Ok(1),
            Err(e) => Err(e),
        }
    }

    fn close(&mut self, handle: i32)
        ensures
            final(self).log() == old(self).log().push(MsvCall::Close),
            final(self).pending() == old(self).pending(),
            final(self).store() == old(self).store(),
            final(self).registry() == old(self).registry(),
            final(self).observing() == old(self).observing(),
    {
        self.log_call(MsvCall::Close);
    }

    fn mtm_count(&mut self, handle: i32) -> (r: Result<i32>)
        ensures
            r is Ok <==> old(self).pending() is None,
            r matches Err(e) ==> old(self).pending() == Some(e),
            final(self).log() == old(self).log(),
            final(self).pending() is None,
    {
        match self.take_failure() {
            Ok(()) => Ok(self.installed.len() as i32),
            Err(e) => Err(e),
        }
    }

    fn refresh_registry(&mut self, handle: i32) -> (r: Result<()>)
        ensures
            r == (match old(self).pending() {
                Some(e) => Err(e),
                None => Ok(()),
            }),
            final(self).log() == old(self).log(),
            final(self).pending() is None,
    {
        self.take_failure()
    }

    fn can_instantiate(&mut self, handle: i32, mtm_uid: u32) -> (r: Result<()>)
        ensures
            r == (match old(self).pending() {
                Some(e) => Err(e),
                None => Ok(()),
            }),
            final(self).log() == old(self).log(),
            final(self).pending() is None,
    {
        self.take_failure()
    }

    fn mtm_info(&mut self, handle: i32, index: i32) -> (r: Result<MtmInfo>)
        ensures
            r == Err::<MtmInfo, Error>(match old(self).pending() {
                Some(e) => e,
                None => Error::NotFound,
            }),
            final(self).log() == old(self).log(),
            final(self).pending() is None,
    {
        match self.take_failure() {
            Ok(()) => Err(Error::NotFound),
            Err(e) => Err(e),
        }
    }

    fn folder_count(&mut self, handle: i32, folder_id: EntryId) -> (r: Result<i32>)
        ensures
            r is Ok <==> old(self).pending() is None,
            r matches Err(e) ==> old(self).pending() == Some(e),
            final(self).log() == old(self).log(),
            final(self).pending() is None,
    {
        if let Err(e) = self.take_failure() {
            return Err(e);
        }
        let ghost s = self.store();
        let mut n: usize = 0;
        let mut i: usize = 0;
        while i < self.entries.len()
            invariant
                s == self.store(),
                i <= s.len(),
                s.len() < i32::MAX,
                n == in_folder(s.subrange(0, i as int), folder_id),
                n <= i,
            decreases s.len() - i,
        {
            assert(s.subrange(0, i + 1).drop_last() =~= s.subrange(0, i as int));
            assert(s[i as int].0 == self.entries@[i as int].0);
            if self.entries[i].0.parent == folder_id {
                n += 1;
            }
            i += 1;
        }
        assert(s.subrange(0, i as int) =~= s);
        Ok(n as i32)
    }

    fn unread_count(&mut self, handle: i32, folder_id: EntryId) -> (r: Result<i32>)
        ensures
            r is Ok <==> old(self).pending() is None,
            r matches Err(e) ==> old(self).pending() == Some(e),
            final(self).log() == old(self).log(),
            final(self).pending() is None,
    {
        if let Err(e) = self.take_failure() {
            return Err(e);
        }
        let ghost s = self.store();
        let mut n: usize = 0;
        let mut i: usize = 0;
        while i < self.entries.len()
            invariant
                s == self.store(),
                i <= s.len(),
                s.len() < i32::MAX,
                n == unread_in(s.subrange(0, i as int), folder_id),
                n <= i,
            decreases s.len() - i,
        {
            assert(s.subrange(0, i + 1).drop_last() =~= s.subrange(0, i as int));
            assert(s[i as int].0 == self.entries@[i as int].0);
            if self.entries[i].0.parent == folder_id && self.entries[i].0.flags & MSV_UNREAD != 0 {
                n += 1;
            }
            i += 1;
        }
        assert(s.subrange(0, i as int) =~= s);
        Ok(n as i32)
    }

    fn install_mtm(&mut self, path: &[u16]) -> (r: Result<()>)
        ensures
            r is Ok <==> old(self).pending() is None && old(self).registry().len() + 1 < i32::MAX,
            r matches Err(e) ==> e == (match old(self).pending() {
                Some(f) => f,
                None => Error::NoMemory,
            }),
            final(self).pending() is None,
            final(self).log() == old(self).log().push(MsvCall::InstallMtm),
    {
        self.log_call(MsvCall::InstallMtm);
        if let Err(e) = self.take_failure() {
            return Err(e);
        }
        if self.installed.len() + 1 >= i32::MAX as usize {
            return Err(Error::NoMemory);
        }
        self.installed.push(vstd::slice::slice_to_vec(path));
        assert(self.registry() =~= old(self).registry().push(path@));
        Ok(())
    }

    fn deinstall_mtm(&mut self, path: &[u16]) -> (r: Result<()>)
        ensures
            r is Ok <==> old(self).pending() is None && old(self).registry().contains(path@),
            r matches Err(e) ==> e == (match old(self).pending() {
                Some(f) => f,
                None => Error::NotFound,
            }),
            final(self).pending() is None,
            final(self).log() == old(self).log().push(MsvCall::DeinstallMtm),
    {
        self.log_call(MsvCall::DeinstallMtm);
        if let Err(e) = self.take_failure() {
            return Err(e);
        }
        assert(self.entries == old(self).entries && self.installed == old(self).installed);
        let ghost reg = self.registry();
        let ghost me = *self;
        let mut i: usize = 0;
        while i < self.installed.len()
            invariant
                *self == me,
                me.inv(),
                reg == self.registry(),
                reg == old(self).registry(),
                me.entries == old(self).entries,
                me.observing == old(self).observing,
                me.fail_next is None,
                old(self).fail_next is None,
                me.calls@ == old(self).calls@.push(MsvCall::DeinstallMtm),
                i <= reg.len(),
                forall|j: int| 0 <= j < i ==> reg[j] != path@,
            decreases reg.len() - i,
        {
            if units_eq(self.installed[i].as_slice(), path) {
                proof {
                    assert(reg[i as int] == path@);
                    assert(reg.contains(path@));
                }
                self.installed.remove(i);
                proof {
                    assert(first_at(reg, path@, i as int));
                    assert(self.registry() =~= reg.remove(i as int));
                    assert(self.entries == old(self).entries);
                    assert(self.store() =~= old(self).store());
                }
                return Ok(());
            }
            i += 1;
        }
        proof {
            if reg.contains(path@) {
                let j = choose|j: int| 0 <= j < reg.len() && reg[j] == path@;
                assert(reg[j] != path@);
            }
        }
        Err(Error::NotFound)
    }

    fn create_service(&mut self, handle: i32, mtm_uid: u32, name: &[u16]) -> (r: Result<EntryId>)
        ensures
            r is Ok <==> old(self).pending() is None && old(self).has_room(),
            r matches Err(e) ==> e == (match old(self).pending() {
                Some(f) => f,
                None => Error::NoMemory,
            }),
            final(self).pending() is None,
            final(self).log() == old(self).log().push(MsvCall::CreateService(mtm_uid)),
    {
        self.log_call(MsvCall::CreateService(mtm_uid));
        if let Err(e) = self.take_failure() {
            return Err(e);
        }
        if self.next_id == i32::MAX || self.entries.len() + 1 >= i32::MAX as usize {
            return Err(Error::NoMemory);
        }
        Ok(self.keep_service(mtm_uid, name))
    }

    fn create_message(&mut self, handle: i32, msg: &NewMessage) -> (r: Result<EntryId>)
        ensures
            r is Ok <==> old(self).pending() is None && old(self).has_room(),
            r matches Err(e) ==> e == (match old(self).pending() {
                Some(f) => f,
                None => Error::NoMemory,
            }),
            r matches Ok(id) ==> final(self).log() == old(self).log().push(MsvCall::CreateMessage(id)),
            r is Err ==> final(self).log() == old(self).log(),
            final(self).pending() is None,
    {
        if let Err(e) = self.take_failure() {
            return Err(e);
        }
        if self.next_id == i32::MAX || self.entries.len() + 1 >= i32::MAX as usize {
            return Err(Error::NoMemory);
        }
        let d = msg.details_units();
        let c = msg.description_units();
        let raw = RawEntry {
            id: 0,
            parent: msg.parent_id,
            service_id: msg.service_id,
            mtm_uid: msg.mtm_uid,
            type_uid: TYPE_MESSAGE,
            unix_time: msg.unix_time,
            size: 0,
            flags: msg.flags | MSV_COMPLETE | MSV_VISIBLE,
            details: text_field(d),
            details_len: length_of(d.len()),
            description: text_field(c),
            description_len: length_of(c.len()),
        };
        let id = self.keep(raw, vstd::slice::slice_to_vec(msg.body_units()));
        self.log_call(MsvCall::CreateMessage(id));
        assert(self.store().drop_last() =~= old(self).store());
        Ok(id)
    }

    fn delete_entry(&mut self, handle: i32, id: EntryId) -> (r: Result<()>)
        ensures
            r is Ok <==> old(self).pending() is None && has_id(old(self).store(), id),
            r matches Err(e) ==> e == (match old(self).pending() {
                Some(f) => f,
                None => Error::NotFound,
            }),
            final(self).pending() is None,
            final(self).log() == old(self).log().push(MsvCall::DeleteEntry(id)),
    {
        self.log_call(MsvCall::DeleteEntry(id));
        if let Err(e) = self.take_failure() {
            return Err(e);
        }
        match self.locate(id) {
            Some(i) => {
                let ghost before = self.store();
                let ghost o = self.entries@;
                self.entries.remove(i);
                proof {
                    let e = self.entries@;
                    assert(self.store() =~= before.remove(i as int));
                    assert forall|a: int, b: int| 0 <= a < b < e.len() implies (#[trigger] e[a]).0.id
                        < (#[trigger] e[b]).0.id by {
                        if a < i {
                            assert(e[a] == o[a]);
                        } else {
                            assert(e[a] == o[a + 1]);
                        }
                        if b < i {
                            assert(e[b] == o[b]);
                        } else {
                            assert(e[b] == o[b + 1]);
                        }
                    }
                    assert forall|a: int| 0 <= a < e.len() implies (#[trigger] e[a]).0.id < self.next_id by {
                        if a < i {
                            assert(e[a] == o[a]);
                        } else {
                            assert(e[a] == o[a + 1]);
                        }
                    }
                }
                Ok(())
            },
            None => Err(Error::NotFound),
        }
    }

    fn delete_services(&mut self, handle: i32, mtm_uid: u32) -> (r: Result<i32>)
        ensures
            r is Ok <==> old(self).pending() is None,
            r matches Err(e) ==> old(self).pending() == Some(e),
            final(self).pending() is None,
            final(self).log() == old(self).log().push(MsvCall::DeleteServices(mtm_uid)),
    {
        self.log_call(MsvCall::DeleteServices(mtm_uid));
        if let Err(e) = self.take_failure() {
            return Err(e);
        }
        let ghost s = self.store();
        let ghost o = self.entries@;
        let mut rest: Vec<(RawEntry, Vec<u16>)> = Vec::new();
        core::mem::swap(&mut rest, &mut self.entries);
        let before = rest.len();
        let mut i: usize = 0;
        while rest.len() > 0
            invariant
                rest@ == o.subrange(i as int, o.len() as int),
                i <= o.len(),
                s.len() == o.len(),
                s == Seq::new(o.len(), |k: int| (o[k].0, o[k].1@)),
                forall|a: int, b: int| 0 <= a < b < o.len() ==> (#[trigger] o[a]).0.id < (#[trigger] o[b]).0.id,
                forall|a: int| 0 <= a < o.len() ==> (#[trigger] o[a]).0.id < self.next_id,
                o.len() < i32::MAX,
                self.installed@.len() < i32::MAX,
                self.store() == without_services(s.subrange(0, i as int), mtm_uid),
                self.entries@.len() <= i,
                forall|a: int, b: int| 0 <= a < b < self.entries@.len() ==> (#[trigger] self.entries@[a]).0.id
                    < (#[trigger] self.entries@[b]).0.id,
                forall|a: int| 0 <= a < self.entries@.len() ==> (#[trigger] self.entries@[a]).0.id < self.next_id,
                i < o.len() ==> forall|a: int| 0 <= a < self.entries@.len() ==> (#[trigger] self.entries@[a]).0.id < o[i as int].0.id,
                self.registry() == old(self).registry(),
                self.observing == old(self).observing,
                self.fail_next is None,
                self.calls@ == old(self).calls@.push(MsvCall::DeleteServices(mtm_uid)),
            decreases rest@.len(),
        {
            let ghost kept = self.store();
            let ghost ke = self.entries@;
            let item = rest.remove(0);
            assert(item == o[i as int]);
            assert(s.subrange(0, i + 1).drop_last() =~= s.subrange(0, i as int));
            assert(s.subrange(0, i + 1).last() == s[i as int]);
            if !(item.0.type_uid == TYPE_SERVICE && item.0.mtm_uid == mtm_uid) {
                self.entries.push(item);
                proof {
                    assert(self.store() =~= kept.push(s[i as int]));
                    let e = self.entries@;
                    assert forall|a: int, b: int| 0 <= a < b < e.len() implies (#[trigger] e[a]).0.id
                        < (#[trigger] e[b]).0.id by {
                        assert(e[a] == ke[a]);
                        if b < ke.len() {
                            assert(e[b] == ke[b]);
                        }
                    }
                    assert forall|a: int| 0 <= a < e.len() implies (#[trigger] e[a]).0.id < self.next_id by {
                        if a < ke.len() {
                            assert(e[a] == ke[a]);
                        }
                    }
                }
            }
            proof {
                let e = self.entries@;
                if i + 1 < o.len() {
                    assert(o[i as int].0.id < o[i + 1].0.id);
                    assert forall|a: int| 0 <= a < e.len() implies (#[trigger] e[a]).0.id < o[i + 1].0.id by {
                        if a < ke.len() {
                            assert(e[a] == ke[a]);
                        }
                    }
                }
                assert(rest@ =~= o.subrange(i + 1, o.len() as int));
            }
            i += 1;
        }
        assert(s.subrange(0, i as int) =~= s);
        let after = self.entries.len();
        Ok((before - after) as i32)
    }

    fn entry(&mut self, handle: i32, id: EntryId) -> (r: Result<RawEntry>)
        ensures
            r is Ok <==> old(self).pending() is None && has_id(old(self).store(), id),
            r matches Err(e) ==> e == (match old(self).pending() {
                Some(f) => f,
                None => Error::NotFound,
            }),
            final(self).pending() is None,
            final(self).log() == old(self).log().push(MsvCall::Entry(id)),
    {
        self.log_call(MsvCall::Entry(id));
        if let Err(e) = self.take_failure() {
            return Err(e);
        }
        match self.locate(id) {
            Some(i) => {
                assert(self.store()[i as int].0 == self.entries@[i as int].0);
                Ok(self.entries[i].0)
            },
            None => Err(Error::NotFound),
        }
    }

    fn children(&mut self, handle: i32, folder: EntryId, out: &mut [EntryId]) -> (r: Result<usize>)
        ensures
            r is Ok <==> old(self).pending() is None,
            r matches Err(e) ==> old(self).pending() == Some(e),
            final(self).pending() is None,
            final(self).log() == old(self).log().push(MsvCall::Children(folder)),
    {
        self.log_call(MsvCall::Children(folder));
        if let Err(e) = self.take_failure() {
            return Err(e);
        }
        let ghost s = self.store();
        let mut ids: Vec<EntryId> = Vec::new();
        let mut i: usize = self.entries.len();
        while i > 0
            invariant
                s == self.store(),
                i <= s.len(),
                ids@ == newest_first(s.subrange(i as int, s.len() as int), folder),
            decreases i,
        {
            assert(s.subrange(i - 1, s.len() as int).drop_first() =~= s.subrange(i as int, s.len() as int));
            assert(s[i - 1].0 == self.entries@[i - 1].0);
            if self.entries[i - 1].0.parent == folder {
                ids.push(self.entries[i - 1].0.id);
            }
            i -= 1;
            assert(ids@ =~= newest_first(s.subrange(i as int, s.len() as int), folder));
        }
        assert(s.subrange(0, s.len() as int) =~= s);
        let n = if out.len() < ids.len() {
            out.len()
        } else {
            ids.len()
        };
        let mut k: usize = 0;
        while k < n
            invariant
                k <= n,
                n <= out@.len(),
                n <= ids@.len(),
                out@.len() == old(out)@.len(),
                forall|j: int| 0 <= j < k ==> #[trigger] out@[j] == ids@[j],
            decreases n - k,
        {
            out[k] = ids[k];
            k += 1;
        }
        Ok(ids.len())
    }

    fn services(&mut self, handle: i32, mtm_uid: u32, out: &mut [EntryId]) -> (r: Result<usize>)
        ensures
            r is Ok <==> old(self).pending() is None,
            r matches Err(e) ==> old(self).pending() == Some(e),
            final(self).pending() is None,
            final(self).log() == old(self).log().push(MsvCall::Services(mtm_uid)),
    {
        self.log_call(MsvCall::Services(mtm_uid));
        if let Err(e) = self.take_failure() {
            return Err(e);
        }
        let ghost s = self.store();
        let mut ids: Vec<EntryId> = Vec::new();
        let mut i: usize = 0;
        while i < self.entries.len()
            invariant
                s == self.store(),
                i <= s.len(),
                ids@ == services_of(s.subrange(0, i as int), mtm_uid),
            decreases s.len() - i,
        {
            assert(s.subrange(0, i + 1).drop_last() =~= s.subrange(0, i as int));
            assert(s[i as int].0 == self.entries@[i as int].0);
            if self.entries[i].0.type_uid == TYPE_SERVICE && self.entries[i].0.mtm_uid == mtm_uid {
                ids.push(self.entries[i].0.id);
            }
            i += 1;
        }
        assert(s.subrange(0, i as int) =~= s);
        let n = if out.len() < ids.len() {
            out.len()
        } else {
            ids.len()
        };
        let mut k: usize = 0;
        while k < n
            invariant
                k <= n,
                n <= out@.len(),
                n <= ids@.len(),
                out@.len() == old(out)@.len(),
                forall|j: int| 0 <= j < k ==> #[trigger] out@[j] == ids@[j],
            decreases n - k,
        {
            out[k] = ids[k];
            k += 1;
        }
        Ok(ids.len())
    }

    fn body(&mut self, handle: i32, id: EntryId, out: &mut [u16]) -> (r: Result<usize>)
        ensures
            r is Ok <==> old(self).pending() is None && has_id(old(self).store(), id),
            r matches Err(e) ==> e == (match old(self).pending() {
                Some(f) => f,
                None => Error::NotFound,
            }),
            final(self).pending() is None,
            final(self).log() == old(self).log().push(MsvCall::Body(id)),
    {
        self.log_call(MsvCall::Body(id));
        if let Err(e) = self.take_failure() {
            return Err(e);
        }
        let i = match self.locate(id) {
            Some(i) => i,
            None => return Err(Error::NotFound),
        };
        let ghost text = self.store()[i as int].1;
        assert(text == self.entries@[i as int].1@);
        let len = self.entries[i].1.len();
        let n = if out.len() < len {
            out.len()
        } else {
            len
        };
        let mut k: usize = 0;
        while k < n
            invariant
                k <= n,
                n <= out@.len(),
                n <= len,
                len == text.len(),
                i < self.entries@.len(),
                text == self.entries@[i as int].1@,
                out@.len() == old(out)@.len(),
                forall|j: int| 0 <= j < k ==> #[trigger] out@[j] == text[j],
            decreases n - k,
        {
            out[k] = self.entries[i].1[k];
            k += 1;
        }
        Ok(len)
    }

    fn set_flags(&mut self, handle: i32, id: EntryId, set: i32, clear: i32) -> (r: Result<()>)
        ensures
            r is Ok <==> old(self).pending() is None && has_id(old(self).store(), id),
            r matches Err(e) ==> e == (match old(self).pending() {
                Some(f) => f,
                None => Error::NotFound,
            }),
            final(self).pending() is None,
            final(self).log() == old(self).log().push(MsvCall::SetFlags(id, set, clear)),
    {
        self.log_call(MsvCall::SetFlags(id, set, clear));
        if let Err(e) = self.take_failure() {
            return Err(e);
        }
        let i = match self.locate(id) {
            Some(i) => i,
            None => return Err(Error::NotFound),
        };
        let ghost before = self.store();
        let raw = self.entries[i].0;
        // Clear, then set: `set` wins.
        let flags = (raw.flags & !clear) | set;
        self.replace_record(i, RawEntry { flags, ..raw });
        proof {
            self.lemma_distinct();
            assert forall|a: int| 0 <= a < before.len() && a != i implies (#[trigger] before[a]).0.id != id by {
                assert(before[a].0 == old(self).entries@[a].0);
            }
            assert(self.store() =~= reflag(before, id, set, clear));
        }
        Ok(())
    }

    fn move_entry(&mut self, handle: i32, id: EntryId, new_parent: EntryId) -> (r: Result<()>)
        ensures
            r is Ok <==> old(self).pending() is None && has_id(old(self).store(), id),
            r matches Err(e) ==> e == (match old(self).pending() {
                Some(f) => f,
                None => Error::NotFound,
            }),
            final(self).pending() is None,
            final(self).log() == old(self).log().push(MsvCall::MoveEntry(id, new_parent)),
    {
        self.log_call(MsvCall::MoveEntry(id, new_parent));
        if let Err(e) = self.take_failure() {
            return Err(e);
        }
        let i = match self.locate(id) {
            Some(i) => i,
            None => return Err(Error::NotFound),
        };
        let ghost before = self.store();
        let raw = self.entries[i].0;
        self.replace_record(i, RawEntry { parent: new_parent, ..raw });
        proof {
            assert forall|a: int| 0 <= a < before.len() && a != i implies (#[trigger] before[a]).0.id != id by {
                assert(before[a].0 == old(self).entries@[a].0);
                assert(before[i as int].0 == old(self).entries@[i as int].0);
                if a < i {
                    assert(old(self).entries@[a].0.id < old(self).entries@[i as int].0.id);
                } else {
                    assert(old(self).entries@[i as int].0.id < old(self).entries@[a].0.id);
                }
            }
            assert(self.store() =~= reparent(before, id, new_parent));
        }
        Ok(())
    }

    fn observe(&mut self, handle: i32, enable: bool) -> (r: Result<()>)
        ensures
            r is Ok <==> !old(self).refusing() && old(self).pending() is None,
            r matches Err(e) ==> e == (if old(self).refusing() {
                Error::Platform(ERR_NOT_SUPPORTED)
            } else {
                old(self).pending()->0
            }),
            final(self).log() == old(self).log().push(MsvCall::Observe(enable)),
            !old(self).refusing() ==> final(self).pending() is None,
            old(self).refusing() ==> final(self).pending() == old(self).pending(),
    {
        self.log_call(MsvCall::Observe(enable));
        if self.refuse_observe {
            return Err(Error::Platform(ERR_NOT_SUPPORTED));
        }
        if let Err(e) = self.take_failure() {
            return Err(e);
        }
        self.observing = enable;
        Ok(())
    }
}

} // verus!
