//! The Message Server's raw shape, one method per platform entry point, and the session
//! above it: the grow-and-retry loops for a folder listing and a body, the install that
//! tolerates a first run, and the decoding of an entry's record.
//!
//! [`Msv`] states what each entry point does to a model of the store: its entries with
//! their bodies, the MTM registrations, and whether notifications are on. [`Session`] is
//! verified against that model alone, so whatever it promises holds for every store that
//! keeps those contracts, the in-memory one of this crate among them.

use vstd::prelude::*;

use super::{
    Entry, EntryId, NewMessage, MSV_COMPLETE, MSV_FAILED, MSV_IN_PREPARATION, MSV_NEW, MSV_ROOT,
    MSV_UNREAD, MSV_VISIBLE, TYPE_MESSAGE, TYPE_SERVICE,
};
use crate::codec::{from_utf16_lossy, utf16_lossy};
use crate::error::{Error, Result};
use crate::fs::{encode_utf16, utf16, Utf16Path, MAX_PATH};

verus! {

/// Units of `iDetails` an entry record carries.
pub const DETAILS_UNITS: usize = 64;

/// Units of `iDescription` an entry record carries.
pub const DESCRIPTION_UNITS: usize = 64;

/// Units of an MTM's name a registry record carries.
pub const NAME_UNITS: usize = 64;

/// One entry as the platform fills it in: the text fields in fixed buffers, each with the
/// length the platform had, which may be longer than the buffer.
#[derive(Copy, Clone, Debug, PartialEq, Eq)]
pub struct RawEntry {
    pub id: EntryId,
    pub parent: EntryId,
    pub service_id: EntryId,
    pub mtm_uid: u32,
    pub type_uid: u32,
    pub unix_time: i64,
    pub size: i32,
    pub flags: i32,
    pub details: [u16; DETAILS_UNITS],
    pub details_len: i32,
    pub description: [u16; DESCRIPTION_UNITS],
    pub description_len: i32,
}

/// Every field zero and both texts empty.
pub open spec fn is_blank_entry(r: RawEntry) -> bool {
    &&& r.id == 0 && r.parent == 0 && r.service_id == 0
    &&& r.mtm_uid == 0 && r.type_uid == 0
    &&& r.unix_time == 0 && r.size == 0 && r.flags == 0
    &&& r.details@ == filled(Seq::empty(), DETAILS_UNITS as nat) && r.details_len == 0
    &&& r.description@ == filled(Seq::empty(), DESCRIPTION_UNITS as nat) && r.description_len
        == 0
}

impl Default for RawEntry {
    fn default() -> (r: Self)
        ensures
            is_blank_entry(r),
    {
        let r = RawEntry {
            id: 0,
            parent: 0,
            service_id: 0,
            mtm_uid: 0,
            type_uid: 0,
            unix_time: 0,
            size: 0,
            flags: 0,
            details: [0u16; DETAILS_UNITS],
            details_len: 0,
            description: [0u16; DESCRIPTION_UNITS],
            description_len: 0,
        };
        proof {
            broadcast use vstd::array::axiom_spec_array_fill_for_copy_type;

            assert(r.details@ =~= filled(Seq::empty(), DETAILS_UNITS as nat));
            assert(r.description@ =~= filled(Seq::empty(), DESCRIPTION_UNITS as nat));
        }
        r
    }
}

/// One MTM registry record: its type UID, technology UID and name.
#[derive(Copy, Clone, Debug, PartialEq, Eq)]
pub struct MtmInfo {
    pub type_uid: u32,
    pub technology_uid: u32,
    pub name: [u16; NAME_UNITS],
    pub name_len: i32,
}

impl Default for MtmInfo {
    fn default() -> (r: Self)
        ensures
            r.type_uid == 0 && r.technology_uid == 0 && r.name_len == 0,
            r.name@ == filled(Seq::empty(), NAME_UNITS as nat),
    {
        let r = MtmInfo { type_uid: 0, technology_uid: 0, name: [0u16; NAME_UNITS], name_len: 0 };
        proof {
            broadcast use vstd::array::axiom_spec_array_fill_for_copy_type;

            assert(r.name@ =~= filled(Seq::empty(), NAME_UNITS as nat));
        }
        r
    }
}

/// A fixed buffer of `cap` units holding what fits of `units`, the rest zero.
pub open spec fn filled(units: Seq<u16>, cap: nat) -> Seq<u16> {
    Seq::new(cap, |i: int| if i < units.len() { units[i] } else { 0u16 })
}

/// A length as a record reports it: whole, or the largest the field can hold.
pub open spec fn reported(n: nat) -> i32 {
    if n <= i32::MAX {
        n as i32
    } else {
        i32::MAX
    }
}

/// A text field and its length, written from `units` the way the platform writes them.
pub open spec fn holds_text(field: Seq<u16>, len: i32, units: Seq<u16>, cap: nat) -> bool {
    field == filled(units, cap) && len == reported(units.len())
}

/// How many of a field's reported `len` units a buffer of `cap` kept: none for a negative
/// length, never more than the buffer.
pub open spec fn kept(len: i32, cap: nat) -> nat {
    if len <= 0 {
        0
    } else if len as nat <= cap {
        len as nat
    } else {
        cap
    }
}

/// The platform's field was longer than the buffer, or its length is not a length.
pub open spec fn cut_short(len: i32, cap: nat) -> bool {
    len < 0 || len as nat > cap
}

fn kept_of(len: i32, cap: usize) -> (r: usize)
    ensures
        r == kept(len, cap as nat),
{
    if len <= 0 {
        0
    } else if (len as usize) <= cap {
        len as usize
    } else {
        cap
    }
}

/// A message record as the store writes one.
pub open spec fn message_record(
    r: RawEntry,
    id: EntryId,
    parent: EntryId,
    service_id: EntryId,
    mtm_uid: u32,
    unix_time: i64,
    flags: i32,
    details: Seq<u16>,
    description: Seq<u16>,
) -> bool {
    &&& r.id == id && r.parent == parent && r.service_id == service_id
    &&& r.mtm_uid == mtm_uid && r.type_uid == TYPE_MESSAGE
    &&& r.unix_time == unix_time && r.size == 0 && r.flags == flags
    &&& holds_text(r.details@, r.details_len, details, DETAILS_UNITS as nat)
    &&& holds_text(r.description@, r.description_len, description, DESCRIPTION_UNITS as nat)
}

/// A service record as the store writes one: under the root, complete and visible, the
/// name in `iDetails`.
pub open spec fn service_record(r: RawEntry, id: EntryId, mtm_uid: u32, name: Seq<u16>) -> bool {
    &&& r.id == id && r.parent == MSV_ROOT && r.service_id == 0
    &&& r.mtm_uid == mtm_uid && r.type_uid == TYPE_SERVICE
    &&& r.unix_time == 0 && r.size == 0 && r.flags == MSV_COMPLETE | MSV_VISIBLE
    &&& holds_text(r.details@, r.details_len, name, DETAILS_UNITS as nat)
    &&& holds_text(r.description@, r.description_len, Seq::empty(), DESCRIPTION_UNITS as nat)
}

/// What [`Entry::from_raw`] makes of a record.
pub open spec fn decodes(e: Entry, raw: RawEntry) -> bool {
    &&& e.id == raw.id && e.parent == raw.parent && e.service_id == raw.service_id
    &&& e.mtm_uid == raw.mtm_uid && e.type_uid == raw.type_uid
    &&& e.unix_time == raw.unix_time && e.size == raw.size && e.flags == raw.flags
    &&& e.details@ == utf16_lossy(
        raw.details@.subrange(0, kept(raw.details_len, DETAILS_UNITS as nat) as int),
    )
    &&& e.description@ == utf16_lossy(
        raw.description@.subrange(0, kept(raw.description_len, DESCRIPTION_UNITS as nat) as int),
    )
    &&& e.details_truncated == cut_short(raw.details_len, DETAILS_UNITS as nat)
    &&& e.description_truncated == cut_short(raw.description_len, DESCRIPTION_UNITS as nat)
}

impl Entry {
    /// Decode a record: what fitted of each text, and whether it all fitted.
    pub fn from_raw(raw: &RawEntry) -> (e: Entry)
        ensures
            decodes(e, *raw),
    {
        let dn = kept_of(raw.details_len, DETAILS_UNITS);
        let cn = kept_of(raw.description_len, DESCRIPTION_UNITS);
        Entry {
            id: raw.id,
            parent: raw.parent,
            service_id: raw.service_id,
            mtm_uid: raw.mtm_uid,
            type_uid: raw.type_uid,
            unix_time: raw.unix_time,
            size: raw.size,
            flags: raw.flags,
            details: from_utf16_lossy(vstd::slice::slice_subrange(raw.details.as_slice(), 0, dn)),
            description: from_utf16_lossy(
                vstd::slice::slice_subrange(raw.description.as_slice(), 0, cn),
            ),
            details_truncated: raw.details_len < 0 || raw.details_len as usize > DETAILS_UNITS,
            description_truncated: raw.description_len < 0 || raw.description_len as usize
                > DESCRIPTION_UNITS,
        }
    }
}

/// The registry record's name as UTF-16 units, honouring the length it was written with.
pub fn info_name(info: &MtmInfo) -> (r: &[u16])
    ensures
        r@ == info.name@.subrange(0, kept(info.name_len, NAME_UNITS as nat) as int),
{
    let n = kept_of(info.name_len, NAME_UNITS);
    vstd::slice::slice_subrange(info.name.as_slice(), 0, n)
}

/// Which Message Server notification arrived.
#[derive(Copy, Clone, Debug, PartialEq, Eq, Structural)]
pub enum StoreEventKind {
    Created,
    Changed,
    Deleted,
    Moved,
    MtmInstalled,
    MtmRemoved,
    ServerReady,
    ServerGone,
}

/// A Message Server notification, decoded. A hint, never data: by the time it is read the
/// entry may be gone, so the answer to one is to read the store again.
#[derive(Copy, Clone, Debug, PartialEq, Eq, Structural)]
pub struct StoreEvent {
    pub kind: StoreEventKind,
    /// 0 for the session and registry kinds, whose notification is not about an entry.
    pub id: EntryId,
    pub parent: EntryId,
    /// How many entries the platform's selection held; more than were delivered means the
    /// rest were dropped on purpose.
    pub batch: i32,
}

// ------------------------------------------------------------------ the model --

/// The store: every entry with its body, in the order they were made.
pub type Store = Seq<(RawEntry, Seq<u16>)>;

/// Some entry has this id.
pub open spec fn has_id(s: Store, id: EntryId) -> bool {
    exists|i: int| 0 <= i < s.len() && (#[trigger] s[i]).0.id == id
}

/// Where the entry with this id is.
pub open spec fn index_of(s: Store, id: EntryId) -> int {
    choose|i: int| 0 <= i < s.len() && (#[trigger] s[i]).0.id == id
}

/// No two entries share an id.
pub open spec fn distinct_ids(s: Store) -> bool {
    forall|i: int, j: int| 0 <= i < s.len() && 0 <= j < s.len() && i != j ==> (#[trigger] s[i]).0.id
        != (#[trigger] s[j]).0.id
}

/// A folder's children, newest first.
pub open spec fn newest_first(s: Store, folder: EntryId) -> Seq<EntryId>
    decreases s.len(),
{
    if s.len() == 0 {
        Seq::empty()
    } else {
        newest_first(s.drop_first(), folder) + if s[0].0.parent == folder {
            seq![s[0].0.id]
        } else {
            Seq::empty()
        }
    }
}

/// Is this the service record of an MTM type?
pub open spec fn is_service_of(r: RawEntry, mtm_uid: u32) -> bool {
    r.type_uid == TYPE_SERVICE && r.mtm_uid == mtm_uid
}

/// The services of one MTM type, oldest first.
pub open spec fn services_of(s: Store, mtm_uid: u32) -> Seq<EntryId>
    decreases s.len(),
{
    if s.len() == 0 {
        Seq::empty()
    } else if is_service_of(s.last().0, mtm_uid) {
        services_of(s.drop_last(), mtm_uid).push(s.last().0.id)
    } else {
        services_of(s.drop_last(), mtm_uid)
    }
}

/// The store without the services of one MTM type.
pub open spec fn without_services(s: Store, mtm_uid: u32) -> Store
    decreases s.len(),
{
    if s.len() == 0 {
        Seq::empty()
    } else if is_service_of(s.last().0, mtm_uid) {
        without_services(s.drop_last(), mtm_uid)
    } else {
        without_services(s.drop_last(), mtm_uid).push(s.last())
    }
}

/// How many entries a folder holds.
pub open spec fn in_folder(s: Store, folder: EntryId) -> nat
    decreases s.len(),
{
    if s.len() == 0 {
        0
    } else {
        in_folder(s.drop_last(), folder) + if s.last().0.parent == folder {
            1nat
        } else {
            0nat
        }
    }
}

/// How many entries of a folder are unread.
pub open spec fn unread_in(s: Store, folder: EntryId) -> nat
    decreases s.len(),
{
    if s.len() == 0 {
        0
    } else {
        unread_in(s.drop_last(), folder) + if s.last().0.parent == folder && s.last().0.flags
            & MSV_UNREAD != 0 {
            1nat
        } else {
            0nat
        }
    }
}

/// Flags after one round trip that sets `set` and clears `clear`: `set` wins.
pub open spec fn new_flags(flags: i32, set: i32, clear: i32) -> i32 {
    (flags & !clear) | set
}

/// The store with the entry's flags changed.
pub open spec fn reflag(s: Store, id: EntryId, set: i32, clear: i32) -> Store {
    Seq::new(
        s.len(),
        |i: int|
            if s[i].0.id == id {
                (RawEntry { flags: new_flags(s[i].0.flags, set, clear), ..s[i].0 }, s[i].1)
            } else {
                s[i]
            },
    )
}

/// The store with the entry moved under a new parent.
pub open spec fn reparent(s: Store, id: EntryId, parent: EntryId) -> Store {
    Seq::new(
        s.len(),
        |i: int|
            if s[i].0.id == id {
                (RawEntry { parent, ..s[i].0 }, s[i].1)
            } else {
                s[i]
            },
    )
}

/// `i` is where `p` first occurs in the registry.
pub open spec fn first_at(reg: Seq<Seq<u16>>, p: Seq<u16>, i: int) -> bool {
    0 <= i < reg.len() && reg[i] == p && forall|j: int| 0 <= j < i ==> reg[j] != p
}

/// `after` is the registry with the first registration of `p` removed.
pub open spec fn deinstalled(reg: Seq<Seq<u16>>, p: Seq<u16>, after: Seq<Seq<u16>>) -> bool {
    exists|i: int| first_at(reg, p, i) && after == reg.remove(i)
}

/// Every Message Server operation, one method per platform entry point, each stated over
/// a model of the store: [`Msv::store`], [`Msv::registry`] and [`Msv::observing`].
///
/// [`Msv::children`], [`Msv::services`] and [`Msv::body`] fill what fits and return the
/// **full** length, so "the buffer was too small" is a number rather than an error, and
/// the retry loop lives in [`Session`].
pub trait Msv: Sized {
    /// Every entry with its body, in the order they were made. An implementation states
    /// its own model; one that states none has nothing to show.
    closed spec fn store(&self) -> Store {
        Seq::empty()
    }

    /// The MTM registrations installed, in order.
    closed spec fn registry(&self) -> Seq<Seq<u16>> {
        Seq::empty()
    }

    /// Whether notifications are being delivered.
    closed spec fn observing(&self) -> bool {
        false
    }

    /// The implementation's own consistency.
    closed spec fn inv(&self) -> bool {
        true
    }

    fn open(&mut self) -> (r: Result<i32>)
        requires
            old(self).inv(),
        ensures
            final(self).inv(),
            final(self).store() == old(self).store(),
            final(self).registry() == old(self).registry(),
            final(self).observing() == old(self).observing(),
    ;

    fn close(&mut self, handle: i32)
        requires
            old(self).inv(),
        ensures
            final(self).inv(),
            final(self).store() == old(self).store(),
            final(self).registry() == old(self).registry(),
            final(self).observing() == old(self).observing(),
    ;

    fn mtm_count(&mut self, handle: i32) -> (r: Result<i32>)
        requires
            old(self).inv(),
        ensures
            final(self).inv(),
            final(self).store() == old(self).store(),
            final(self).registry() == old(self).registry(),
            final(self).observing() == old(self).observing(),
            r matches Ok(n) ==> n == old(self).registry().len(),
    ;

    fn refresh_registry(&mut self, handle: i32) -> (r: Result<()>)
        requires
            old(self).inv(),
        ensures
            final(self).inv(),
            final(self).store() == old(self).store(),
            final(self).registry() == old(self).registry(),
            final(self).observing() == old(self).observing(),
    ;

    fn can_instantiate(&mut self, handle: i32, mtm_uid: u32) -> (r: Result<()>)
        requires
            old(self).inv(),
        ensures
            final(self).inv(),
            final(self).store() == old(self).store(),
            final(self).registry() == old(self).registry(),
            final(self).observing() == old(self).observing(),
    ;

    fn mtm_info(&mut self, handle: i32, index: i32) -> (r: Result<MtmInfo>)
        requires
            old(self).inv(),
        ensures
            final(self).inv(),
            final(self).store() == old(self).store(),
            final(self).registry() == old(self).registry(),
            final(self).observing() == old(self).observing(),
    ;

    fn folder_count(&mut self, handle: i32, folder_id: EntryId) -> (r: Result<i32>)
        requires
            old(self).inv(),
        ensures
            final(self).inv(),
            final(self).store() == old(self).store(),
            final(self).registry() == old(self).registry(),
            final(self).observing() == old(self).observing(),
            r matches Ok(n) ==> n == in_folder(old(self).store(), folder_id),
    ;

    /// How many children of the folder are unread.
    fn unread_count(&mut self, handle: i32, folder_id: EntryId) -> (r: Result<i32>)
        requires
            old(self).inv(),
        ensures
            final(self).inv(),
            final(self).store() == old(self).store(),
            final(self).registry() == old(self).registry(),
            final(self).observing() == old(self).observing(),
            r matches Ok(n) ==> n == unread_in(old(self).store(), folder_id),
    ;

    /// Server-wide: installing a registration is not something a session owns.
    fn install_mtm(&mut self, path: &[u16]) -> (r: Result<()>)
        requires
            old(self).inv(),
        ensures
            final(self).inv(),
            final(self).store() == old(self).store(),
            final(self).observing() == old(self).observing(),
            r is Ok ==> final(self).registry() == old(self).registry().push(path@),
            r is Err ==> final(self).registry() == old(self).registry(),
    ;

    fn deinstall_mtm(&mut self, path: &[u16]) -> (r: Result<()>)
        requires
            old(self).inv(),
        ensures
            final(self).inv(),
            final(self).store() == old(self).store(),
            final(self).observing() == old(self).observing(),
            r is Ok ==> deinstalled(old(self).registry(), path@, final(self).registry()),
            r is Err ==> final(self).registry() == old(self).registry(),
    ;

    fn create_service(&mut self, handle: i32, mtm_uid: u32, name: &[u16]) -> (r: Result<
        EntryId,
    >)
        requires
            old(self).inv(),
        ensures
            final(self).inv(),
            final(self).registry() == old(self).registry(),
            final(self).observing() == old(self).observing(),
            r matches Ok(id) ==> {
                &&& !has_id(old(self).store(), id)
                &&& final(self).store().len() == old(self).store().len() + 1
                &&& final(self).store().drop_last() == old(self).store()
                &&& service_record(final(self).store().last().0, id, mtm_uid, name@)
                &&& final(self).store().last().1 == Seq::<u16>::empty()
            },
            r is Err ==> final(self).store() == old(self).store(),
    ;

    /// Write a message. The store makes it complete and visible whatever the caller asked,
    /// because the body is committed before the entry is published.
    fn create_message(&mut self, handle: i32, msg: &NewMessage) -> (r: Result<EntryId>)
        requires
            old(self).inv(),
        ensures
            final(self).inv(),
            final(self).registry() == old(self).registry(),
            final(self).observing() == old(self).observing(),
            r matches Ok(id) ==> {
                &&& !has_id(old(self).store(), id)
                &&& final(self).store().len() == old(self).store().len() + 1
                &&& final(self).store().drop_last() == old(self).store()
                &&& message_record(
                    final(self).store().last().0,
                    id,
                    msg.parent_id,
                    msg.service_id,
                    msg.mtm_uid,
                    msg.unix_time,
                    msg.flags | MSV_COMPLETE | MSV_VISIBLE,
                    msg.sender(),
                    msg.title(),
                )
                &&& final(self).store().last().1 == msg.text()
            },
            r is Err ==> final(self).store() == old(self).store(),
    ;

    fn delete_entry(&mut self, handle: i32, id: EntryId) -> (r: Result<()>)
        requires
            old(self).inv(),
        ensures
            final(self).inv(),
            final(self).registry() == old(self).registry(),
            final(self).observing() == old(self).observing(),
            r is Ok ==> has_id(old(self).store(), id) && final(self).store() == old(
                self,
            ).store().remove(index_of(old(self).store(), id)),
            r is Err ==> final(self).store() == old(self).store(),
    ;

    /// Delete every service of a type, and say how many went.
    fn delete_services(&mut self, handle: i32, mtm_uid: u32) -> (r: Result<i32>)
        requires
            old(self).inv(),
        ensures
            final(self).inv(),
            final(self).registry() == old(self).registry(),
            final(self).observing() == old(self).observing(),
            r matches Ok(n) ==> final(self).store() == without_services(old(self).store(), mtm_uid)
                && n == old(self).store().len() - final(self).store().len(),
            r is Err ==> final(self).store() == old(self).store(),
    ;

    fn entry(&mut self, handle: i32, id: EntryId) -> (r: Result<RawEntry>)
        requires
            old(self).inv(),
        ensures
            final(self).inv(),
            final(self).store() == old(self).store(),
            final(self).registry() == old(self).registry(),
            final(self).observing() == old(self).observing(),
            r matches Ok(raw) ==> has_id(old(self).store(), id) && raw == old(self).store()[index_of(
                old(self).store(),
                id,
            )].0,
    ;

    /// Fills `out` with as many ids as fit; returns the **full** child count.
    fn children(&mut self, handle: i32, folder: EntryId, out: &mut [EntryId]) -> (r: Result<
        usize,
    >)
        requires
            old(self).inv(),
        ensures
            final(self).inv(),
            final(self).store() == old(self).store(),
            final(self).registry() == old(self).registry(),
            final(self).observing() == old(self).observing(),
            final(out)@.len() == old(out)@.len(),
            r matches Ok(n) ==> {
                let want = newest_first(old(self).store(), folder);
                &&& n == want.len()
                &&& forall|k: int|
                    0 <= k < n && k < old(out)@.len() ==> #[trigger] final(out)@[k] == want[k]
            },
    ;

    /// Fills `out`; returns the **full** service count.
    fn services(&mut self, handle: i32, mtm_uid: u32, out: &mut [EntryId]) -> (r: Result<usize>)
        requires
            old(self).inv(),
        ensures
            final(self).inv(),
            final(self).store() == old(self).store(),
            final(self).registry() == old(self).registry(),
            final(self).observing() == old(self).observing(),
            final(out)@.len() == old(out)@.len(),
            r matches Ok(n) ==> {
                let want = services_of(old(self).store(), mtm_uid);
                &&& n == want.len()
                &&& forall|k: int|
                    0 <= k < n && k < old(out)@.len() ==> #[trigger] final(out)@[k] == want[k]
            },
    ;

    /// Fills `out`; returns the **full** character count. No body text is `Ok(0)`.
    fn body(&mut self, handle: i32, id: EntryId, out: &mut [u16]) -> (r: Result<usize>)
        requires
            old(self).inv(),
        ensures
            final(self).inv(),
            final(self).store() == old(self).store(),
            final(self).registry() == old(self).registry(),
            final(self).observing() == old(self).observing(),
            final(out)@.len() == old(out)@.len(),
            r matches Ok(n) ==> {
                let text = old(self).store()[index_of(old(self).store(), id)].1;
                &&& has_id(old(self).store(), id)
                &&& n == text.len()
                &&& forall|k: int|
                    0 <= k < n && k < old(out)@.len() ==> #[trigger] final(out)@[k] == text[k]
            },
    ;

    /// Set and clear flags in one round trip; `set` wins where the two collide.
    fn set_flags(&mut self, handle: i32, id: EntryId, set: i32, clear: i32) -> (r: Result<()>)
        requires
            old(self).inv(),
        ensures
            final(self).inv(),
            final(self).registry() == old(self).registry(),
            final(self).observing() == old(self).observing(),
            r is Ok ==> has_id(old(self).store(), id) && final(self).store() == reflag(
                old(self).store(),
                id,
                set,
                clear,
            ),
            r is Err ==> final(self).store() == old(self).store(),
    ;

    fn move_entry(&mut self, handle: i32, id: EntryId, new_parent: EntryId) -> (r: Result<()>)
        requires
            old(self).inv(),
        ensures
            final(self).inv(),
            final(self).registry() == old(self).registry(),
            final(self).observing() == old(self).observing(),
            r is Ok ==> has_id(old(self).store(), id) && final(self).store() == reparent(
                old(self).store(),
                id,
                new_parent,
            ),
            r is Err ==> final(self).store() == old(self).store(),
    ;

    fn observe(&mut self, handle: i32, enable: bool) -> (r: Result<()>)
        requires
            old(self).inv(),
        ensures
            final(self).inv(),
            final(self).store() == old(self).store(),
            final(self).registry() == old(self).registry(),
            r is Ok ==> final(self).observing() == enable,
            r is Err ==> final(self).observing() == old(self).observing(),
    ;
}

/// Marking an entry read clears new and unread and leaves every other flag as it was:
/// clearing visible by accident would make the message vanish from its folder.
pub proof fn lemma_read_clears_only_new_and_unread(f: i32)
    ensures
        new_flags(f, 0, MSV_NEW | MSV_UNREAD) & MSV_NEW == 0,
        new_flags(f, 0, MSV_NEW | MSV_UNREAD) & MSV_UNREAD == 0,
        new_flags(f, 0, MSV_NEW | MSV_UNREAD) & MSV_COMPLETE == f & MSV_COMPLETE,
        new_flags(f, 0, MSV_NEW | MSV_UNREAD) & MSV_VISIBLE == f & MSV_VISIBLE,
        new_flags(f, 0, MSV_NEW | MSV_UNREAD) & MSV_IN_PREPARATION == f & MSV_IN_PREPARATION,
        new_flags(f, 0, MSV_NEW | MSV_UNREAD) & MSV_FAILED == f & MSV_FAILED,
{
    assert((((f & !(1i32 | 2i32)) | 0i32) & 1i32) == 0i32) by (bit_vector);
    assert((((f & !(1i32 | 2i32)) | 0i32) & 2i32) == 0i32) by (bit_vector);
    assert((((f & !(1i32 | 2i32)) | 0i32) & 4i32) == f & 4i32) by (bit_vector);
    assert((((f & !(1i32 | 2i32)) | 0i32) & 8i32) == f & 8i32) by (bit_vector);
    assert((((f & !(1i32 | 2i32)) | 0i32) & 16i32) == f & 16i32) by (bit_vector);
    assert((((f & !(1i32 | 2i32)) | 0i32) & 32i32) == f & 32i32) by (bit_vector);
}

/// Where one round trip both sets and clears a flag, the flag ends up set.
pub proof fn lemma_set_wins(f: i32, set: i32, clear: i32)
    ensures
        new_flags(f, set, clear) & set == set,
{
    assert((((f & !clear) | set) & set) == set) by (bit_vector);
}

/// Once an entry has moved to another folder, the folder it left no longer lists it.
pub proof fn lemma_moved_out(s: Store, id: EntryId, from: EntryId, to: EntryId)
    requires
        from != to,
    ensures
        !newest_first(reparent(s, id, to), from).contains(id),
    decreases s.len(),
{
    let t = reparent(s, id, to);
    if s.len() > 0 {
        lemma_moved_out(s.drop_first(), id, from, to);
        assert(reparent(s.drop_first(), id, to) =~= t.drop_first());
        let tail = newest_first(t.drop_first(), from);
        let head = if t[0].0.parent == from {
            seq![t[0].0.id]
        } else {
            Seq::<EntryId>::empty()
        };
        assert(newest_first(t, from) == tail + head);
        assert forall|k: int| 0 <= k < (tail + head).len() implies (tail + head)[k] != id by {
            if k < tail.len() {
                assert((tail + head)[k] == tail[k]);
            } else {
                assert((tail + head)[k] == head[k - tail.len()]);
            }
        }
    }
}

/// Two stores in the same state.
pub open spec fn same_state<M: Msv>(a: M, b: M) -> bool {
    &&& a.store() == b.store()
    &&& a.registry() == b.registry()
    &&& a.observing() == b.observing()
}

// -------------------------------------------------------------------- session --

/// An open Message Server session over a store.
pub struct Session<M: Msv> {
    msv: M,
    handle: i32,
}

impl<M: Msv> Session<M> {
    /// The store the session talks to.
    pub closed spec fn inner(&self) -> M {
        self.msv
    }

    /// The store is consistent.
    pub closed spec fn wf(&self) -> bool {
        self.msv.inv()
    }

    /// Open over a given store.
    pub fn with(msv: M) -> (r: Result<Self>)
        requires
            msv.inv(),
        ensures
            r matches Ok(s) ==> s.wf() && same_state(s.inner(), msv),
    {
        let mut msv = msv;
        match msv.open() {
            Ok(handle) => Ok(Session { msv, handle }),
            Err(e) => Err(e),
        }
    }

    /// How many MTMs are registered.
    pub fn mtm_count(&mut self) -> (r: Result<i32>)
        requires
            old(self).wf(),
        ensures
            final(self).wf(),
            same_state(final(self).inner(), old(self).inner()),
            r matches Ok(n) ==> n == old(self).inner().registry().len(),
    {
        self.msv.mtm_count(self.handle)
    }

    /// Throw away the client-side registry snapshot and build a fresh one: a count taken
    /// after an install measures the state from before it until this is called.
    pub fn refresh_registry(&mut self) -> (r: Result<()>)
        requires
            old(self).wf(),
        ensures
            final(self).wf(),
            same_state(final(self).inner(), old(self).inner()),
    {
        self.msv.refresh_registry(self.handle)
    }

    /// Ask the framework to instantiate a client MTM of this type: the definitive test that
    /// a registration worked.
    pub fn can_instantiate(&mut self, mtm_uid: u32) -> (r: Result<()>)
        requires
            old(self).wf(),
        ensures
            final(self).wf(),
            same_state(final(self).inner(), old(self).inner()),
    {
        self.msv.can_instantiate(self.handle, mtm_uid)
    }

    /// One registry record.
    pub fn mtm_info(&mut self, index: i32) -> (r: Result<MtmInfo>)
        requires
            old(self).wf(),
        ensures
            final(self).wf(),
            same_state(final(self).inner(), old(self).inner()),
    {
        self.msv.mtm_info(self.handle, index)
    }

    /// How many entries a folder holds.
    pub fn folder_count(&mut self, folder_id: EntryId) -> (r: Result<i32>)
        requires
            old(self).wf(),
        ensures
            final(self).wf(),
            same_state(final(self).inner(), old(self).inner()),
            r matches Ok(n) ==> n == in_folder(old(self).inner().store(), folder_id),
    {
        self.msv.folder_count(self.handle, folder_id)
    }

    /// How many entries in a folder are unread: one server-side count.
    pub fn unread_count(&mut self, folder_id: EntryId) -> (r: Result<i32>)
        requires
            old(self).wf(),
        ensures
            final(self).wf(),
            same_state(final(self).inner(), old(self).inner()),
            r matches Ok(n) ==> n == unread_in(old(self).inner().store(), folder_id),
    {
        self.msv.unread_count(self.handle, folder_id)
    }

    /// Tell the server about a registration file. De-installs first, because installing
    /// over an existing group fails; a `NotFound` from that half is the ordinary first-run
    /// answer and is swallowed.
    pub fn install_mtm(&mut self, path: &str) -> (r: Result<()>)
        requires
            old(self).wf(),
        ensures
            final(self).wf(),
            final(self).inner().store() == old(self).inner().store(),
            final(self).inner().observing() == old(self).inner().observing(),
            utf16(path@).len() > MAX_PATH ==> r == Err::<(), Error>(Error::Overflow)
                && final(self).inner().registry() == old(self).inner().registry(),
            r is Ok ==> {
                let reg = final(self).inner().registry();
                &&& reg.len() > 0
                &&& reg.last() == utf16(path@)
                &&& (reg.drop_last() == old(self).inner().registry() || deinstalled(
                    old(self).inner().registry(),
                    utf16(path@),
                    reg.drop_last(),
                ))
            },
            r is Err ==> (final(self).inner().registry() == old(self).inner().registry()
                || deinstalled(
                old(self).inner().registry(),
                utf16(path@),
                final(self).inner().registry(),
            )),
    {
        let p = match Utf16Path::new(path) {
            Ok(p) => p,
            Err(e) => return Err(e),
        };
        match self.msv.deinstall_mtm(p.as_units()) {
            Ok(()) => {},
            Err(Error::NotFound) => {},
            Err(e) => return Err(e),
        }
        let ghost mid = self.msv.registry();
        let r = self.msv.install_mtm(p.as_units());
        proof {
            if r is Ok {
                assert(self.msv.registry().drop_last() =~= mid);
            }
        }
        r
    }

    /// Remove a registration. `NotFound` is not an error here.
    pub fn deinstall_mtm(&mut self, path: &str) -> (r: Result<()>)
        requires
            old(self).wf(),
        ensures
            final(self).wf(),
            final(self).inner().store() == old(self).inner().store(),
            final(self).inner().observing() == old(self).inner().observing(),
            utf16(path@).len() > MAX_PATH ==> r == Err::<(), Error>(Error::Overflow),
            final(self).inner().registry() == old(self).inner().registry() || deinstalled(
                old(self).inner().registry(),
                utf16(path@),
                final(self).inner().registry(),
            ),
            r is Err ==> final(self).inner().registry() == old(self).inner().registry(),
    {
        let p = match Utf16Path::new(path) {
            Ok(p) => p,
            Err(e) => return Err(e),
        };
        match self.msv.deinstall_mtm(p.as_units()) {
            Ok(()) => Ok(()),
            Err(Error::NotFound) => Ok(()),
            Err(e) => Err(e),
        }
    }

    /// Create the service entry: the account the native Messaging application lists.
    pub fn create_service(&mut self, mtm_uid: u32, name: &str) -> (r: Result<EntryId>)
        requires
            old(self).wf(),
        ensures
            final(self).wf(),
            final(self).inner().registry() == old(self).inner().registry(),
            final(self).inner().observing() == old(self).inner().observing(),
            r matches Ok(id) ==> {
                let s = final(self).inner().store();
                &&& !has_id(old(self).inner().store(), id)
                &&& s.len() == old(self).inner().store().len() + 1
                &&& s.drop_last() == old(self).inner().store()
                &&& service_record(s.last().0, id, mtm_uid, utf16(name@))
                &&& s.last().1 == Seq::<u16>::empty()
            },
            r is Err ==> final(self).inner().store() == old(self).inner().store(),
    {
        let units = encode_utf16(name);
        self.msv.create_service(self.handle, mtm_uid, units.as_slice())
    }

    /// Write a message into a folder, complete and visible.
    pub fn create_message(&mut self, msg: &NewMessage) -> (r: Result<EntryId>)
        requires
            old(self).wf(),
        ensures
            final(self).wf(),
            final(self).inner().registry() == old(self).inner().registry(),
            final(self).inner().observing() == old(self).inner().observing(),
            r matches Ok(id) ==> {
                let s = final(self).inner().store();
                &&& !has_id(old(self).inner().store(), id)
                &&& s.len() == old(self).inner().store().len() + 1
                &&& s.drop_last() == old(self).inner().store()
                &&& message_record(
                    s.last().0,
                    id,
                    msg.parent_id,
                    msg.service_id,
                    msg.mtm_uid,
                    msg.unix_time,
                    msg.flags | MSV_COMPLETE | MSV_VISIBLE,
                    msg.sender(),
                    msg.title(),
                )
                &&& s.last().1 == msg.text()
            },
            r is Err ==> final(self).inner().store() == old(self).inner().store(),
    {
        self.msv.create_message(self.handle, msg)
    }

    /// Delete every service of a type, and everything under it. Returns how many went.
    pub fn delete_services(&mut self, mtm_uid: u32) -> (r: Result<i32>)
        requires
            old(self).wf(),
        ensures
            final(self).wf(),
            final(self).inner().registry() == old(self).inner().registry(),
            final(self).inner().observing() == old(self).inner().observing(),
            r matches Ok(n) ==> final(self).inner().store() == without_services(
                old(self).inner().store(),
                mtm_uid,
            ) && n == old(self).inner().store().len() - final(self).inner().store().len(),
            r is Err ==> final(self).inner().store() == old(self).inner().store(),
    {
        self.msv.delete_services(self.handle, mtm_uid)
    }

    pub fn delete_entry(&mut self, id: EntryId) -> (r: Result<()>)
        requires
            old(self).wf(),
        ensures
            final(self).wf(),
            final(self).inner().registry() == old(self).inner().registry(),
            final(self).inner().observing() == old(self).inner().observing(),
            r is Ok ==> has_id(old(self).inner().store(), id) && final(self).inner().store()
                == old(self).inner().store().remove(index_of(old(self).inner().store(), id)),
            r is Err ==> final(self).inner().store() == old(self).inner().store(),
    {
        self.msv.delete_entry(self.handle, id)
    }

    /// One entry's fields, decoded.
    pub fn entry(&mut self, id: EntryId) -> (r: Result<Entry>)
        requires
            old(self).wf(),
        ensures
            final(self).wf(),
            same_state(final(self).inner(), old(self).inner()),
            r matches Ok(e) ==> has_id(old(self).inner().store(), id) && decodes(
                e,
                old(self).inner().store()[index_of(old(self).inner().store(), id)].0,
            ),
    {
        match self.msv.entry(self.handle, id) {
            Ok(raw) => Ok(Entry::from_raw(&raw)),
            Err(e) => Err(e),
        }
    }

    /// A folder's children, newest first: every one of them, however many. Grows and asks
    /// again when the first answer reports more than fitted, rather than returning a short
    /// answer that looks complete.
    pub fn children(&mut self, folder: EntryId) -> (r: Result<Vec<EntryId>>)
        requires
            old(self).wf(),
        ensures
            final(self).wf(),
            same_state(final(self).inner(), old(self).inner()),
            r matches Ok(v) ==> v@ == newest_first(old(self).inner().store(), folder),
    {
        let ghost want = newest_first(self.msv.store(), folder);
        let mut buf: Vec<EntryId> = vec![0i32; 32];
        loop
            invariant
                self.msv.inv(),
                same_state(self.msv, old(self).msv),
                want == newest_first(self.msv.store(), folder),
            decreases (if buf@.len() >= want.len() {
                0int
            } else {
                1int
            }),
        {
            let total = match self.msv.children(self.handle, folder, buf.as_mut_slice()) {
                Ok(n) => n,
                Err(e) => return Err(e),
            };
            if total <= buf.len() {
                buf.truncate(total);
                assert(buf@ =~= want);
                return Ok(buf);
            }
            buf.resize(total, 0);
        }
    }

    /// The service entries of one MTM type: how a service finds the account it made on an
    /// earlier run instead of making a second one.
    pub fn services(&mut self, mtm_uid: u32) -> (r: Result<Vec<EntryId>>)
        requires
            old(self).wf(),
        ensures
            final(self).wf(),
            same_state(final(self).inner(), old(self).inner()),
            r matches Ok(v) ==> v@ == services_of(old(self).inner().store(), mtm_uid),
    {
        let ghost want = services_of(self.msv.store(), mtm_uid);
        let mut buf: Vec<EntryId> = vec![0i32; 8];
        loop
            invariant
                self.msv.inv(),
                same_state(self.msv, old(self).msv),
                want == services_of(self.msv.store(), mtm_uid),
            decreases (if buf@.len() >= want.len() {
                0int
            } else {
                1int
            }),
        {
            let total = match self.msv.services(self.handle, mtm_uid, buf.as_mut_slice()) {
                Ok(n) => n,
                Err(e) => return Err(e),
            };
            if total <= buf.len() {
                buf.truncate(total);
                assert(buf@ =~= want);
                return Ok(buf);
            }
            buf.resize(total, 0);
        }
    }

    /// The whole body text, however long. An entry with no body is an empty string.
    pub fn body(&mut self, id: EntryId) -> (r: Result<String>)
        requires
            old(self).wf(),
        ensures
            final(self).wf(),
            same_state(final(self).inner(), old(self).inner()),
            r matches Ok(t) ==> has_id(old(self).inner().store(), id) && t@ == utf16_lossy(
                old(self).inner().store()[index_of(old(self).inner().store(), id)].1,
            ),
    {
        let ghost s = self.msv.store();
        let ghost want = s[index_of(s, id)].1;
        let mut buf: Vec<u16> = vec![0u16; 256];
        loop
            invariant
                self.msv.inv(),
                same_state(self.msv, old(self).msv),
                s == self.msv.store(),
                want == s[index_of(s, id)].1,
            decreases (if buf@.len() >= want.len() {
                0int
            } else {
                1int
            }),
        {
            let total = match self.msv.body(self.handle, id, buf.as_mut_slice()) {
                Ok(n) => n,
                Err(e) => return Err(e),
            };
            if total <= buf.len() {
                buf.truncate(total);
                assert(buf@ =~= want);
                return Ok(from_utf16_lossy(buf.as_slice()));
            }
            buf.resize(total, 0);
        }
    }

    /// Set and clear flags in one round trip; `set` wins where the two collide.
    pub fn set_flags(&mut self, id: EntryId, set: i32, clear: i32) -> (r: Result<()>)
        requires
            old(self).wf(),
        ensures
            final(self).wf(),
            final(self).inner().registry() == old(self).inner().registry(),
            final(self).inner().observing() == old(self).inner().observing(),
            r is Ok ==> has_id(old(self).inner().store(), id) && final(self).inner().store()
                == reflag(old(self).inner().store(), id, set, clear),
            r is Err ==> final(self).inner().store() == old(self).inner().store(),
    {
        self.msv.set_flags(self.handle, id, set, clear)
    }

    /// Clear new and unread, and nothing else: what the platform's own applications do when
    /// the user has looked at something.
    pub fn mark_read(&mut self, id: EntryId) -> (r: Result<()>)
        requires
            old(self).wf(),
        ensures
            final(self).wf(),
            final(self).inner().registry() == old(self).inner().registry(),
            final(self).inner().observing() == old(self).inner().observing(),
            r is Ok ==> has_id(old(self).inner().store(), id) && final(self).inner().store()
                == reflag(old(self).inner().store(), id, 0, MSV_NEW | MSV_UNREAD),
            r is Err ==> final(self).inner().store() == old(self).inner().store(),
    {
        self.set_flags(id, 0, MSV_NEW | MSV_UNREAD)
    }

    /// Reparent an entry: durable state, which a restarted service still sees.
    pub fn move_entry(&mut self, id: EntryId, to: EntryId) -> (r: Result<()>)
        requires
            old(self).wf(),
        ensures
            final(self).wf(),
            final(self).inner().registry() == old(self).inner().registry(),
            final(self).inner().observing() == old(self).inner().observing(),
            r is Ok ==> has_id(old(self).inner().store(), id) && final(self).inner().store()
                == reparent(old(self).inner().store(), id, to),
            r is Err ==> final(self).inner().store() == old(self).inner().store(),
    {
        self.msv.move_entry(self.handle, id, to)
    }

    /// Start delivering store notifications. Opt-in: nothing turns delivery on as a side
    /// effect of opening.
    pub fn observe(&mut self) -> (r: Result<()>)
        requires
            old(self).wf(),
        ensures
            final(self).wf(),
            final(self).inner().store() == old(self).inner().store(),
            final(self).inner().registry() == old(self).inner().registry(),
            r is Ok ==> final(self).inner().observing(),
            r is Err ==> final(self).inner().observing() == old(self).inner().observing(),
    {
        self.msv.observe(self.handle, true)
    }

    pub fn stop_observing(&mut self) -> (r: Result<()>)
        requires
            old(self).wf(),
        ensures
            final(self).wf(),
            final(self).inner().store() == old(self).inner().store(),
            final(self).inner().registry() == old(self).inner().registry(),
            r is Ok ==> !final(self).inner().observing(),
            r is Err ==> final(self).inner().observing() == old(self).inner().observing(),
    {
        self.msv.observe(self.handle, false)
    }

    /// The store underneath, for a test to read what was asked of it, and in what order.
    pub fn msv(&self) -> (r: &M)
        ensures
            *r == self.inner(),
    {
        &self.msv
    }

    /// Close the session and hand the store back.
    pub fn close(self) -> (m: M)
        requires
            self.wf(),
        ensures
            m.inv(),
            same_state(m, self.inner()),
    {
        let mut msv = self.msv;
        msv.close(self.handle);
        msv
    }
}

} // verus!
