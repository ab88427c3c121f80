//! The Message Server: the identifiers its store is keyed by, an entry's decoded flags,
//! and a new message as it is handed over to be written into a folder.
//!
//! Talking to the server is the platform's; what its numbers mean is here.

pub mod mem;
pub mod store;

pub use mem::{MemMsv, MsvCall, FIRST_ID};

pub use store::{
    info_name, Msv, MtmInfo, RawEntry, Session, StoreEvent, StoreEventKind, DESCRIPTION_UNITS,
    DETAILS_UNITS, NAME_UNITS,
};

use vstd::prelude::*;

use crate::fs::{encode_utf16, utf16};

verus! {

/// A `TMsvId`: the store's own identifier for an entry, folder or service.
pub type EntryId = i32;

/// `KMsvRootIndexEntryId`.
pub const MSV_ROOT: EntryId = 0x1000;

/// `KMsvGlobalInBoxIndexEntryId`.
pub const MSV_INBOX: EntryId = 0x1002;

/// `KMsvGlobalOutBoxIndexEntryId`.
pub const MSV_OUTBOX: EntryId = 0x1003;

/// `KMsvDraftEntryId`.
pub const MSV_DRAFTS: EntryId = 0x1004;

/// `KMsvSentEntryId`.
pub const MSV_SENT: EntryId = 0x1005;

/// The standard folders' ids, in the order [`FOLDER_NAMES`] names them.
pub const FOLDER_IDS: [EntryId; 5] = [MSV_ROOT, MSV_INBOX, MSV_OUTBOX, MSV_DRAFTS, MSV_SENT];

/// The names to print the standard folders under.
pub const FOLDER_NAMES: [&'static str; 5] = ["root", "inbox", "outbox", "drafts", "sent"];

/// The standard folders, each with the name to print it under.
pub fn folders() -> (r: Vec<(EntryId, &'static str)>)
    ensures
        r@.len() == 5,
        forall|i: int| 0 <= i < 5 ==> (#[trigger] r@[i]).0 == FOLDER_IDS[i] && r@[i].1 == FOLDER_NAMES[i],
{
    let mut r: Vec<(EntryId, &'static str)> = Vec::new();
    let mut i: usize = 0;
    while i < 5
        invariant
            i <= 5,
            r@.len() == i,
            forall|k: int| 0 <= k < i ==> (#[trigger] r@[k]).0 == FOLDER_IDS[k] && r@[k].1 == FOLDER_NAMES[k],
        decreases 5 - i,
    {
        r.push((FOLDER_IDS[i], FOLDER_NAMES[i]));
        i = i + 1;
    }
    r
}

/// Entry type UID of a message (`KUidMsvMessageEntry`).
pub const TYPE_MESSAGE: u32 = 0x1000_0F6A;

/// Entry type UID of a service (`KUidMsvServiceEntry`).
pub const TYPE_SERVICE: u32 = 0x1000_0F68;

/// Entry type UID of a folder (`KUidMsvFolderEntry`).
pub const TYPE_FOLDER: u32 = 0x1000_0F69;

/// Entry flag: new.
pub const MSV_NEW: i32 = 0x01;

/// Entry flag: unread.
pub const MSV_UNREAD: i32 = 0x02;

/// Entry flag: complete.
pub const MSV_COMPLETE: i32 = 0x04;

/// Entry flag: visible.
pub const MSV_VISIBLE: i32 = 0x08;

/// Entry flag: still being written.
pub const MSV_IN_PREPARATION: i32 = 0x10;

/// Entry flag: sending failed.
pub const MSV_FAILED: i32 = 0x20;

/// The names of the MTM type UIDs read off a handset; anything else stays a raw UID.
pub open spec fn mtm_label(uid: u32) -> Option<&'static str> {
    if uid == 0x1000102C {
        Some("SMS")
    } else if uid == 0x100058E1 {
        Some("MMS")
    } else if uid == 0x100059C8 {
        Some("MMS (2)")
    } else if uid == 0x10001028 {
        Some("IMAP4")
    } else if uid == 0x10001029 {
        Some("POP3")
    } else if uid == 0x1000102A {
        Some("SMTP")
    } else if uid == 0x10009ED5 {
        Some("OBEX/Bluetooth")
    } else if uid == 0x10005535 {
        Some("BIO")
    } else if uid == 0x10009158 {
        Some("service message")
    } else if uid == 0x102072D6 {
        Some("Message")
    } else if uid == 0x101F7C5C {
        Some("sync mailbox")
    } else {
        None
    }
}

/// The UIDs that have a name: the ones read off a handset.
pub open spec fn known_mtm(uid: u32) -> bool {
    uid == 0x1000102C || uid == 0x100058E1 || uid == 0x100059C8 || uid == 0x10001028 || uid
        == 0x10001029 || uid == 0x1000102A || uid == 0x10009ED5 || uid == 0x10005535 || uid
        == 0x10009158 || uid == 0x102072D6 || uid == 0x101F7C5C
}

/// The names of the MTM table, each against the UID it was read for; every other UID stays
/// unnamed, and no two UIDs share a name, so a name in a report points back at one UID.
pub proof fn lemma_mtm_table(a: u32, b: u32)
    ensures
        mtm_label(0x1000102C) == Some("SMS"),
        mtm_label(0x100058E1) == Some("MMS"),
        mtm_label(0x100059C8) == Some("MMS (2)"),
        mtm_label(0x10001028) == Some("IMAP4"),
        mtm_label(0x10001029) == Some("POP3"),
        mtm_label(0x1000102A) == Some("SMTP"),
        mtm_label(0x10009ED5) == Some("OBEX/Bluetooth"),
        mtm_label(0x10005535) == Some("BIO"),
        mtm_label(0x10009158) == Some("service message"),
        mtm_label(0x102072D6) == Some("Message"),
        mtm_label(0x101F7C5C) == Some("sync mailbox"),
        mtm_label(a) is Some <==> known_mtm(a),
        a != b && mtm_label(a) is Some && mtm_label(b) is Some ==> mtm_label(a)->0@
            != mtm_label(b)->0@,
{
    reveal_strlit("SMS");
    assert("SMS"@.len() == 3 && "SMS"@[0] == 'S' && "SMS"@[1] == 'M');
    reveal_strlit("MMS");
    assert("MMS"@.len() == 3 && "MMS"@[0] == 'M' && "MMS"@[1] == 'M');
    reveal_strlit("MMS (2)");
    assert("MMS (2)"@.len() == 7 && "MMS (2)"@[0] == 'M' && "MMS (2)"@[1] == 'M');
    reveal_strlit("IMAP4");
    assert("IMAP4"@.len() == 5 && "IMAP4"@[0] == 'I' && "IMAP4"@[1] == 'M');
    reveal_strlit("POP3");
    assert("POP3"@.len() == 4 && "POP3"@[0] == 'P' && "POP3"@[1] == 'O');
    reveal_strlit("SMTP");
    assert("SMTP"@.len() == 4 && "SMTP"@[0] == 'S' && "SMTP"@[1] == 'M');
    reveal_strlit("OBEX/Bluetooth");
    assert("OBEX/Bluetooth"@.len() == 14 && "OBEX/Bluetooth"@[0] == 'O'
        && "OBEX/Bluetooth"@[1] == 'B');
    reveal_strlit("BIO");
    assert("BIO"@.len() == 3 && "BIO"@[0] == 'B' && "BIO"@[1] == 'I');
    reveal_strlit("service message");
    assert("service message"@.len() == 15 && "service message"@[0] == 's'
        && "service message"@[1] == 'e');
    reveal_strlit("Message");
    assert("Message"@.len() == 7 && "Message"@[0] == 'M' && "Message"@[1] == 'e');
    reveal_strlit("sync mailbox");
    assert("sync mailbox"@.len() == 12 && "sync mailbox"@[0] == 's' && "sync mailbox"@[1] == 'y');
}

/// The name of an MTM type UID worth recognising in a report. An unrecognised one stays
/// unnamed: guessing would invent the very fact the enumeration exists to discover.
pub fn mtm_name(uid: u32) -> (r: Option<&'static str>)
    ensures
        r == mtm_label(uid),
{
    if uid == 0x1000102C {
        Some("SMS")
    } else if uid == 0x100058E1 {
        Some("MMS")
    } else if uid == 0x100059C8 {
        Some("MMS (2)")
    } else if uid == 0x10001028 {
        Some("IMAP4")
    } else if uid == 0x10001029 {
        Some("POP3")
    } else if uid == 0x1000102A {
        Some("SMTP")
    } else if uid == 0x10009ED5 {
        Some("OBEX/Bluetooth")
    } else if uid == 0x10005535 {
        Some("BIO")
    } else if uid == 0x10009158 {
        Some("service message")
    } else if uid == 0x102072D6 {
        Some("Message")
    } else if uid == 0x101F7C5C {
        Some("sync mailbox")
    } else {
        None
    }
}

/// One entry, owned and decoded.
#[derive(Debug, PartialEq, Eq)]
pub struct Entry {
    pub id: EntryId,
    pub parent: EntryId,
    pub service_id: EntryId,
    pub mtm_uid: u32,
    pub type_uid: u32,
    /// Seconds since the Unix epoch.
    pub unix_time: i64,
    pub size: i32,
    pub flags: i32,
    /// `iDetails`: the correspondent, the left-hand column in the native list.
    pub details: String,
    /// `iDescription`: subject or preview, the second line of the row.
    pub description: String,
    /// The platform's field was longer than the record carried.
    pub details_truncated: bool,
    pub description_truncated: bool,
}

impl Entry {
    pub fn is_message(&self) -> (r: bool)
        ensures
            r == (self.type_uid == TYPE_MESSAGE),
    {
        self.type_uid == TYPE_MESSAGE
    }

    pub fn is_service(&self) -> (r: bool)
        ensures
            r == (self.type_uid == TYPE_SERVICE),
    {
        self.type_uid == TYPE_SERVICE
    }

    pub fn is_folder(&self) -> (r: bool)
        ensures
            r == (self.type_uid == TYPE_FOLDER),
    {
        self.type_uid == TYPE_FOLDER
    }

    pub fn is_new(&self) -> (r: bool)
        ensures
            r == (self.flags & MSV_NEW != 0),
    {
        self.flags & MSV_NEW != 0
    }

    pub fn unread(&self) -> (r: bool)
        ensures
            r == (self.flags & MSV_UNREAD != 0),
    {
        self.flags & MSV_UNREAD != 0
    }

    pub fn complete(&self) -> (r: bool)
        ensures
            r == (self.flags & MSV_COMPLETE != 0),
    {
        self.flags & MSV_COMPLETE != 0
    }

    pub fn visible(&self) -> (r: bool)
        ensures
            r == (self.flags & MSV_VISIBLE != 0),
    {
        self.flags & MSV_VISIBLE != 0
    }

    /// Still being written: an entry that is visible, complete and not in preparation is
    /// one whose body is really there.
    pub fn in_preparation(&self) -> (r: bool)
        ensures
            r == (self.flags & MSV_IN_PREPARATION != 0),
    {
        self.flags & MSV_IN_PREPARATION != 0
    }

    pub fn failed(&self) -> (r: bool)
        ensures
            r == (self.flags & MSV_FAILED != 0),
    {
        self.flags & MSV_FAILED != 0
    }
}

/// A message about to be written into a folder. It owns its text, already in UTF-16.
pub struct NewMessage {
    /// The service the message belongs to.
    pub service_id: EntryId,
    pub mtm_uid: u32,
    /// One of the standard folders. Defaults to the inbox.
    pub parent_id: EntryId,
    /// Seconds since the Unix epoch; 0 means now.
    pub unix_time: i64,
    /// Defaults to new and unread, which is what bolds the row and counts it.
    pub flags: i32,
    /// `iDetails`, in UTF-16.
    pub details: Vec<u16>,
    /// `iDescription`, in UTF-16.
    pub description: Vec<u16>,
    /// The text, in UTF-16.
    pub body: Vec<u16>,
}

impl NewMessage {
    /// Who it is from, as UTF-16.
    pub open spec fn sender(&self) -> Seq<u16> {
        self.details@
    }

    /// The subject line, as UTF-16.
    pub open spec fn title(&self) -> Seq<u16> {
        self.description@
    }

    /// The text, as UTF-16.
    pub open spec fn text(&self) -> Seq<u16> {
        self.body@
    }

    pub fn new(service_id: EntryId, mtm_uid: u32) -> (m: Self)
        ensures
            m.service_id == service_id,
            m.mtm_uid == mtm_uid,
            m.parent_id == MSV_INBOX,
            m.unix_time == 0,
            m.flags == MSV_NEW | MSV_UNREAD,
            m.sender() == Seq::<u16>::empty(),
            m.title() == Seq::<u16>::empty(),
            m.text() == Seq::<u16>::empty(),
    {
        NewMessage {
            service_id,
            mtm_uid,
            parent_id: MSV_INBOX,
            unix_time: 0,
            flags: MSV_NEW | MSV_UNREAD,
            details: Vec::new(),
            description: Vec::new(),
            body: Vec::new(),
        }
    }

    /// Who it is from: `iDetails`, the left-hand column in the native list.
    pub fn from(self, s: &str) -> (m: Self)
        ensures
            m.sender() == utf16(s@),
            m.title() == self.title(),
            m.text() == self.text(),
            m.service_id == self.service_id && m.mtm_uid == self.mtm_uid && m.parent_id
                == self.parent_id && m.unix_time == self.unix_time && m.flags == self.flags,
    {
        let mut m = self;
        m.details = encode_utf16(s);
        m
    }

    /// Subject, or a preview line: `iDescription`, the second line of the row.
    pub fn subject(self, s: &str) -> (m: Self)
        ensures
            m.title() == utf16(s@),
            m.sender() == self.sender(),
            m.text() == self.text(),
            m.service_id == self.service_id && m.mtm_uid == self.mtm_uid && m.parent_id
                == self.parent_id && m.unix_time == self.unix_time && m.flags == self.flags,
    {
        let mut m = self;
        m.description = encode_utf16(s);
        m
    }

    /// The message text, stored as rich text in the entry's own store.
    pub fn body(self, s: &str) -> (m: Self)
        ensures
            m.text() == utf16(s@),
            m.sender() == self.sender(),
            m.title() == self.title(),
            m.service_id == self.service_id && m.mtm_uid == self.mtm_uid && m.parent_id
                == self.parent_id && m.unix_time == self.unix_time && m.flags == self.flags,
    {
        let mut m = self;
        m.body = encode_utf16(s);
        m
    }

    pub fn at(self, unix_time: i64) -> (m: Self)
        ensures
            m.unix_time == unix_time,
            m.sender() == self.sender() && m.title() == self.title() && m.text() == self.text(),
            m.service_id == self.service_id && m.mtm_uid == self.mtm_uid && m.parent_id
                == self.parent_id && m.flags == self.flags,
    {
        let mut m = self;
        m.unix_time = unix_time;
        m
    }

    pub fn into_folder(self, folder_id: EntryId) -> (m: Self)
        ensures
            m.parent_id == folder_id,
            m.sender() == self.sender() && m.title() == self.title() && m.text() == self.text(),
            m.service_id == self.service_id && m.mtm_uid == self.mtm_uid && m.unix_time
                == self.unix_time && m.flags == self.flags,
    {
        let mut m = self;
        m.parent_id = folder_id;
        m
    }

    /// `iDetails`, as handed to the platform.
    pub fn details_units(&self) -> (r: &[u16])
        ensures
            r@ == self.sender(),
    {
        self.details.as_slice()
    }

    /// `iDescription`, as handed to the platform.
    pub fn description_units(&self) -> (r: &[u16])
        ensures
            r@ == self.title(),
    {
        self.description.as_slice()
    }

    /// The body, as handed to the platform.
    pub fn body_units(&self) -> (r: &[u16])
        ensures
            r@ == self.text(),
    {
        self.body.as_slice()
    }
}

} // verus!
