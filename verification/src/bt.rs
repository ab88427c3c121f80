//! Bluetooth: the state the platform's BT server keeps, as plain values — the identifiers
//! it is reached by, the records it answers with, and a fake to test screens against.
//!
//! Reading and writing that state is the platform's; turning its answers into values is
//! here.

use vstd::prelude::*;

use crate::codec::{from_utf16_lossy, owned, push_char, str_is_empty, utf16_lossy};
use crate::error::{Error, Result};

verus! {

broadcast use {vstd::seq::group_seq_axioms, vstd::slice::group_slice_axioms};

/// `KCRUidBluetoothPowerState`.
pub const POWER_REPO: u32 = 0x1020_4DA9;

/// `KBTPowerState`. `EBTPowerOn` is 1.
pub const POWER_KEY: u32 = 1;

/// `KUidSystemCategory`: the Publish & Subscribe category every key below lives in.
pub const PS_CATEGORY: u32 = 0x101f_75b6;

/// `KUidBluetoothPubSubKeyBase`, the base every key below offsets from.
pub const PS_BASE: u32 = 0x1020_3637;

/// Visibility, as the stack reports it.
pub const PS_SCANNING_GET: u32 = PS_BASE + 3;

/// Visibility, as a client sets it.
pub const PS_SCANNING_SET: u32 = PS_BASE + 4;

/// Limited-discoverable mode, read and write.
pub const PS_LIMITED_GET: u32 = PS_BASE + 5;

pub const PS_LIMITED_SET: u32 = PS_BASE + 6;

/// Class of device, read and write.
pub const PS_DEVICE_CLASS_GET: u32 = PS_BASE + 7;

pub const PS_DEVICE_CLASS_SET: u32 = PS_BASE + 8;

/// Bumped whenever a registry table changes: the free refresh signal.
pub const PS_REGISTRY_CHANGED: u32 = PS_BASE + 11;

pub const REGISTRY_REMOTE_TABLE: i32 = 0x1020_3643;

pub const REGISTRY_LOCAL_TABLE: i32 = 0x1020_3644;

pub const REGISTRY_CSY_TABLE: i32 = 0x1020_3645;

/// The local Bluetooth name, read and write.
pub const PS_NAME_GET: u32 = PS_BASE + 15;

pub const PS_NAME_SET: u32 = PS_BASE + 16;

/// Whether the stack accepts connections from unpaired devices, read and write.
pub const PS_PAIRED_ONLY_GET: u32 = PS_BASE + 18;

pub const PS_PAIRED_ONLY_SET: u32 = PS_BASE + 19;

/// Non-zero while the stack is running an inquiry.
pub const PS_INQUIRY_ACTIVE: u32 = PS_BASE + 20;

/// How many devices either cache holds.
pub const CACHE_LIMIT: usize = 32;

/// How many UTF-16 units of a name a record carries.
pub const NAME_UNITS: usize = 32;

/// `KErrNone`: the value each step of an RFCOMM probe carries when it succeeded.
pub const RFCOMM_STEP_OK: i32 = 0;

/// `THCIScanEnable`: which scans the radio answers, which is what "visible" means here.
#[derive(Copy, Clone, Debug, PartialEq, Eq, Structural)]
pub enum Visibility {
    /// Neither found nor connectable.
    Hidden,
    /// Found by a scan, but not connectable.
    InquiryOnly,
    /// Connectable by a device that knows the address, but not discoverable — what the
    /// native UI calls "hidden".
    PageOnly,
    /// Discoverable and connectable.
    Visible,
}

/// The raw `THCIScanEnable` of each visibility.
pub open spec fn visibility_raw(v: Visibility) -> i32 {
    match v {
        Visibility::Hidden => 0,
        Visibility::InquiryOnly => 1,
        Visibility::PageOnly => 2,
        Visibility::Visible => 3,
    }
}

impl Visibility {
    /// The raw `THCIScanEnable`, or `None` for a value the registry never set.
    pub fn from_raw(raw: i32) -> (r: Option<Self>)
        ensures
            r matches Some(v) ==> visibility_raw(v) == raw,
            r is None <==> !(0 <= raw <= 3),
    {
        match raw {
            0 => Some(Visibility::Hidden),
            1 => Some(Visibility::InquiryOnly),
            2 => Some(Visibility::PageOnly),
            3 => Some(Visibility::Visible),
            _ => None,
        }
    }

    pub fn raw(self) -> (r: i32)
        ensures
            r == visibility_raw(self),
    {
        match self {
            Visibility::Hidden => 0,
            Visibility::InquiryOnly => 1,
            Visibility::PageOnly => 2,
            Visibility::Visible => 3,
        }
    }

    /// Is this device findable by somebody scanning right now?
    pub fn discoverable(self) -> (r: bool)
        ensures
            r == (self is InquiryOnly || self is Visible),
    {
        match self {
            Visibility::InquiryOnly | Visibility::Visible => true,
            _ => false,
        }
    }
}

/// A visibility survives the round trip through its raw value.
pub proof fn lemma_visibility_round_trip(v: Visibility)
    ensures
        0 <= visibility_raw(v) <= 3,
        forall|w: Visibility| visibility_raw(w) == visibility_raw(v) ==> w == v,
{
}

/// Device flag: paired.
pub const FLAG_PAIRED: u32 = 0x01;

/// Device flag: trusted, connecting without asking.
pub const FLAG_TRUSTED: u32 = 0x02;

/// Device flag: blocked.
pub const FLAG_BLOCKED: u32 = 0x04;

/// Device flag: the link is encrypted.
pub const FLAG_ENCRYPT: u32 = 0x08;

/// Device flag: the name is the user's friendly name.
pub const FLAG_FRIENDLY: u32 = 0x10;

/// A remote device as the registry hands it over: a fixed name buffer with the length the
/// platform had, which may be longer than the buffer.
#[derive(Copy, Clone, Debug, Default, PartialEq, Eq)]
pub struct RawDevice {
    pub addr: [u8; 6],
    pub device_class: u32,
    pub name: [u16; 32],
    pub name_len: i32,
    pub flags: u32,
}

/// A remote device, from the registry or from an inquiry.
#[derive(Debug, Default, PartialEq, Eq)]
pub struct Device {
    pub addr: [u8; 6],
    /// The 24-bit class of device.
    pub device_class: u32,
    pub name: String,
    /// The platform's name was longer than the record carries; `name` is its start.
    pub name_truncated: bool,
    pub paired: bool,
    /// S60's "trusted": connects without asking the user to authorise it.
    pub trusted: bool,
    pub blocked: bool,
    pub encrypted: bool,
    /// The name is the user-chosen friendly name, not the one the device reports.
    pub friendly_name: bool,
}

/// Two devices that say the same thing.
pub open spec fn same_device(a: Device, b: Device) -> bool {
    &&& a.addr == b.addr
    &&& a.device_class == b.device_class
    &&& a.name@ == b.name@
    &&& a.name_truncated == b.name_truncated
    &&& a.paired == b.paired
    &&& a.trusted == b.trusted
    &&& a.blocked == b.blocked
    &&& a.encrypted == b.encrypted
    &&& a.friendly_name == b.friendly_name
}

impl Clone for Device {
    fn clone(&self) -> (r: Self)
        ensures
            same_device(r, *self),
    {
        Device {
            addr: self.addr,
            device_class: self.device_class,
            name: self.name.clone(),
            name_truncated: self.name_truncated,
            paired: self.paired,
            trusted: self.trusted,
            blocked: self.blocked,
            encrypted: self.encrypted,
            friendly_name: self.friendly_name,
        }
    }
}

/// An upper-case hex digit.
pub open spec fn hex_upper(d: u8) -> char {
    if d < 10 {
        ((48 + d) as u32) as char
    } else {
        ((55 + d) as u32) as char
    }
}

/// A byte as two upper-case hex digits.
pub open spec fn byte_hex(b: u8) -> Seq<char> {
    seq![hex_upper(b / 16), hex_upper(b % 16)]
}

/// The first `n` bytes of an address, high first, colon separated.
pub open spec fn addr_text(a: Seq<u8>, n: nat) -> Seq<char>
    decreases n,
{
    if n == 0 {
        Seq::empty()
    } else if n == 1 {
        byte_hex(a[0])
    } else {
        addr_text(a, (n - 1) as nat) + seq![':'] + byte_hex(a[n - 1])
    }
}

/// How many of `len` name units a record of `cap` units keeps. A negative length, read as
/// an unsigned one, is larger than any buffer: the whole buffer is kept.
pub open spec fn kept_units(len: i32, cap: nat) -> nat {
    if len < 0 {
        cap
    } else if len as nat <= cap {
        len as nat
    } else {
        cap
    }
}

fn kept(len: i32, cap: usize) -> (r: usize)
    ensures
        r == kept_units(len, cap as nat),
{
    if len < 0 {
        cap
    } else if (len as usize) <= cap {
        len as usize
    } else {
        cap
    }
}

fn hex_digit(d: u8) -> (c: char)
    requires
        d < 16,
    ensures
        c == hex_upper(d),
{
    if d < 10 {
        ((48 + d) as u8) as char
    } else {
        ((55 + d) as u8) as char
    }
}

impl Device {
    /// The major device class — 4 is audio/video, 2 a phone, 1 a computer.
    pub fn major_class(&self) -> (r: u8)
        ensures
            r == (self.device_class / 256) % 32,
    {
        let v = self.device_class;
        let r = ((v >> 8u32) & 0x1f) as u8;
        assert(((v >> 8u32) & 0x1f) == (v / 256) % 32) by (bit_vector);
        r
    }

    /// The address as the phone writes it: six bytes, high first, colon separated.
    pub fn addr_string(&self) -> (r: String)
        ensures
            r@ == addr_text(self.addr@, 6),
    {
        let mut s = String::new();
        let mut i: usize = 0;
        while i < 6
            invariant
                i <= 6,
                s@ == addr_text(self.addr@, i as nat),
            decreases 6 - i,
        {
            let b = self.addr[i];
            if i > 0 {
                push_char(&mut s, ':');
            }
            push_char(&mut s, hex_digit(b / 16));
            push_char(&mut s, hex_digit(b % 16));
            proof {
                if i == 0 {
                    assert(s@ =~= byte_hex(self.addr@[0]));
                } else {
                    assert(s@ =~= addr_text(self.addr@, i as nat) + seq![':'] + byte_hex(
                        self.addr@[i as int],
                    ));
                }
            }
            i = i + 1;
        }
        s
    }

    /// The device a registry record describes, its name decoded and its flags split out.
    pub fn from_raw(raw: &RawDevice) -> (d: Self)
        ensures
            d.addr == raw.addr,
            d.device_class == raw.device_class,
            d.name@ == utf16_lossy(raw.name@.subrange(0, kept_units(raw.name_len, 32) as int)),
            d.name_truncated == (raw.name_len < 0 || raw.name_len > 32),
            d.paired == (raw.flags & FLAG_PAIRED != 0),
            d.trusted == (raw.flags & FLAG_TRUSTED != 0),
            d.blocked == (raw.flags & FLAG_BLOCKED != 0),
            d.encrypted == (raw.flags & FLAG_ENCRYPT != 0),
            d.friendly_name == (raw.flags & FLAG_FRIENDLY != 0),
    {
        let n = kept(raw.name_len, NAME_UNITS);
        let units = vstd::slice::slice_subrange(raw.name.as_slice(), 0, n);
        Device {
            addr: raw.addr,
            device_class: raw.device_class,
            name: from_utf16_lossy(units),
            name_truncated: raw.name_len < 0 || raw.name_len > 32,
            paired: raw.flags & FLAG_PAIRED != 0,
            trusted: raw.flags & FLAG_TRUSTED != 0,
            blocked: raw.flags & FLAG_BLOCKED != 0,
            encrypted: raw.flags & FLAG_ENCRYPT != 0,
            friendly_name: raw.flags & FLAG_FRIENDLY != 0,
        }
    }
}

/// This handset's own record as the registry hands it over; `-1` in a field means the
/// record never set it.
#[derive(Copy, Clone, Debug, Default, PartialEq, Eq)]
pub struct RawLocal {
    pub addr: [u8; 6],
    pub device_class: u32,
    pub name: [u16; 32],
    pub name_len: i32,
    pub scan_enable: i32,
    pub limited: i32,
    pub power_setting: i32,
    pub paired_only: i32,
}

/// This handset's own Bluetooth record. The `Option`s are fields the registry never set,
/// which is not the same as a default.
#[derive(Debug, Default, PartialEq, Eq)]
pub struct Local {
    pub addr: [u8; 6],
    pub device_class: u32,
    pub name: String,
    pub visibility: Option<Visibility>,
    pub limited_discoverable: Option<bool>,
    pub power_setting: Option<i32>,
    pub accept_paired_only: Option<bool>,
}

/// Two records that say the same thing.
pub open spec fn same_local(a: Local, b: Local) -> bool {
    &&& a.addr == b.addr
    &&& a.device_class == b.device_class
    &&& a.name@ == b.name@
    &&& a.visibility == b.visibility
    &&& a.limited_discoverable == b.limited_discoverable
    &&& a.power_setting == b.power_setting
    &&& a.accept_paired_only == b.accept_paired_only
}

impl Clone for Local {
    fn clone(&self) -> (r: Self)
        ensures
            same_local(r, *self),
    {
        Local {
            addr: self.addr,
            device_class: self.device_class,
            name: self.name.clone(),
            visibility: self.visibility,
            limited_discoverable: self.limited_discoverable,
            power_setting: self.power_setting,
            accept_paired_only: self.accept_paired_only,
        }
    }
}

/// A registry flag: 0 and 1 are answers, anything else is "not set".
pub open spec fn flag_of(raw: i32) -> Option<bool> {
    if raw == 0 {
        Some(false)
    } else if raw == 1 {
        Some(true)
    } else {
        None
    }
}

fn flag(raw: i32) -> (r: Option<bool>)
    ensures
        r == flag_of(raw),
{
    match raw {
        0 => Some(false),
        1 => Some(true),
        _ => None,
    }
}

impl Local {
    /// The record the registry's answer describes.
    pub fn from_raw(raw: &RawLocal) -> (l: Self)
        ensures
            l.addr == raw.addr,
            l.device_class == raw.device_class,
            l.name@ == utf16_lossy(raw.name@.subrange(0, kept_units(raw.name_len, 32) as int)),
            l.visibility matches Some(v) ==> visibility_raw(v) == raw.scan_enable,
            l.visibility is None <==> !(0 <= raw.scan_enable <= 3),
            l.limited_discoverable == flag_of(raw.limited),
            l.power_setting == (if raw.power_setting < 0 {
                None
            } else {
                Some(raw.power_setting)
            }),
            l.accept_paired_only == flag_of(raw.paired_only),
    {
        let n = kept(raw.name_len, NAME_UNITS);
        let units = vstd::slice::slice_subrange(raw.name.as_slice(), 0, n);
        Local {
            addr: raw.addr,
            device_class: raw.device_class,
            name: from_utf16_lossy(units),
            visibility: Visibility::from_raw(raw.scan_enable),
            limited_discoverable: flag(raw.limited),
            power_setting: if raw.power_setting < 0 {
                None
            } else {
                Some(raw.power_setting)
            },
            accept_paired_only: flag(raw.paired_only),
        }
    }
}

/// Which route a power change actually took: the notifier asks the user and the direct
/// write does not, so a UI that reported "done" for both would be lying about one.
#[derive(Copy, Clone, Debug, PartialEq, Eq, Structural)]
pub enum PowerRoute {
    /// The platform's own "Activate Bluetooth?" query answered, and the radio came up.
    Notifier,
    /// A direct write to the power key.
    CenRep,
}


/// The devices of one of the platform's caches: `fetch(i)` is the `i`th entry, `None` past
/// the end. The walk stops at the first `None` and keeps at most [`CACHE_LIMIT`]; the end
/// of the cache is the only count there is.
pub fn found<F: Fn(i32) -> Option<Device>>(fetch: F) -> (r: Vec<Device>)
    requires
        forall|i: i32| 0 <= i < CACHE_LIMIT ==> call_requires(fetch, (i,)),
    ensures
        r@.len() <= CACHE_LIMIT,
        forall|k: int| 0 <= k < r@.len() ==> call_ensures(fetch, (k as i32,), Some(#[trigger] r@[k])),
        r@.len() < CACHE_LIMIT ==> call_ensures(fetch, (r@.len() as i32,), None::<Device>),
{
    let mut out: Vec<Device> = Vec::new();
    let mut i: usize = 0;
    while i < CACHE_LIMIT
        invariant_except_break
            i <= CACHE_LIMIT,
            out@.len() == i,
            forall|i: i32| 0 <= i < CACHE_LIMIT ==> call_requires(fetch, (i,)),
            forall|k: int| 0 <= k < out@.len() ==> call_ensures(fetch, (k as i32,), Some(#[trigger] out@[k])),
        ensures
            out@.len() <= CACHE_LIMIT,
            forall|k: int| 0 <= k < out@.len() ==> call_ensures(fetch, (k as i32,), Some(#[trigger] out@[k])),
            out@.len() < CACHE_LIMIT ==> call_ensures(fetch, (out@.len() as i32,), None::<Device>),
        decreases CACHE_LIMIT - i,
    {
        match fetch(i as i32) {
            Some(d) => {
                out.push(d);
            },
            None => {
                break;
            },
        }
        i = i + 1;
    }
    out
}

/// Managing Bluetooth, as an interface a screen's logic is written against: the device
/// supplies the platform's, a test supplies [`FakeBt`].
pub trait Bt {
    fn power(&mut self) -> Result<bool>;

    fn set_power(&mut self, on: bool) -> Result<PowerRoute>;

    fn local(&mut self) -> Result<Local>;

    fn set_visibility(&mut self, v: Visibility) -> Result<()>;

    /// The paired devices that fit, and the full count.
    fn paired(&mut self) -> Result<(Vec<Device>, usize)>;

    fn set_trusted(&mut self, addr: &[u8; 6], trusted: bool) -> Result<()>;

    fn unpair(&mut self, addr: &[u8; 6]) -> Result<()>;

    fn rename(&mut self, addr: &[u8; 6], name: &str) -> Result<()>;
}

/// A Bluetooth stack made of a `Vec`, for the screens above this to be tested against.
#[derive(Debug)]
pub struct FakeBt {
    pub on: bool,
    pub local: Local,
    pub devices: Vec<Device>,
    /// What the full count reports when the point is that it exceeds what fits; zero means
    /// as many as `devices` holds.
    pub total_override: usize,
    /// Every call that changes something, in order.
    pub log: Vec<String>,
    /// When set, every changing call fails with it and nothing changes.
    pub fail: Option<Error>,
}

/// The log's entries as text.
pub open spec fn log_text(log: Seq<String>) -> Seq<Seq<char>> {
    log.map_values(|s: String| s@)
}

/// The paired devices among `d`, in order.
pub open spec fn paired_of(d: Seq<Device>) -> Seq<Device> {
    d.filter(|x: Device| x.paired)
}

proof fn lemma_paired_of_step(s: Seq<Device>, i: int)
    requires
        0 <= i < s.len(),
    ensures
        paired_of(s.take(i + 1)) == (if s[i].paired {
            paired_of(s.take(i)).push(s[i])
        } else {
            paired_of(s.take(i))
        }),
{
    let t = s.take(i + 1);
    reveal(Seq::filter);
    assert(t.drop_last() =~= s.take(i));
    assert(t.last() == s[i]);
    assert(t.len() > 0);
    assert(t.filter(|x: Device| x.paired) == (if (|x: Device| x.paired)(t.last()) {
        t.drop_last().filter(|x: Device| x.paired).push(t.last())
    } else {
        t.drop_last().filter(|x: Device| x.paired)
    }));
}

/// Whether `k` is the first device with address `addr`.
pub open spec fn first_at(d: Seq<Device>, addr: Seq<u8>, k: int) -> bool {
    &&& 0 <= k < d.len()
    &&& d[k].addr@ == addr
    &&& forall|j: int| 0 <= j < k ==> (#[trigger] d[j]).addr@ != addr
}

/// Whether some device has address `addr`.
pub open spec fn has_addr(d: Seq<Device>, addr: Seq<u8>) -> bool {
    exists|k: int| 0 <= k < d.len() && (#[trigger] d[k]).addr@ == addr
}

fn same_addr(a: &[u8; 6], b: &[u8; 6]) -> (r: bool)
    ensures
        r == (a@ == b@),
{
    let mut i: usize = 0;
    while i < 6
        invariant
            i <= 6,
            forall|k: int| 0 <= k < i ==> a@[k] == b@[k],
        decreases 6 - i,
    {
        if a[i] != b[i] {
            return false;
        }
        i = i + 1;
    }
    assert(a@ =~= b@);
    true
}

impl FakeBt {
    pub fn new() -> (r: Self)
        ensures
            !r.on,
            r.devices@.len() == 0,
            r.log@.len() == 0,
            r.total_override == 0,
            r.fail is None,
    {
        FakeBt {
            on: false,
            local: Local {
                addr: [0u8; 6],
                device_class: 0,
                name: String::new(),
                visibility: None,
                limited_discoverable: None,
                power_setting: None,
                accept_paired_only: None,
            },
            devices: Vec::new(),
            total_override: 0,
            log: Vec::new(),
            fail: None,
        }
    }

    /// Add a device by name and address, paired and untrusted.
    pub fn with_device(self, name: &str, addr: [u8; 6]) -> (r: Self)
        ensures
            r.devices@.len() == self.devices@.len() + 1,
            forall|k: int| 0 <= k < self.devices@.len() ==> #[trigger] r.devices@[k] == self.devices@[k],
            ({
                let d = r.devices@.last();
                &&& d.addr == addr
                &&& d.name@ == name@
                &&& d.paired
                &&& !d.trusted && !d.blocked && !d.encrypted && !d.friendly_name && !d.name_truncated
                &&& d.device_class == 0
            }),
            r.on == self.on,
            r.log == self.log,
            r.total_override == self.total_override,
            r.fail == self.fail,
    {
        let mut me = self;
        me.devices.push(
            Device {
                addr,
                device_class: 0,
                name: owned(name),
                name_truncated: false,
                paired: true,
                trusted: false,
                blocked: false,
                encrypted: false,
                friendly_name: false,
            },
        );
        me
    }

    fn index(&self, addr: &[u8; 6]) -> (r: Result<usize>)
        ensures
            r matches Ok(k) ==> first_at(self.devices@, addr@, k as int),
            r is Err <==> !has_addr(self.devices@, addr@),
            r is Err ==> r == Err::<usize, Error>(Error::NotFound),
    {
        let mut i: usize = 0;
        while i < self.devices.len()
            invariant
                i <= self.devices@.len(),
                forall|j: int| 0 <= j < i ==> (#[trigger] self.devices@[j]).addr@ != addr@,
            decreases self.devices@.len() - i,
        {
            if same_addr(&self.devices[i].addr, addr) {
                return Ok(i);
            }
            i = i + 1;
        }
        Err(Error::NotFound)
    }

    fn note(&mut self, what: &str)
        ensures
            log_text(final(self).log@) == log_text(old(self).log@).push(what@),
            final(self).on == old(self).on,
            final(self).local == old(self).local,
            final(self).devices == old(self).devices,
            final(self).total_override == old(self).total_override,
            final(self).fail == old(self).fail,
    {
        self.log.push(owned(what));
        assert(log_text(self.log@) =~= log_text(old(self).log@).push(what@));
    }
}

impl Bt for FakeBt {
    fn power(&mut self) -> (r: Result<bool>)
        ensures
            r == Ok::<bool, Error>(old(self).on),
            *final(self) == *old(self),
    {
        Ok(self.on)
    }

    /// The fake takes the silent route: a fake cannot ask a user anything.
    fn set_power(&mut self, on: bool) -> (r: Result<PowerRoute>)
        ensures
            old(self).fail matches Some(e) ==> r == Err::<PowerRoute, Error>(e) && *final(self)
                == *old(self),
            old(self).fail is None ==> {
                &&& r == Ok::<PowerRoute, Error>(PowerRoute::CenRep)
                &&& final(self).on == on
                &&& log_text(final(self).log@) == log_text(old(self).log@).push(
                    if on {
                        "power on"@
                    } else {
                        "power off"@
                    },
                )
                &&& final(self).devices == old(self).devices
                &&& final(self).local == old(self).local
            },
    {
        if let Some(e) = self.fail {
            return Err(e);
        }
        self.on = on;
        self.note(
            if on {
                "power on"
            } else {
                "power off"
            },
        );
        Ok(PowerRoute::CenRep)
    }

    fn local(&mut self) -> (r: Result<Local>)
        ensures
            (r matches Ok(l) && same_local(l, old(self).local)),
            *final(self) == *old(self),
    {
        Ok(self.local.clone())
    }

    fn set_visibility(&mut self, v: Visibility) -> (r: Result<()>)
        ensures
            old(self).fail matches Some(e) ==> r == Err::<(), Error>(e) && *final(self) == *old(self),
            old(self).fail is None ==> {
                &&& r is Ok
                &&& final(self).local.visibility == Some(v)
                &&& final(self).local.name == old(self).local.name
                &&& log_text(final(self).log@) == log_text(old(self).log@).push("visibility"@)
                &&& final(self).devices == old(self).devices
            },
    {
        if let Some(e) = self.fail {
            return Err(e);
        }
        self.local.visibility = Some(v);
        self.note("visibility");
        Ok(())
    }

    fn paired(&mut self) -> (r: Result<(Vec<Device>, usize)>)
        ensures
            *final(self) == *old(self),
            old(self).fail matches Some(e) ==> r == Err::<(Vec<Device>, usize), Error>(e),
            old(self).fail is None ==> (r matches Ok((kept, total)) && {
                let all = paired_of(old(self).devices@);
                &&& kept@.len() == (if all.len() < CACHE_LIMIT {
                    all.len()
                } else {
                    CACHE_LIMIT as nat
                })
                &&& forall|k: int| 0 <= k < kept@.len() ==> same_device(#[trigger] kept@[k], all[k])
                &&& total == (if old(self).total_override > 0 {
                    old(self).total_override as nat
                } else {
                    all.len()
                })
            }),
    {
        if let Some(e) = self.fail {
            return Err(e);
        }
        let mut kept: Vec<Device> = Vec::new();
        let mut count: usize = 0;
        let mut i: usize = 0;
        while i < self.devices.len()
            invariant
                i <= self.devices@.len(),
                count == paired_of(self.devices@.take(i as int)).len(),
                count <= i,
                kept@.len() == (if count < CACHE_LIMIT {
                    count
                } else {
                    CACHE_LIMIT
                }),
                forall|k: int| 0 <= k < kept@.len() ==> same_device(#[trigger] kept@[k], paired_of(self.devices@.take(i as int))[k]),
            decreases self.devices@.len() - i,
        {
            proof {
                lemma_paired_of_step(self.devices@, i as int);
            }
            if self.devices[i].paired {
                if kept.len() < CACHE_LIMIT {
                    kept.push(self.devices[i].clone());
                }
                count = count + 1;
            }
            proof {
                let prev = paired_of(self.devices@.take(i as int));
                let now = paired_of(self.devices@.take(i + 1));
                assert forall|k: int| 0 <= k < kept@.len() implies same_device(#[trigger] kept@[k], now[k]) by {
                    if k < prev.len() {
                        assert(now[k] == prev[k]);
                    }
                }
            }
            i = i + 1;
        }
        proof {
            assert(self.devices@.take(self.devices@.len() as int) =~= self.devices@);
        }
        let total = if self.total_override > 0 {
            self.total_override
        } else {
            count
        };
        Ok((kept, total))
    }

    fn set_trusted(&mut self, addr: &[u8; 6], trusted: bool) -> (r: Result<()>)
        ensures
            old(self).fail matches Some(e) ==> r == Err::<(), Error>(e) && *final(self) == *old(self),
            old(self).fail is None && !has_addr(old(self).devices@, addr@) ==> r == Err::<(), Error>(
                Error::NotFound,
            ) && *final(self) == *old(self),
            old(self).fail is None && has_addr(old(self).devices@, addr@) ==> {
                &&& r is Ok
                &&& exists|k: int|
                    first_at(old(self).devices@, addr@, k) && final(self).devices@
                        == old(self).devices@.update(k, Device { trusted, ..old(self).devices@[k] })
                &&& log_text(final(self).log@) == log_text(old(self).log@).push(
                    if trusted {
                        "trust"@
                    } else {
                        "untrust"@
                    },
                )
            },
    {
        if let Some(e) = self.fail {
            return Err(e);
        }
        let i = self.index(addr)?;
        let ghost before = self.devices@;
        self.devices[i].trusted = trusted;
        assert(self.devices@ =~= before.update(i as int, Device { trusted, ..before[i as int] }));
        self.note(
            if trusted {
                "trust"
            } else {
                "untrust"
            },
        );
        Ok(())
    }

    fn unpair(&mut self, addr: &[u8; 6]) -> (r: Result<()>)
        ensures
            old(self).fail matches Some(e) ==> r == Err::<(), Error>(e) && *final(self) == *old(self),
            old(self).fail is None && !has_addr(old(self).devices@, addr@) ==> r == Err::<(), Error>(
                Error::NotFound,
            ) && *final(self) == *old(self),
            old(self).fail is None && has_addr(old(self).devices@, addr@) ==> {
                &&& r is Ok
                &&& exists|k: int|
                    first_at(old(self).devices@, addr@, k) && final(self).devices@
                        == old(self).devices@.remove(k)
                &&& log_text(final(self).log@) == log_text(old(self).log@).push("unpair"@)
            },
    {
        if let Some(e) = self.fail {
            return Err(e);
        }
        let i = self.index(addr)?;
        self.devices.remove(i);
        self.note("unpair");
        Ok(())
    }

    fn rename(&mut self, addr: &[u8; 6], name: &str) -> (r: Result<()>)
        ensures
            old(self).fail matches Some(e) ==> r == Err::<(), Error>(e) && *final(self) == *old(self),
            old(self).fail is None && !has_addr(old(self).devices@, addr@) ==> r == Err::<(), Error>(
                Error::NotFound,
            ) && *final(self) == *old(self),
            old(self).fail is None && has_addr(old(self).devices@, addr@) ==> {
                &&& r is Ok
                &&& exists|k: int|
                    {
                        &&& first_at(old(self).devices@, addr@, k)
                        &&& final(self).devices@.len() == old(self).devices@.len()
                        &&& final(self).devices@[k].name@ == name@
                        &&& final(self).devices@[k].friendly_name == (name@.len() > 0)
                        &&& final(self).devices@[k].addr == old(self).devices@[k].addr
                        &&& final(self).devices@[k].paired == old(self).devices@[k].paired
                        &&& final(self).devices@[k].trusted == old(self).devices@[k].trusted
                        &&& forall|j: int| 0 <= j < old(self).devices@.len() && j != k
                            ==> #[trigger] final(self).devices@[j] == old(self).devices@[j]
                    }
                &&& log_text(final(self).log@) == log_text(old(self).log@).push("rename"@)
            },
    {
        if let Some(e) = self.fail {
            return Err(e);
        }
        let i = self.index(addr)?;
        self.devices[i].name = owned(name);
        self.devices[i].friendly_name = !str_is_empty(name);
        self.note("rename");
        Ok(())
    }
}

} // verus!
