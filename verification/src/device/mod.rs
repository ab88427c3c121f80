//! What the device is and how it is doing: memory, storage, power, and the handful of facts
//! a device report shows.
//!
//! The readings come from the platform (HAL, Publish & Subscribe, the file server); this
//! module holds them as plain values, derives what a screen shows from them, and renders the
//! human-readable report — in which a value the handset cannot give is *said* to be missing,
//! because a line saying "not supported" is a finding about the hardware and a missing line
//! looks like an oversight.

use vstd::prelude::*;

use crate::codec::{decimal, owned, push_char, push_decimal, push_str};
use crate::cpu::{hex8, push_hex8};
use crate::log::{push_i64, signed_decimal};

pub mod hal_attr;

verus! {

/// HWRM's Publish & Subscribe category, where the platform's power state is published.
pub const HWRM_CATEGORY: u32 = 0x1020_5041;

/// HWRM key carrying the charge level, `0..=7`, or negative when unknown.
pub const HWRM_LEVEL_KEY: u32 = 1;

/// HWRM key carrying the charging state, `1` while charging.
pub const HWRM_CHARGING_KEY: u32 = 3;

/// The number of bars a full battery or a full signal shows.
pub const BARS_MAX: i32 = 7;

/// Where the home screen publishes the keypad lock for the processes that cannot read it:
/// the launcher's category, key 105. Non-zero means locked; a key never written means
/// unlocked.
pub const LOCK_CATEGORY: u32 = crate::intent::CATEGORY;

pub const LOCK_KEY: u32 = 105;

/// Charge state, as the platform publishes it.
#[derive(Clone, Copy, Debug, PartialEq, Eq, Structural)]
pub struct Battery {
    /// Charge in bars, `0..=7`. Negative while the platform has not answered.
    pub level: i32,
    /// Whether the phone is charging right now.
    pub charging: bool,
}

/// `v` held within `[lo, hi]`.
pub open spec fn clamp(v: int, lo: int, hi: int) -> int {
    if v < lo {
        lo
    } else if v > hi {
        hi
    } else {
        v
    }
}

/// Rust's division, which rounds toward zero.
pub open spec fn div_trunc(a: int, b: int) -> int {
    if a >= 0 {
        a / b
    } else {
        -((-a) / b)
    }
}

/// Charge as a percentage, or `None` while the level is unknown.
pub open spec fn battery_percent(b: Battery) -> Option<i32> {
    if b.level >= 0 {
        Some(clamp(div_trunc(b.level * 100, BARS_MAX as int), 0, 100) as i32)
    } else {
        None
    }
}

/// A level whose percentage can be computed without overflow.
pub open spec fn level_ok(b: Battery) -> bool {
    b.level < 0 || b.level * 100 <= i32::MAX
}

impl Battery {
    /// The charge state from its two keys: the level, and the charging key when it could be
    /// read. A phone that cannot say whether it is charging is far more often on battery than
    /// on mains, so a missing charging key reads as not charging rather than losing the level.
    pub fn from_keys(level: i32, charging: Option<i32>) -> (b: Battery)
        ensures
            b.level == level,
            b.charging == (charging == Some(1i32)),
    {
        Battery {
            level,
            charging: match charging {
                Some(c) => c == 1,
                None => false,
            },
        }
    }

    /// Charge as a percentage, or `None` while the level is unknown.
    pub fn percent(&self) -> (r: Option<i32>)
        requires
            level_ok(*self),
        ensures
            r == battery_percent(*self),
    {
        if self.level >= 0 {
            let p = self.level * 100 / BARS_MAX;
            Some(
                if p < 0 {
                    0
                } else if p > 100 {
                    100
                } else {
                    p
                },
            )
        } else {
            None
        }
    }
}

/// One drive letter and what is left on it.
#[derive(Clone, Debug, PartialEq, Eq, Structural)]
pub struct Storage {
    /// The drive letter, `'C'` and friends.
    pub letter: char,
    /// `TDriveInfo::iType`.
    pub media: i32,
    /// Whether the medium can be taken out.
    pub removable: bool,
    /// Total size in KiB, `None` when nothing is mounted.
    pub total_kb: Option<u64>,
    /// Free space in KiB, `None` when nothing is mounted.
    pub free_kb: Option<u64>,
}

/// Used space: total less free (never below zero), when both are known.
pub open spec fn used_of(d: Storage) -> Option<u64> {
    match (d.total_kb, d.free_kb) {
        (Some(t), Some(f)) => Some(
            if t >= f {
                (t - f) as u64
            } else {
                0u64
            },
        ),
        _ => None,
    }
}

/// How full a drive is, 0..=100, or `None` when nothing is mounted or it reports no size.
pub open spec fn percent_used_of(d: Storage) -> Option<i32> {
    match (d.total_kb, used_of(d)) {
        (Some(t), Some(u)) => if t == 0 {
            None
        } else {
            Some(
                (if u * 100 / (t as int) > 100 {
                    100
                } else {
                    u * 100 / (t as int)
                }) as i32,
            )
        },
        _ => None,
    }
}

/// A size whose percentage can be computed without overflow.
pub open spec fn size_ok(d: Storage) -> bool {
    match d.total_kb {
        Some(t) => t * 100 <= u64::MAX,
        None => true,
    }
}

impl Storage {
    /// Whether a volume is mounted; an empty card slot is present and not mounted.
    pub fn mounted(&self) -> (r: bool)
        ensures
            r == (self.total_kb is Some),
    {
        self.total_kb.is_some()
    }

    /// Used space in KiB, or `None` when nothing is mounted.
    pub fn used_kb(&self) -> (r: Option<u64>)
        ensures
            r == used_of(*self),
    {
        match (self.total_kb, self.free_kb) {
            (Some(t), Some(f)) => Some(
                if t >= f {
                    t - f
                } else {
                    0
                },
            ),
            _ => None,
        }
    }

    /// How full the drive is, 0..=100, or `None` when nothing is mounted or it reports no
    /// size.
    pub fn percent_used(&self) -> (r: Option<i32>)
        requires
            size_ok(*self),
        ensures
            r == percent_used_of(*self),
    {
        let total = match self.total_kb {
            Some(t) => t,
            None => {
                return None;
            },
        };
        if total == 0 {
            return None;
        }
        let used = match self.used_kb() {
            Some(u) => u,
            None => {
                return None;
            },
        };
        let p = used * 100 / total;
        Some(
            if p > 100 {
                100
            } else {
                p as i32
            },
        )
    }
}

/// Everything readable about the device at one moment. Each field is independent: one
/// facility that cannot answer leaves its field `None` and the rest intact.
#[derive(Clone, Debug, Default, PartialEq, Eq)]
pub struct Snapshot {
    /// Free RAM in KiB.
    pub ram_free_kb: Option<u32>,
    /// Total RAM in KiB.
    pub ram_total_kb: Option<u32>,
    /// This thread's own heap in KiB.
    pub heap_used_kb: Option<u32>,
    /// Charge state, from HWRM.
    pub battery: Option<Battery>,
    /// Cellular signal as `(bars 0..=7, dBm)`, when this binary reads it.
    pub signal: Option<(i32, i32)>,
    /// Microseconds since boot.
    pub uptime_us: u64,
    /// `EMachineUid` — the model identifier.
    pub machine_uid: Option<i32>,
    /// `ECPUSpeed`, in kHz. A clock rate, never a load.
    pub cpu_speed_khz: Option<i32>,
    /// Screen size in pixels, `(width, height)`.
    pub screen: Option<(i32, i32)>,
    /// Every drive letter the file server reports, in letter order.
    pub drives: Vec<Storage>,
}

/// A letter in ASCII capitals.
pub open spec fn upper(c: char) -> char {
    if 'a' <= c <= 'z' {
        ((c as u32) - 32) as char
    } else {
        c
    }
}

impl Snapshot {
    /// RAM in use, in KiB — total minus free (never below zero), when both are known.
    pub fn ram_used_kb(&self) -> (r: Option<u32>)
        ensures
            r == match (self.ram_total_kb, self.ram_free_kb) {
                (Some(t), Some(f)) => Some(
                    if t >= f {
                        (t - f) as u32
                    } else {
                        0u32
                    },
                ),
                _ => None,
            },
    {
        match (self.ram_total_kb, self.ram_free_kb) {
            (Some(t), Some(f)) => Some(
                if t >= f {
                    t - f
                } else {
                    0
                },
            ),
            _ => None,
        }
    }

    /// The drive by letter, in either case, if the file server reports it.
    pub fn drive(&self, letter: char) -> (r: Option<&Storage>)
        ensures
            r matches Some(d) ==> exists|i: int|
                0 <= i < self.drives@.len() && self.drives@[i] == *d && d.letter == upper(letter)
                    && forall|j: int| 0 <= j < i ==> self.drives@[j].letter != upper(letter),
            r is None ==> forall|i: int|
                0 <= i < self.drives@.len() ==> self.drives@[i].letter != upper(letter),
    {
        let want = if 'a' <= letter && letter <= 'z' {
            ((letter as u8) - 32) as char
        } else {
            letter
        };
        let mut i: usize = 0;
        while i < self.drives.len()
            invariant
                i <= self.drives@.len(),
                want == upper(letter),
                forall|j: int| 0 <= j < i ==> self.drives@[j].letter != want,
            decreases self.drives@.len() - i,
        {
            if self.drives[i].letter == want {
                return Some(&self.drives[i]);
            }
            i = i + 1;
        }
        None
    }
}

/// One line of the report as a value: whether it is a heading, its label (or the heading's
/// title), its value, and its 0..=100 meter when the value is a fraction.
pub type Row = (bool, Seq<char>, Seq<char>, Option<i32>);

/// One line of a human-readable device report: a plain data type, for a caller to map onto
/// whatever draws it.
#[derive(Clone, Debug, PartialEq, Eq)]
pub enum Line {
    /// A heading grouping the fields under it.
    Section(String),
    /// A label, its value as text, and — when the value is really a fraction — a meter.
    Field { label: String, value: String, meter: Option<i32> },
}

impl View for Line {
    type V = Row;

    open spec fn view(&self) -> Row {
        match self {
            Line::Section(t) => (true, t@, Seq::empty(), None),
            Line::Field { label, value, meter } => (false, label@, value@, *meter),
        }
    }
}

/// A heading.
pub open spec fn heading(t: Seq<char>) -> Row {
    (true, t, Seq::empty(), None)
}

/// A field with no meter.
pub open spec fn plain(label: Seq<char>, value: Seq<char>) -> Row {
    (false, label, value, None)
}

/// A field with a meter.
pub open spec fn gauge(label: Seq<char>, value: Seq<char>, pct: i32) -> Row {
    (false, label, value, Some(pct))
}

/// A list of report lines as values.
pub open spec fn rows(v: Seq<Line>) -> Seq<Row> {
    v.map_values(|l: Line| l@)
}

/// What a value the handset does not provide reads as.
pub const ABSENT: &'static str = "not supported";

pub const KB_PER_MB: u64 = 1024;

pub const KB_PER_GB: u64 = 1024 * 1024;

/// A KiB count the way a phone screen wants it: `48 KB`, `1.4 MB`, `1.2 GB` — one decimal
/// (rounded down) above the KiB range, none inside it.
pub open spec fn kb_text(kb: nat) -> Seq<char> {
    if kb >= KB_PER_GB {
        decimal(kb / KB_PER_GB as nat) + seq!['.'] + decimal(((kb % KB_PER_GB as nat) * 10) / KB_PER_GB as nat)
            + " GB"@
    } else if kb >= KB_PER_MB {
        decimal(kb / KB_PER_MB as nat) + seq!['.'] + decimal(((kb % KB_PER_MB as nat) * 10) / KB_PER_MB as nat)
            + " MB"@
    } else {
        decimal(kb) + " KB"@
    }
}

fn push_kb(s: &mut String, kb: u64)
    ensures
        final(s)@ == old(s)@ + kb_text(kb as nat),
{
    let ghost start = s@;
    if kb >= KB_PER_GB {
        push_decimal(s, kb / KB_PER_GB);
        push_char(s, '.');
        push_decimal(s, (kb % KB_PER_GB) * 10 / KB_PER_GB);
        push_str(s, " GB");
    } else if kb >= KB_PER_MB {
        push_decimal(s, kb / KB_PER_MB);
        push_char(s, '.');
        push_decimal(s, (kb % KB_PER_MB) * 10 / KB_PER_MB);
        push_str(s, " MB");
    } else {
        push_decimal(s, kb);
        push_str(s, " KB");
    }
    assert(s@ =~= start + kb_text(kb as nat));
}

/// Format a KiB count the way a phone screen wants it.
pub fn fmt_kb(kb: u64) -> (r: String)
    ensures
        r@ == kb_text(kb as nat),
{
    let mut s = String::new();
    push_kb(&mut s, kb);
    s
}

/// The terse form, for somewhere with no room: `48M`, `1G`, `512K`.
pub open spec fn kb_short_text(kb: nat) -> Seq<char> {
    if kb >= KB_PER_GB {
        decimal(kb / KB_PER_GB as nat) + seq!['G']
    } else if kb >= KB_PER_MB {
        decimal(kb / KB_PER_MB as nat) + seq!['M']
    } else {
        decimal(kb) + seq!['K']
    }
}

/// The terse form of [`fmt_kb`], for a status-bar cell a few characters wide.
pub fn fmt_kb_short(kb: u64) -> (r: String)
    ensures
        r@ == kb_short_text(kb as nat),
{
    let mut s = String::new();
    if kb >= KB_PER_GB {
        push_decimal(&mut s, kb / KB_PER_GB);
        push_char(&mut s, 'G');
    } else if kb >= KB_PER_MB {
        push_decimal(&mut s, kb / KB_PER_MB);
        push_char(&mut s, 'M');
    } else {
        push_decimal(&mut s, kb);
        push_char(&mut s, 'K');
    }
    s
}

/// Two digits, zero-padded.
pub open spec fn two_digits(v: nat) -> Seq<char> {
    if v < 10 {
        seq!['0'] + decimal(v)
    } else {
        decimal(v)
    }
}

fn push_two(s: &mut String, v: u64)
    ensures
        final(s)@ == old(s)@ + two_digits(v as nat),
{
    let ghost start = s@;
    if v < 10 {
        push_char(s, '0');
    }
    push_decimal(s, v);
    assert(s@ =~= start + two_digits(v as nat));
}

/// Microseconds since boot as `3d 04:21`, `4:21:07` or `21:07`: days only once there are
/// any, seconds gone once there are hours.
pub open spec fn uptime_text(us: nat) -> Seq<char> {
    let secs = us / 1_000_000;
    let d = secs / 86400;
    let h = (secs / 3600) % 24;
    let m = (secs / 60) % 60;
    let s = secs % 60;
    if d > 0 {
        decimal(d) + "d "@ + two_digits(h) + seq![':'] + two_digits(m)
    } else if h > 0 {
        decimal(h) + seq![':'] + two_digits(m) + seq![':'] + two_digits(s)
    } else {
        decimal(m) + seq![':'] + two_digits(s)
    }
}

/// Every field of an uptime is read off the microsecond count: whole days, then the hour of
/// the day and the minute of the hour (both zero-padded) once a day has passed; the hours,
/// then minute and second within a day; the minutes, then the second below an hour.
pub proof fn lemma_uptime_fields(us: nat)
    ensures
        us >= 86_400_000_000 ==> uptime_text(us) == decimal(us / 86_400_000_000) + "d "@
            + two_digits((us / 3_600_000_000) % 24) + seq![':'] + two_digits(
            (us / 60_000_000) % 60,
        ),
        3_600_000_000 <= us < 86_400_000_000 ==> uptime_text(us) == decimal(us / 3_600_000_000)
            + seq![':'] + two_digits((us / 60_000_000) % 60) + seq![':'] + two_digits(
            (us / 1_000_000) % 60,
        ),
        us < 3_600_000_000 ==> uptime_text(us) == decimal(us / 60_000_000) + seq![':']
            + two_digits((us / 1_000_000) % 60),
{
    let secs = us / 1_000_000;
    vstd::arithmetic::div_mod::lemma_div_denominator(us as int, 1_000_000, 86400);
    vstd::arithmetic::div_mod::lemma_div_denominator(us as int, 1_000_000, 3600);
    vstd::arithmetic::div_mod::lemma_div_denominator(us as int, 1_000_000, 60);
    assert(secs / 86400 == us / 86_400_000_000);
    assert(secs / 3600 == us / 3_600_000_000);
    assert(secs / 60 == us / 60_000_000);
    if us < 86_400_000_000 {
        assert(secs / 3600 < 24);
    }
    if us < 3_600_000_000 {
        assert(secs / 60 < 60);
    }
}

/// Format microseconds since boot for a list row.
pub fn fmt_uptime(us: u64) -> (r: String)
    ensures
        r@ == uptime_text(us as nat),
{
    let secs = us / 1_000_000;
    let d = secs / 86400;
    let h = (secs / 3600) % 24;
    let m = (secs / 60) % 60;
    let sec = secs % 60;
    let mut s = String::new();
    if d > 0 {
        push_decimal(&mut s, d);
        push_str(&mut s, "d ");
        push_two(&mut s, h);
        push_char(&mut s, ':');
        push_two(&mut s, m);
    } else if h > 0 {
        push_decimal(&mut s, h);
        push_char(&mut s, ':');
        push_two(&mut s, m);
        push_char(&mut s, ':');
        push_two(&mut s, sec);
    } else {
        push_decimal(&mut s, m);
        push_char(&mut s, ':');
        push_two(&mut s, sec);
    }
    assert(s@ =~= uptime_text(us as nat));
    s
}

/// The memory part of the report.
pub open spec fn memory_rows(s: Snapshot) -> Seq<Row> {
    let ram = if s.ram_total_kb is Some && s.ram_free_kb is Some && s.ram_total_kb->0 > 0 {
        let t = s.ram_total_kb->0;
        let f = s.ram_free_kb->0;
        let used: nat = if t >= f {
            (t - f) as nat
        } else {
            0
        };
        seq![
            gauge(
                "RAM used"@,
                kb_text(used) + " of "@ + kb_text(t as nat),
                (if used * 100 / (t as nat) > 100 {
                    100
                } else {
                    used * 100 / (t as nat)
                }) as i32,
            ),
            plain("Free"@, kb_text(f as nat)),
        ]
    } else {
        seq![plain("RAM"@, ABSENT@)]
    };
    let heap = match s.heap_used_kb {
        Some(h) => seq![plain("This app's heap"@, kb_text(h as nat))],
        None => Seq::empty(),
    };
    seq![heading("Memory"@)] + ram + heap
}

/// One drive's line.
pub open spec fn drive_row(d: Storage) -> Row {
    let label = seq![d.letter] + seq![':'];
    match (d.free_kb, percent_used_of(d)) {
        (Some(free), Some(pct)) => gauge(label, kb_text(free as nat) + " free"@, pct),
        (Some(_), None) => plain(label, "read-only"@),
        (None, _) => plain(label, "no card"@),
    }
}

/// The storage part of the report: a line per drive, or a line saying there are none.
pub open spec fn storage_rows(s: Snapshot) -> Seq<Row> {
    seq![heading("Storage"@)] + s.drives@.map_values(|d: Storage| drive_row(d)) + if s.drives@.len()
        == 0 {
        seq![plain("Drives"@, ABSENT@)]
    } else {
        Seq::empty()
    }
}

/// The power part of the report.
pub open spec fn power_rows(s: Snapshot) -> Seq<Row> {
    let battery = match s.battery {
        Some(b) => {
            let state = if b.charging {
                " (charging)"@
            } else {
                Seq::empty()
            };
            match battery_percent(b) {
                Some(p) => gauge("Battery"@, signed_decimal(p as int) + seq!['%'] + state, p),
                None => plain("Battery"@, "unknown"@ + state),
            }
        },
        None => plain("Battery"@, ABSENT@),
    };
    let signal = match s.signal {
        Some((bars, dbm)) => plain(
            "Signal"@,
            signed_decimal(bars as int) + seq!['/'] + signed_decimal(BARS_MAX as int) + "  "@
                + signed_decimal(dbm as int) + " dBm"@,
        ),
        None => plain("Signal"@, "not read here"@),
    };
    seq![heading("Power"@), battery, signal]
}

/// The device part of the report. CPU load is named only to say it cannot be read.
pub open spec fn device_rows(s: Snapshot) -> Seq<Row> {
    let model = match s.machine_uid {
        Some(uid) => plain("Model"@, "0x"@ + hex8(uid as u32)),
        None => plain("Model"@, ABSENT@),
    };
    let cpu = match s.cpu_speed_khz {
        Some(khz) => plain("CPU clock"@, signed_decimal(div_trunc(khz as int, 1000)) + " MHz"@),
        None => plain("CPU clock"@, ABSENT@),
    };
    let screen = match s.screen {
        Some((w, h)) => plain("Screen"@, signed_decimal(w as int) + seq!['x'] + signed_decimal(h as int)),
        None => plain("Screen"@, ABSENT@),
    };
    seq![
        heading("Device"@),
        plain("Uptime"@, uptime_text(s.uptime_us as nat)),
        model,
        cpu,
        plain("CPU load"@, ABSENT@),
        screen,
    ]
}

/// The whole report: what is running low first (memory, storage), then what the device is.
pub open spec fn report_rows(s: Snapshot) -> Seq<Row> {
    memory_rows(s) + storage_rows(s) + power_rows(s) + device_rows(s)
}

/// A snapshot whose figures can all be turned into percentages without overflow.
pub open spec fn reportable(s: Snapshot) -> bool {
    &&& s.battery matches Some(b) ==> level_ok(b)
    &&& forall|i: int| 0 <= i < s.drives@.len() ==> size_ok(#[trigger] s.drives@[i])
}

fn section(title: &str) -> (r: Line)
    ensures
        r@ == heading(title@),
{
    Line::Section(owned(title))
}

fn field(label: &str, value: String) -> (r: Line)
    ensures
        r@ == plain(label@, value@),
{
    Line::Field { label: owned(label), value, meter: None }
}

fn meter(label: String, value: String, pct: i32) -> (r: Line)
    ensures
        r@ == gauge(label@, value@, pct),
{
    Line::Field { label, value, meter: Some(pct) }
}

fn push_line(out: &mut Vec<Line>, l: Line)
    ensures
        rows(final(out)@) == rows(old(out)@).push(l@),
{
    out.push(l);
    assert(rows(final(out)@) =~= rows(old(out)@).push(l@));
}

impl Snapshot {
    fn memory_lines(&self, out: &mut Vec<Line>)
        ensures
            rows(final(out)@) == rows(old(out)@) + memory_rows(*self),
    {
        let ghost start = rows(out@);
        push_line(out, section("Memory"));
        match (self.ram_total_kb, self.ram_free_kb) {
            (Some(total), Some(free)) => {
                if total > 0 {
                    let used = if total >= free {
                        total - free
                    } else {
                        0
                    };
                    let mut v = String::new();
                    push_kb(&mut v, used as u64);
                    push_str(&mut v, " of ");
                    push_kb(&mut v, total as u64);
                    let p = (used as u64 * 100) / total as u64;
                    let pct = if p > 100 {
                        100
                    } else {
                        p as i32
                    };
                    push_line(out, meter(owned("RAM used"), v, pct));
                    push_line(out, field("Free", fmt_kb(free as u64)));
                } else {
                    push_line(out, field("RAM", owned(ABSENT)));
                }
            },
            _ => push_line(out, field("RAM", owned(ABSENT))),
        }
        match self.heap_used_kb {
            Some(heap) => push_line(out, field("This app's heap", fmt_kb(heap as u64))),
            None => {},
        }
        assert(rows(out@) =~= start + memory_rows(*self));
    }

    fn storage_lines(&self, out: &mut Vec<Line>)
        requires
            reportable(*self),
        ensures
            rows(final(out)@) == rows(old(out)@) + storage_rows(*self),
    {
        let ghost start = rows(out@);
        let ghost ds = self.drives@.map_values(|d: Storage| drive_row(d));
        push_line(out, section("Storage"));
        let mut i: usize = 0;
        while i < self.drives.len()
            invariant
                i <= self.drives@.len(),
                reportable(*self),
                ds == self.drives@.map_values(|d: Storage| drive_row(d)),
                rows(out@) == start + seq![heading("Storage"@)] + ds.take(i as int),
            decreases self.drives@.len() - i,
        {
            let d = &self.drives[i];
            assert(size_ok(self.drives@[i as int]));
            let mut label = String::new();
            push_char(&mut label, d.letter);
            push_char(&mut label, ':');
            let line = match (d.free_kb, d.percent_used()) {
                (Some(free), Some(pct)) => {
                    let mut v = String::new();
                    push_kb(&mut v, free);
                    push_str(&mut v, " free");
                    meter(label, v, pct)
                },
                (Some(_), None) => Line::Field { label, value: owned("read-only"), meter: None },
                (None, _) => Line::Field { label, value: owned("no card"), meter: None },
            };
            assert(line@ == drive_row(*d));
            push_line(out, line);
            assert(ds.take(i + 1) =~= ds.take(i as int).push(ds[i as int]));
            i = i + 1;
        }
        if self.drives.len() == 0 {
            push_line(out, field("Drives", owned(ABSENT)));
        }
        assert(ds.take(self.drives@.len() as int) =~= ds);
        assert(rows(out@) =~= start + storage_rows(*self));
    }

    fn power_lines(&self, out: &mut Vec<Line>)
        requires
            reportable(*self),
        ensures
            rows(final(out)@) == rows(old(out)@) + power_rows(*self),
    {
        let ghost start = rows(out@);
        push_line(out, section("Power"));
        match self.battery {
            Some(b) => {
                let mut state = String::new();
                if b.charging {
                    push_str(&mut state, " (charging)");
                }
                match b.percent() {
                    Some(pct) => {
                        let mut v = String::new();
                        push_i64(&mut v, pct as i64);
                        push_char(&mut v, '%');
                        push_str(&mut v, state.as_str());
                        push_line(out, meter(owned("Battery"), v, pct));
                    },
                    None => {
                        let mut v = owned("unknown");
                        push_str(&mut v, state.as_str());
                        push_line(out, field("Battery", v));
                    },
                }
            },
            None => push_line(out, field("Battery", owned(ABSENT))),
        }
        match self.signal {
            Some((bars, dbm)) => {
                let mut v = String::new();
                push_i64(&mut v, bars as i64);
                push_char(&mut v, '/');
                push_i64(&mut v, BARS_MAX as i64);
                push_str(&mut v, "  ");
                push_i64(&mut v, dbm as i64);
                push_str(&mut v, " dBm");
                push_line(out, field("Signal", v));
            },
            None => push_line(out, field("Signal", owned("not read here"))),
        }
        let ghost pr = power_rows(*self);
        assert(pr.len() == 3);
        assert(rows(out@).len() == start.len() + 3);
        assert(rows(out@)[start.len() as int] == pr[0]);
        assert(rows(out@)[start.len() + 1int] == pr[1]);
        assert(rows(out@)[start.len() + 2int] == pr[2]);
        assert(rows(out@) =~= start + power_rows(*self));
    }

    fn device_lines(&self, out: &mut Vec<Line>)
        ensures
            rows(final(out)@) == rows(old(out)@) + device_rows(*self),
    {
        let ghost start = rows(out@);
        push_line(out, section("Device"));
        push_line(out, field("Uptime", fmt_uptime(self.uptime_us)));
        match self.machine_uid {
            Some(uid) => {
                let mut v = owned("0x");
                push_hex8(&mut v, uid as u32);
                push_line(out, field("Model", v));
            },
            None => push_line(out, field("Model", owned(ABSENT))),
        }
        match self.cpu_speed_khz {
            Some(khz) => {
                let mut v = String::new();
                push_i64(&mut v, (khz / 1000) as i64);
                push_str(&mut v, " MHz");
                push_line(out, field("CPU clock", v));
            },
            None => push_line(out, field("CPU clock", owned(ABSENT))),
        }
        push_line(out, field("CPU load", owned(ABSENT)));
        match self.screen {
            Some((w, h)) => {
                let mut v = String::new();
                push_i64(&mut v, w as i64);
                push_char(&mut v, 'x');
                push_i64(&mut v, h as i64);
                push_line(out, field("Screen", v));
            },
            None => push_line(out, field("Screen", owned(ABSENT))),
        }
        let ghost dr = device_rows(*self);
        assert(rows(out@).len() == start.len() + 6);
        assert(rows(out@)[start.len() as int] == dr[0]);
        assert(rows(out@)[start.len() + 1int] == dr[1]);
        assert(rows(out@)[start.len() + 2int] == dr[2]);
        assert(rows(out@)[start.len() + 3int] == dr[3]);
        assert(rows(out@)[start.len() + 4int] == dr[4]);
        assert(rows(out@)[start.len() + 5int] == dr[5]);
        assert(rows(out@) =~= start + device_rows(*self));
    }

    /// Render this snapshot as report lines, in the order a person would want to read them:
    /// what is running low first (memory, storage), then what the device simply is.
    pub fn report(&self) -> (r: Vec<Line>)
        requires
            reportable(*self),
        ensures
            rows(r@) == report_rows(*self),
    {
        let mut out: Vec<Line> = Vec::new();
        assert(rows(out@) =~= Seq::<Row>::empty());
        self.memory_lines(&mut out);
        self.storage_lines(&mut out);
        self.power_lines(&mut out);
        self.device_lines(&mut out);
        assert(rows(out@) =~= report_rows(*self));
        out
    }
}

} // verus!
