//! Package identity: the version an application says it is, and the stamp it leaves when it
//! runs, so a supervisor can tell that an update actually started.
//!
//! One stamp file per application UID3, under `C:\Data\bootd\ver`, outside every protected
//! directory so the writer and the reader need no capability at all.

use vstd::prelude::*;

use crate::codec::{
    decimal, get_u16, get_u32, get_u64, le16, le32, le64, le_i64, lemma_i64_bits,
    lemma_read16_le16, lemma_read32_le32, lemma_read64_le64, owned, push_char, push_decimal,
    push_u16, push_u32, push_u64, read16, read32, read64,
};
use crate::error::Result;
use crate::fs::{self, tmp_of, utf16, Fs, Utf16Path};

verus! {

broadcast use {vstd::seq::group_seq_axioms, vstd::slice::group_slice_axioms};

/// The directory holding one stamp file per application UID3.
pub const VER_DIR: &'static str = "C:\\Data\\bootd\\ver";

/// `BTVR`, little-endian.
pub const MAGIC: u32 = 0x5256_5442;

/// A stamp's size: magic, UID, three version numbers, padding and the instant.
pub const BLOB_LEN: usize = 24;

/// A package version: the three numbers `app.conf` writes as `VERSION=0,1,0`.
#[derive(Copy, Clone, PartialEq, Eq, PartialOrd, Ord, Debug, Default, Structural)]
pub struct Version {
    pub major: u16,
    pub minor: u16,
    pub patch: u16,
}

/// Whether `c` is white space, as Unicode's `White_Space` property has it.
pub open spec fn is_space(c: char) -> bool {
    let v = c as u32;
    (0x9 <= v <= 0xd) || v == 0x20 || v == 0x85 || v == 0xa0 || v == 0x1680 || (0x2000 <= v
        <= 0x200a) || v == 0x2028 || v == 0x2029 || v == 0x202f || v == 0x205f || v == 0x3000
}

/// How many white-space characters `s` starts with.
pub open spec fn lead(s: Seq<char>) -> nat
    decreases s.len(),
{
    if s.len() > 0 && is_space(s[0]) {
        1 + lead(s.drop_first())
    } else {
        0
    }
}

/// How many white-space characters `s` ends with.
pub open spec fn trail(s: Seq<char>) -> nat
    decreases s.len(),
{
    if s.len() > 0 && is_space(s.last()) {
        1 + trail(s.drop_last())
    } else {
        0
    }
}

/// `s` without white space at either end.
pub open spec fn trim(s: Seq<char>) -> Seq<char> {
    if lead(s) == s.len() {
        Seq::empty()
    } else {
        s.subrange(lead(s) as int, s.len() - trail(s))
    }
}

/// A version field separator: `.` or `,`.
pub open spec fn is_sep(c: char) -> bool {
    c == '.' || c == ','
}

/// `s` split at every separator, as `str::split` does: one more field than separators.
pub open spec fn split(s: Seq<char>) -> Seq<Seq<char>>
    decreases s.len(),
{
    if s.len() == 0 {
        seq![Seq::empty()]
    } else {
        let r = split(s.drop_last());
        if is_sep(s.last()) {
            r.push(Seq::empty())
        } else {
            r.update(r.len() - 1, r.last().push(s.last()))
        }
    }
}

/// Whether `c` is an ASCII digit.
pub open spec fn is_digit(c: char) -> bool {
    '0' <= c <= '9'
}

/// The number a run of digits spells.
pub open spec fn digits_value(d: Seq<char>) -> nat
    decreases d.len(),
{
    if d.len() == 0 {
        0
    } else {
        digits_value(d.drop_last()) * 10 + ((d.last() as u32) - 48) as nat
    }
}

/// A field as `u16::from_str` reads it: an optional `+`, then one or more digits, no more
/// than `u16::MAX`.
pub open spec fn number(t: Seq<char>) -> Option<u16> {
    digits_number(unsigned_part(t))
}

/// A field without its optional leading `+`.
pub open spec fn unsigned_part(t: Seq<char>) -> Seq<char> {
    if t.len() > 0 && t[0] == '+' {
        t.drop_first()
    } else {
        t
    }
}

/// Whether every character of `d` is a digit.
pub open spec fn all_digits(d: Seq<char>) -> bool {
    forall|i: int| 0 <= i < d.len() ==> is_digit(#[trigger] d[i])
}

/// The `u16` a run of one or more digits spells, if it fits.
pub open spec fn digits_number(d: Seq<char>) -> Option<u16> {
    if d.len() == 0 || !all_digits(d) || digits_value(d) > u16::MAX {
        None
    } else {
        Some(digits_value(d) as u16)
    }
}

/// What [`Version::parse`] reads from `s`: trimmed, one leading `v` or `V` dropped, then
/// exactly three fields, each a number once trimmed.
pub open spec fn version_of(s: Seq<char>) -> Option<Version> {
    let t = trim(s);
    version_fields(
        if t.len() > 0 && (t[0] == 'v' || t[0] == 'V') {
            t.drop_first()
        } else {
            t
        },
    )
}

/// Exactly three fields of `c`, each a number once trimmed.
pub open spec fn version_fields(c: Seq<char>) -> Option<Version> {
    let f = split(c);
    if f.len() != 3 {
        None
    } else {
        match (number(trim(f[0])), number(trim(f[1])), number(trim(f[2]))) {
            (Some(a), Some(b), Some(p)) => Some(Version { major: a, minor: b, patch: p }),
            _ => None,
        }
    }
}

/// `v` as `major.minor.patch`.
pub open spec fn version_text(v: Version) -> Seq<char> {
    decimal(v.major as nat) + seq!['.'] + decimal(v.minor as nat) + seq!['.'] + decimal(
        v.patch as nat,
    )
}

pub(crate) fn space(c: char) -> (r: bool)
    ensures
        r == is_space(c),
{
    let v = c as u32;
    (0x9 <= v && v <= 0xd) || v == 0x20 || v == 0x85 || v == 0xa0 || v == 0x1680 || (0x2000 <= v
        && v <= 0x200a) || v == 0x2028 || v == 0x2029 || v == 0x202f || v == 0x205f || v == 0x3000
}

pub(crate) fn chars_of(s: &str) -> (r: Vec<char>)
    ensures
        r@ == s@,
{
    broadcast use vstd::string::axiom_spec_iter;

    let mut out: Vec<char> = Vec::new();
    for c in it: s.chars()
        invariant
            it.seq() == s@,
            out@ == s@.take(it.index() as int),
    {
        out.push(c);
        assert(out@ =~= s@.take(it.index() + 1));
    }
    assert(s@.take(s@.len() as int) =~= s@);
    out
}

proof fn lemma_lead(s: Seq<char>, i: int)
    requires
        0 <= i <= s.len(),
        forall|k: int| 0 <= k < i ==> is_space(#[trigger] s[k]),
        i == s.len() || !is_space(s[i]),
    ensures
        lead(s) == i,
    decreases s.len(),
{
    if i > 0 {
        let d = s.drop_first();
        assert forall|k: int| 0 <= k < i - 1 implies is_space(#[trigger] d[k]) by {
            assert(d[k] == s[k + 1]);
        }
        if i < s.len() {
            assert(d[i - 1] == s[i]);
        }
        lemma_lead(d, i - 1);
    }
}

proof fn lemma_trail(s: Seq<char>, j: int)
    requires
        0 <= j <= s.len(),
        forall|k: int| j <= k < s.len() ==> is_space(#[trigger] s[k]),
        j == 0 || !is_space(s[j - 1]),
    ensures
        trail(s) == s.len() - j,
    decreases s.len(),
{
    if j < s.len() {
        let d = s.drop_last();
        assert forall|k: int| j <= k < d.len() implies is_space(#[trigger] d[k]) by {
            assert(d[k] == s[k]);
        }
        if j > 0 {
            assert(d[j - 1] == s[j - 1]);
        }
        assert(is_space(s[s.len() - 1]));
        lemma_trail(d, j);
    }
}

/// The trimmed stretch `[lo, hi)` of `cs[from..to]`.
fn trim_range(cs: &Vec<char>, from: usize, to: usize) -> (r: (usize, usize))
    requires
        from <= to <= cs@.len(),
    ensures
        from <= r.0 <= r.1 <= to,
        cs@.subrange(r.0 as int, r.1 as int) == trim(cs@.subrange(from as int, to as int)),
{
    let ghost s = cs@.subrange(from as int, to as int);
    let mut lo = from;
    while lo < to && space(cs[lo])
        invariant
            from <= lo <= to <= cs@.len(),
            s == cs@.subrange(from as int, to as int),
            forall|k: int| from <= k < lo ==> is_space(#[trigger] cs@[k]),
        decreases to - lo,
    {
        lo = lo + 1;
    }
    proof {
        assert forall|k: int| 0 <= k < lo - from implies is_space(#[trigger] s[k]) by {
            assert(s[k] == cs@[from + k]);
        }
        if lo < to {
            assert(s[lo - from] == cs@[lo as int]);
        }
        lemma_lead(s, lo - from);
    }
    if lo == to {
        return (to, to);
    }
    let mut hi = to;
    while hi > lo && space(cs[hi - 1])
        invariant
            from <= lo < to,
            lo <= hi <= to <= cs@.len(),
            !is_space(cs@[lo as int]),
            forall|k: int| hi <= k < to ==> is_space(#[trigger] cs@[k]),
        decreases hi,
    {
        hi = hi - 1;
    }
    proof {
        assert forall|k: int| hi - from <= k < s.len() implies is_space(#[trigger] s[k]) by {
            assert(s[k] == cs@[from + k]);
        }
        if hi > from {
            assert(s[hi - from - 1] == cs@[hi - 1]);
        }
        lemma_trail(s, hi - from);
        assert(cs@.subrange(lo as int, hi as int) =~= s.subrange(lo - from, s.len() - (to - hi)));
    }
    (lo, hi)
}

/// The number `cs[from..to]` spells, as [`number`] reads it.
fn field_number(cs: &Vec<char>, from: usize, to: usize) -> (r: Option<u16>)
    requires
        from <= to <= cs@.len(),
    ensures
        r == number(cs@.subrange(from as int, to as int)),
{
    let ghost t = cs@.subrange(from as int, to as int);
    let start = if from < to && cs[from] == '+' {
        from + 1
    } else {
        from
    };
    let ghost d = cs@.subrange(start as int, to as int);
    proof {
        if from < to && cs@[from as int] == '+' {
            assert(d =~= t.drop_first());
        } else {
            assert(d =~= t);
        }
    }
    if start == to {
        return None;
    }
    let mut value: u64 = 0;
    let mut i = start;
    while i < to
        invariant
            start <= i <= to <= cs@.len(),
            d == cs@.subrange(start as int, to as int),
            t == cs@.subrange(from as int, to as int),
            d == unsigned_part(t),
            forall|k: int| start <= k < i ==> is_digit(#[trigger] cs@[k]),
            value == if digits_value(cs@.subrange(start as int, i as int)) < 65536 {
                digits_value(cs@.subrange(start as int, i as int))
            } else {
                65536
            },
        decreases to - i,
    {
        let c = cs[i];
        if !('0' <= c && c <= '9') {
            proof {
                assert(d[i - start] == c);
                assert(!is_digit(d[i - start]));
                assert(!all_digits(d));
            }
            return None;
        }
        let digit = (c as u32 - 48) as u64;
        proof {
            let p = cs@.subrange(start as int, i + 1);
            assert(p.drop_last() =~= cs@.subrange(start as int, i as int));
            assert(p.last() == c);
        }
        let next = value * 10 + digit;
        value = if next > 65536 {
            65536
        } else {
            next
        };
        i = i + 1;
    }
    proof {
        assert(cs@.subrange(start as int, to as int) == d);
        assert forall|k: int| 0 <= k < d.len() implies is_digit(#[trigger] d[k]) by {
            assert(d[k] == cs@[start + k]);
        }
    }
    if value > 65535 {
        None
    } else {
        Some(value as u16)
    }
}

impl Version {
    pub fn new(major: u16, minor: u16, patch: u16) -> (r: Self)
        ensures
            r == (Version { major, minor, patch }),
    {
        Version { major, minor, patch }
    }

    /// Parse `0.2.0`, or `0,2,0`, or `v0.2.0`: exactly three numbers. Two is not "patch 0" —
    /// a truncated version string is far more likely a corrupted line than an abbreviation.
    pub fn parse(s: &str) -> (r: Option<Self>)
        ensures
            r == version_of(s@),
    {
        let cs = chars_of(s);
        let (lo, hi) = trim_range(&cs, 0, cs.len());
        proof {
            assert(cs@.subrange(0, cs@.len() as int) =~= s@);
        }
        let ghost t = trim(s@);
        let start = if lo < hi && (cs[lo] == 'v' || cs[lo] == 'V') {
            lo + 1
        } else {
            lo
        };
        let ghost c = cs@.subrange(start as int, hi as int);
        proof {
            if lo < hi && (cs@[lo as int] == 'v' || cs@[lo as int] == 'V') {
                assert(c =~= t.drop_first());
            } else {
                assert(c =~= t);
            }
        }
        // The separators' positions, at most three of them (a fourth field means no version).
        let mut seps: Vec<usize> = Vec::new();
        assert(version_of(s@) == version_fields(c));
        let mut i = start;
        while i < hi
            invariant
                start <= i <= hi <= cs@.len(),
                c == cs@.subrange(start as int, hi as int),
                version_of(s@) == version_fields(c),
                seps@.len() <= 3,
                split(cs@.subrange(start as int, i as int)).len() == seps@.len() + 1,
                forall|k: int| 0 <= k < seps@.len() ==> start <= #[trigger] seps@[k] < i,
                forall|k: int| 0 <= k < seps@.len() ==> is_sep(cs@[#[trigger] seps@[k] as int]),
                forall|k: int, l: int| 0 <= k < l < seps@.len() ==> #[trigger] seps@[k] < #[trigger] seps@[l],
                forall|k: int|
                    0 <= k < seps@.len() + 1 ==> #[trigger] split(cs@.subrange(start as int, i as int))[k]
                        == cs@.subrange(
                        if k == 0 {
                            start as int
                        } else {
                            seps@[k - 1] + 1
                        },
                        if k < seps@.len() {
                            seps@[k] as int
                        } else {
                            i as int
                        },
                    ),
            decreases hi - i,
        {
            let ch = cs[i];
            proof {
                let p = cs@.subrange(start as int, i + 1);
                assert(p.drop_last() =~= cs@.subrange(start as int, i as int));
                assert(p.last() == ch);
            }
            if ch == '.' || ch == ',' {
                if seps.len() == 3 {
                    proof {
                        let p = cs@.subrange(start as int, i + 1);
                        let q = cs@.subrange(start as int, hi as int);
                        assert(q.subrange(0, p.len() as int) =~= p);
                        lemma_split_grows(p, q);
                    }
                    return None;
                }
                seps.push(i);
            }
            proof {
                let prev = split(cs@.subrange(start as int, i as int));
                let now = split(cs@.subrange(start as int, i + 1));
                assert forall|k: int| 0 <= k < seps@.len() + 1 implies #[trigger] now[k] == cs@.subrange(
                    if k == 0 {
                        start as int
                    } else {
                        seps@[k - 1] + 1
                    },
                    if k < seps@.len() {
                        seps@[k] as int
                    } else {
                        i + 1
                    },
                ) by {
                    if is_sep(ch) {
                        if k < seps@.len() {
                            assert(now[k] == prev[k]);
                        }
                    } else {
                        if k < seps@.len() {
                            assert(now[k] == prev[k]);
                        } else {
                            let lo_k = if k == 0 {
                                start as int
                            } else {
                                seps@[k - 1] + 1
                            };
                            assert(cs@.subrange(lo_k, i + 1) =~= cs@.subrange(lo_k, i as int).push(ch));
                        }
                    }
                }
            }
            i = i + 1;
        }
        let ghost f = split(c);
        if seps.len() != 2 {
            return None;
        }
        let a = seps[0];
        let b = seps[1];
        let (l0, h0) = trim_range(&cs, start, a);
        let (l1, h1) = trim_range(&cs, a + 1, b);
        let (l2, h2) = trim_range(&cs, b + 1, hi);
        let major = match field_number(&cs, l0, h0) {
            Some(v) => v,
            None => {
                return None;
            },
        };
        let minor = match field_number(&cs, l1, h1) {
            Some(v) => v,
            None => {
                return None;
            },
        };
        let patch = match field_number(&cs, l2, h2) {
            Some(v) => v,
            None => {
                return None;
            },
        };
        Some(Version { major, minor, patch })
    }

    /// The version as `major.minor.patch`.
    pub fn to_text(&self) -> (r: String)
        ensures
            r@ == version_text(*self),
    {
        let mut s = String::new();
        push_decimal(&mut s, self.major as u64);
        push_char(&mut s, '.');
        push_decimal(&mut s, self.minor as u64);
        push_char(&mut s, '.');
        push_decimal(&mut s, self.patch as u64);
        assert(s@ =~= version_text(*self));
        s
    }
}

proof fn lemma_split_grows(p: Seq<char>, q: Seq<char>)
    requires
        p.len() <= q.len(),
        q.subrange(0, p.len() as int) == p,
    ensures
        split(q).len() >= split(p).len(),
    decreases q.len() - p.len(),
{
    if q.len() > p.len() {
        let d = q.drop_last();
        assert(d.subrange(0, p.len() as int) =~= p);
        lemma_split_grows(p, d);
    } else {
        assert(q =~= p);
    }
}

/// What a stamp file says: which version ran, and when it started.
#[derive(Copy, Clone, PartialEq, Eq, Debug, Structural)]
pub struct Stamp {
    pub uid3: u32,
    pub version: Version,
    /// Unix seconds at the moment the application started.
    pub at_s: i64,
}

/// The 24 bytes of a stamp.
pub open spec fn stamp_bytes(s: Stamp) -> Seq<u8> {
    le32(MAGIC) + le32(s.uid3) + le16(s.version.major) + le16(s.version.minor) + le16(
        s.version.patch,
    ) + le16(0) + le_i64(s.at_s)
}

/// The stamp a blob holds: `None` when it is short or does not start with the magic; bytes
/// past the stamp are not looked at.
pub open spec fn stamp_of(b: Seq<u8>) -> Option<Stamp> {
    if b.len() < BLOB_LEN || read32(b, 0) != MAGIC {
        None
    } else {
        Some(
            Stamp {
                uid3: read32(b, 4),
                version: Version { major: read16(b, 8), minor: read16(b, 10), patch: read16(b, 12) },
                at_s: read64(b, 16) as i64,
            },
        )
    }
}

impl Stamp {
    pub fn encode(&self) -> (r: Vec<u8>)
        ensures
            r@ == stamp_bytes(*self),
    {
        let mut out: Vec<u8> = Vec::new();
        push_u32(&mut out, MAGIC);
        push_u32(&mut out, self.uid3);
        push_u16(&mut out, self.version.major);
        push_u16(&mut out, self.version.minor);
        push_u16(&mut out, self.version.patch);
        push_u16(&mut out, 0);
        push_u64(&mut out, self.at_s as u64);
        assert(out@ =~= stamp_bytes(*self));
        out
    }

    /// `None` for anything that is not a stamp: a reader that cannot make sense of one treats
    /// it as no evidence, which is already the safe direction.
    pub fn decode(bytes: &[u8]) -> (r: Option<Self>)
        ensures
            r == stamp_of(bytes@),
    {
        if bytes.len() < BLOB_LEN || get_u32(bytes, 0) != MAGIC {
            return None;
        }
        Some(
            Stamp {
                uid3: get_u32(bytes, 4),
                version: Version {
                    major: get_u16(bytes, 8),
                    minor: get_u16(bytes, 10),
                    patch: get_u16(bytes, 12),
                },
                at_s: get_u64(bytes, 16) as i64,
            },
        )
    }
}

/// A stamp reads back as itself.
#[verifier::spinoff_prover]
#[verifier::rlimit(60)]
pub proof fn lemma_stamp_round_trip(s: Stamp)
    ensures
        stamp_of(stamp_bytes(s)) == Some(s),
{
    let v = s.version;
    let b = stamp_bytes(s);
    let e = Seq::<u8>::empty();
    let rest0 = le32(s.uid3) + le16(v.major) + le16(v.minor) + le16(v.patch) + le16(0) + le_i64(s.at_s);
    assert(b =~= e + le32(MAGIC) + rest0);
    lemma_read32_le32(MAGIC, e, rest0);
    let rest1 = le16(v.major) + le16(v.minor) + le16(v.patch) + le16(0) + le_i64(s.at_s);
    assert(b =~= le32(MAGIC) + le32(s.uid3) + rest1);
    lemma_read32_le32(s.uid3, le32(MAGIC), rest1);
    let p2 = le32(MAGIC) + le32(s.uid3);
    let rest2 = le16(v.minor) + le16(v.patch) + le16(0) + le_i64(s.at_s);
    assert(b =~= p2 + le16(v.major) + rest2);
    lemma_read16_le16(v.major, p2, rest2);
    let p3 = p2 + le16(v.major);
    let rest3 = le16(v.patch) + le16(0) + le_i64(s.at_s);
    assert(b =~= p3 + le16(v.minor) + rest3);
    lemma_read16_le16(v.minor, p3, rest3);
    let p4 = p3 + le16(v.minor);
    let rest4 = le16(0) + le_i64(s.at_s);
    assert(b =~= p4 + le16(v.patch) + rest4);
    lemma_read16_le16(v.patch, p4, rest4);
    let p5 = p4 + le16(v.patch) + le16(0);
    assert(b =~= p5 + le64(s.at_s as u64) + e);
    lemma_read64_le64(s.at_s as u64, p5, e);
    lemma_i64_bits(s.at_s);
}

/// `v`'s eight hex digits in upper case.
pub open spec fn hex8_upper(v: u32) -> Seq<char> {
    Seq::new(
        8,
        |i: int|
            {
                let d = crate::cpu::nibble8(v, i);
                if d < 10 {
                    ((48 + d) as u32) as char
                } else {
                    ((55 + d) as u32) as char
                }
            },
    )
}

/// Append `v` as eight upper-case hex digits.
pub(crate) fn push_hex8_upper(s: &mut String, v: u32)
    ensures
        final(s)@ == old(s)@ + hex8_upper(v),
{
    let ghost start = s@;
    let mut i: u32 = 0;
    while i < 8
        invariant
            i <= 8,
            s@ == start + hex8_upper(v).take(i as int),
        decreases 8 - i,
    {
        let shift: u32 = 28 - 4 * i;
        let d = (v >> shift) & 0xf;
        assert(d < 16) by (bit_vector)
            requires
                d == (v >> shift) & 0xf,
        ;
        let c = if d < 10 {
            ((48 + d) as u8) as char
        } else {
            ((55 + d) as u8) as char
        };
        push_char(s, c);
        assert(s@ =~= start + hex8_upper(v).take(i + 1));
        i = i + 1;
    }
    assert(hex8_upper(v).take(8) =~= hex8_upper(v));
}

/// The stamp file for one application, as a model: `C:\Data\bootd\ver\<UID3 in hex>`.
pub open spec fn stamp_path(uid3: u32) -> Seq<u16> {
    utf16(VER_DIR@ + seq!['\\'] + hex8_upper(uid3))
}

/// The stamp file for one application.
pub fn path_of(uid3: u32) -> (r: Result<Utf16Path>)
    ensures
        r matches Ok(p) ==> p@ == stamp_path(uid3),
        r is Ok <==> stamp_path(uid3).len() <= fs::MAX_PATH,
{
    let mut s = owned(VER_DIR);
    push_char(&mut s, '\\');
    push_hex8_upper(&mut s, uid3);
    assert(s@ =~= VER_DIR@ + seq!['\\'] + hex8_upper(uid3));
    Utf16Path::new(s.as_str())
}

/// Record that `version` of `uid3` is running, as of `now_s`: one directory create and one
/// atomic 24-byte write. The error is returned so a caller who cares can log it.
pub fn stamp_as<F: Fs>(fs_: &mut F, uid3: u32, version: Version, now_s: i64) -> (r: Result<()>)
    requires
        old(fs_).inv(),
    ensures
        final(fs_).inv(),
        final(fs_).private_dir() == old(fs_).private_dir(),
        final(fs_).handles().dom().subset_of(old(fs_).handles().dom()),
        r is Ok ==> final(fs_).files() == old(fs_).files().remove(tmp_of(stamp_path(uid3))).insert(
            stamp_path(uid3),
            stamp_bytes(Stamp { uid3, version, at_s: now_s }),
        ),
        r is Err ==> final(fs_).files().remove(tmp_of(stamp_path(uid3))) == old(fs_).files().remove(
            tmp_of(stamp_path(uid3)),
        ),
{
    match Utf16Path::new(VER_DIR) {
        Ok(dir) => {
            let _ = fs_.mkdir(dir.as_units());
        },
        Err(_) => {},
    }
    let path = path_of(uid3)?;
    let bytes = Stamp { uid3, version, at_s: now_s }.encode();
    fs::write_atomic(fs_, &path, bytes.as_slice())
}

/// What `uid3` last recorded in the file system `files`: its stamp, unless the file is
/// missing, is not a stamp, or names another UID — somebody else's file under our name.
pub open spec fn stamp_in(files: fs::Files, uid3: u32) -> Option<Stamp> {
    if files.contains_key(stamp_path(uid3)) {
        match stamp_of(files[stamp_path(uid3)]) {
            Some(s) => if s.uid3 == uid3 {
                Some(s)
            } else {
                None
            },
            None => None,
        }
    } else {
        None
    }
}

/// Read back what `uid3` last recorded, or `None` if it never has (or the file cannot be
/// read).
pub fn stamped_in<F: Fs>(fs_: &mut F, uid3: u32) -> (r: Option<Stamp>)
    requires
        old(fs_).inv(),
    ensures
        final(fs_).inv(),
        final(fs_).private_dir() == old(fs_).private_dir(),
        final(fs_).files() == old(fs_).files(),
        final(fs_).handles() == old(fs_).handles(),
        r is Some ==> r == stamp_in(old(fs_).files(), uid3),
        stamp_in(old(fs_).files(), uid3) is None ==> r is None,
{
    let path = match path_of(uid3) {
        Ok(p) => p,
        Err(_) => {
            return None;
        },
    };
    let bytes = match fs::read(fs_, &path) {
        Ok(Some(b)) => b,
        _ => {
            return None;
        },
    };
    match Stamp::decode(bytes.as_slice()) {
        Some(s) => if s.uid3 == uid3 {
            Some(s)
        } else {
            None
        },
        None => None,
    }
}

/// The stamp as a supervisor shows it: `0.2.0`, or `unknown`.
pub fn describe(stamp: Option<Stamp>) -> (r: String)
    ensures
        r@ == match stamp {
            Some(s) => version_text(s.version),
            None => "unknown"@,
        },
{
    match stamp {
        Some(s) => s.version.to_text(),
        None => owned("unknown"),
    }
}


// ------------------------------------------------------------ the build's UID3 --

/// Unicode's `White_Space` characters: what trimming a string removes from its ends.
pub open spec fn is_white(c: char) -> bool {
    ||| '\u{9}' <= c <= '\u{d}'
    ||| c == ' ' || c == '\u{85}' || c == '\u{a0}' || c == '\u{1680}'
    ||| '\u{2000}' <= c <= '\u{200a}'
    ||| c == '\u{2028}' || c == '\u{2029}' || c == '\u{202f}' || c == '\u{205f}' || c == '\u{3000}'
}

fn white(c: char) -> (r: bool)
    ensures
        r == is_white(c),
{
    ('\u{9}' <= c && c <= '\u{d}') || c == ' ' || c == '\u{85}' || c == '\u{a0}' || c
        == '\u{1680}' || ('\u{2000}' <= c && c <= '\u{200a}') || c == '\u{2028}' || c
        == '\u{2029}' || c == '\u{202f}' || c == '\u{205f}' || c == '\u{3000}'
}

/// Where the text starts once the white space in front of `i` is skipped.
pub open spec fn first_kept(s: Seq<char>, i: int) -> int
    decreases s.len() - i,
{
    if 0 <= i < s.len() && is_white(s[i]) {
        first_kept(s, i + 1)
    } else {
        i
    }
}

/// Where the text ends once the white space before `j`, down to `lo`, is dropped.
pub open spec fn last_kept(s: Seq<char>, lo: int, j: int) -> int
    decreases j - lo,
{
    if lo < j <= s.len() && is_white(s[j - 1]) {
        last_kept(s, lo, j - 1)
    } else {
        j
    }
}

/// The text without white space at either end.
pub open spec fn trimmed(s: Seq<char>) -> Seq<char> {
    let lo = first_kept(s, 0);
    s.subrange(lo, last_kept(s, lo, s.len() as int))
}

/// A hexadecimal digit's value, or -1 for any other character.
pub open spec fn hex_digit(c: char) -> int {
    if '0' <= c <= '9' {
        c as int - '0' as int
    } else if 'a' <= c <= 'f' {
        c as int - 'a' as int + 10
    } else if 'A' <= c <= 'F' {
        c as int - 'A' as int + 10
    } else {
        -1
    }
}

/// The value the hexadecimal digits spell.
pub open spec fn hex_value(d: Seq<char>) -> int
    decreases d.len(),
{
    if d.len() == 0 {
        0
    } else {
        hex_value(d.drop_last()) * 16 + hex_digit(d.last())
    }
}

/// Every character is a hexadecimal digit.
pub open spec fn all_hex(d: Seq<char>) -> bool {
    forall|i: int| 0 <= i < d.len() ==> hex_digit(#[trigger] d[i]) >= 0
}

/// A base-16 number as `u32::from_str_radix` reads one: an optional `+`, then at least one
/// digit, and a value that fits.
pub open spec fn radix16(t: Seq<char>) -> Option<u32> {
    let d = if t.len() > 0 && t[0] == '+' {
        t.drop_first()
    } else {
        t
    };
    if d.len() > 0 && all_hex(d) && hex_value(d) <= u32::MAX {
        Some(hex_value(d) as u32)
    } else {
        None
    }
}

/// A UID3 as the build declares one: `0x` or `0X` and the hexadecimal digits, with white
/// space around it allowed.
pub open spec fn uid3_of(raw: Seq<char>) -> Option<u32> {
    let t = trimmed(raw);
    if t.len() >= 2 && t[0] == '0' && (t[1] == 'x' || t[1] == 'X') {
        radix16(t.subrange(2, t.len() as int))
    } else {
        None
    }
}

fn hex_digit_of(c: char) -> (r: Option<u64>)
    ensures
        hex_digit(c) >= 0 ==> r == Some(hex_digit(c) as u64),
        hex_digit(c) < 0 ==> r is None,
{
    if '0' <= c && c <= '9' {
        Some((c as u32 - '0' as u32) as u64)
    } else if 'a' <= c && c <= 'f' {
        Some((c as u32 - 'a' as u32 + 10) as u64)
    } else if 'A' <= c && c <= 'F' {
        Some((c as u32 - 'A' as u32 + 10) as u64)
    } else {
        None
    }
}

/// Digits only grow a number: a prefix of hexadecimal digits spells no more than the whole.
proof fn lemma_hex_prefix(d: Seq<char>, k: int)
    requires
        all_hex(d),
        0 <= k <= d.len(),
    ensures
        hex_value(d.subrange(0, k)) <= hex_value(d),
        hex_value(d) >= 0,
    decreases d.len(),
{
    if d.len() > 0 {
        let p = d.drop_last();
        assert(all_hex(p)) by {
            assert forall|i: int| 0 <= i < p.len() implies hex_digit(#[trigger] p[i]) >= 0 by {
                assert(p[i] == d[i]);
            }
        }
        assert(hex_digit(d[d.len() - 1]) >= 0);
        if k == d.len() {
            assert(d.subrange(0, k) =~= d);
            lemma_hex_prefix(p, 0);
        } else {
            lemma_hex_prefix(p, k);
            assert(p.subrange(0, k) =~= d.subrange(0, k));
        }
    }
}

/// This build's UID3 from the text its configuration declared, as `u32::from_str_radix`
/// reads the part after `0x`: `None` without the prefix, with a character that is not a
/// digit, or with a value too large for a UID.
pub fn uid3_from(raw: &str) -> (r: Option<u32>)
    ensures
        r == uid3_of(raw@),
{
    broadcast use vstd::string::axiom_spec_iter;

    let mut cs: Vec<char> = Vec::new();
    for c in it: raw.chars()
        invariant
            it.seq() == raw@,
            cs@ == raw@.take(it.index() as int),
    {
        cs.push(c);
        assert(cs@ =~= raw@.take(it.index() + 1));
    }
    assert(cs@ =~= raw@);
    let ghost s = raw@;
    let mut lo: usize = 0;
    while lo < cs.len() && white(cs[lo])
        invariant
            cs@ == s,
            lo <= s.len(),
            first_kept(s, lo as int) == first_kept(s, 0),
        decreases s.len() - lo,
    {
        lo += 1;
    }
    let mut hi: usize = cs.len();
    while hi > lo && white(cs[hi - 1])
        invariant
            cs@ == s,
            lo == first_kept(s, 0),
            lo <= hi <= s.len(),
            last_kept(s, lo as int, hi as int) == last_kept(s, lo as int, s.len() as int),
        decreases hi - lo,
    {
        hi -= 1;
    }
    let ghost t = s.subrange(lo as int, hi as int);
    assert(t =~= trimmed(s));
    if hi - lo < 2 || cs[lo] != '0' || !(cs[lo + 1] == 'x' || cs[lo + 1] == 'X') {
        return None;
    }
    let ghost after = t.subrange(2, t.len() as int);
    let mut p: usize = lo + 2;
    if p < hi && cs[p] == '+' {
        p += 1;
    }
    let ghost d = s.subrange(p as int, hi as int);
    assert(d =~= if after.len() > 0 && after[0] == '+' {
        after.drop_first()
    } else {
        after
    });
    if p == hi {
        return None;
    }
    assert(uid3_of(s) == if all_hex(d) && hex_value(d) <= u32::MAX {
        Some(hex_value(d) as u32)
    } else {
        None
    });
    let mut acc: u64 = 0;
    let mut k: usize = p;
    while k < hi
        invariant
            cs@ == s,
            p <= k <= hi <= s.len(),
            d == s.subrange(p as int, hi as int),
            s == raw@,
            uid3_of(s) == if all_hex(d) && hex_value(d) <= u32::MAX {
                Some(hex_value(d) as u32)
            } else {
                None
            },
            all_hex(s.subrange(p as int, k as int)),
            acc == hex_value(s.subrange(p as int, k as int)),
            acc <= u32::MAX,
        decreases hi - k,
    {
        let v = match hex_digit_of(cs[k]) {
            Some(v) => v,
            None => {
                proof {
                    assert(d[k - p] == s[k as int]);
                }
                return None;
            },
        };
        proof {
            let q = s.subrange(p as int, k + 1);
            assert(q.drop_last() =~= s.subrange(p as int, k as int));
            assert(q.last() == s[k as int]);
            assert forall|i: int| 0 <= i < q.len() implies hex_digit(#[trigger] q[i]) >= 0 by {
                if i < q.len() - 1 {
                    assert(q[i] == s.subrange(p as int, k as int)[i]);
                }
            }
        }
        acc = acc * 16 + v;
        k += 1;
        if acc > u32::MAX as u64 {
            proof {
                let pre = s.subrange(p as int, k as int);
                if all_hex(d) {
                    assert(d.subrange(0, (k - p) as int) =~= pre);
                    lemma_hex_prefix(d, (k - p) as int);
                }
            }
            return None;
        }
    }
    assert(s.subrange(p as int, k as int) =~= d);
    Some(acc as u32)
}

} // verus!
