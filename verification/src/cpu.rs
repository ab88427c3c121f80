//! Processor time, per process and for the whole phone.
//!
//! The platform answers one question — how many microseconds of CPU have the threads matching a
//! name pattern used since they started — and everything a task manager wants is a difference
//! of two such answers over a stretch of wall clock. The differencing is here; the sampling is
//! the platform's.

use vstd::prelude::*;
use vstd::string::StringSliceAdditionalSpecFns;
use vstd::utf8::*;

use crate::codec::{push_char, push_str};
use crate::error::{spec_from_code, Error, Result};

verus! {

/// One sample of how much processor time something has consumed since it started.
#[derive(Clone, Copy, Debug, PartialEq, Eq, Structural)]
pub struct Sample {
    /// Cumulative CPU microseconds, summed over every thread that matched.
    pub cpu_us: i64,
    /// How many threads answered.
    pub threads: i32,
    /// The monotonic clock when this was taken, for the denominator.
    pub at_us: u64,
}

/// A sample from the platform's answer: its return code, the CPU microseconds and the number
/// of threads that matched, taken at `at_us`. A failed call is its error; a pattern that no
/// thread matched is [`Error::NotFound`], never a sample of zero threads.
pub fn sample_from(code: i32, cpu_us: i64, threads: i32, at_us: u64) -> (r: Result<Sample>)
    ensures
        code < 0 ==> r == Err::<Sample, Error>(spec_from_code(code)),
        code >= 0 && threads <= 0 ==> r == Err::<Sample, Error>(Error::NotFound),
        code >= 0 && threads > 0 ==> r == Ok::<Sample, Error>(Sample { cpu_us, threads, at_us }),
{
    Error::check(code)?;
    if threads <= 0 {
        return Err(Error::NotFound);
    }
    Ok(Sample { cpu_us, threads, at_us })
}

/// Utilisation between two samples in tenths of a percent of one processor: `None` when the
/// clock did not move forward, or the CPU figure went backwards or cannot be differenced.
pub open spec fn tenths(a: Sample, b: Sample) -> Option<i32> {
    let elapsed = b.at_us - a.at_us;
    let used = b.cpu_us - a.cpu_us;
    if elapsed <= 0 || used < i64::MIN || used > i64::MAX || used < 0 {
        None
    } else {
        Some(((used * 1000) / elapsed) as i32)
    }
}

impl Sample {
    /// Utilisation as a whole percentage of one processor. Not clamped to 100: a device with
    /// more than one hardware thread can exceed it.
    pub fn load_percent(&self, later: &Sample) -> (r: Option<i32>)
        ensures
            r == match tenths(*self, *later) {
                Some(t) => Some(
                    if t >= 0 {
                        (t / 10) as i32
                    } else {
                        (-((-t) / 10)) as i32
                    },
                ),
                None => None,
            },
    {
        match self.load_tenths(later) {
            Some(t) => Some(t / 10),
            None => None,
        }
    }

    /// Utilisation in **tenths** of a percent — `37` is 3.7% — the resolution the numbers
    /// actually have. `None` means "no answer", never "idle".
    pub fn load_tenths(&self, later: &Sample) -> (r: Option<i32>)
        ensures
            r == tenths(*self, *later),
    {
        if later.at_us <= self.at_us {
            return None;
        }
        let elapsed = later.at_us - self.at_us;
        let used = later.cpu_us as i128 - self.cpu_us as i128;
        if used < i64::MIN as i128 || used > i64::MAX as i128 || used < 0 {
            return None;
        }
        Some(((used * 1000) / elapsed as i128) as i32)
    }
}

/// The thread-name pattern matching every thread of a process, given its name.
pub fn of_process(name: &str) -> (r: String)
    ensures
        r@ == name@ + "*::*"@,
{
    let mut p = String::new();
    push_str(&mut p, name);
    push_str(&mut p, "*::*");
    p
}

/// The `i`-th of eight hex digits of `v`, most significant first.
pub open spec fn nibble8(v: u32, i: int) -> u32 {
    (v >> ((28 - 4 * i) as u32)) & 0xf
}

/// `v` as eight lower-case hex digits.
pub open spec fn hex8(v: u32) -> Seq<char> {
    Seq::new(8, |i: int| crate::cache::hex_char(nibble8(v, i) as u64))
}

/// Append `v` as eight lower-case hex digits.
pub fn push_hex8(p: &mut String, v: u32)
    ensures
        final(p)@ == old(p)@ + hex8(v),
{
    let ghost start = p@;
    let mut i: u32 = 0;
    while i < 8
        invariant
            i <= 8,
            p@ == start + hex8(v).take(i as int),
        decreases 8 - i,
    {
        let shift: u32 = 28 - 4 * i;
        let d = (v >> shift) & 0xf;
        assert(d < 16) by (bit_vector)
            requires
                d == (v >> shift) & 0xf,
        ;
        let c = if d < 10 {
            ((48 + d) as u8) as char
        } else {
            ((87 + d) as u8) as char
        };
        assert(c == crate::cache::hex_char(d as u64));
        push_char(p, c);
        assert(p@ =~= start + hex8(v).take(i + 1));
        i = i + 1;
    }
    assert(hex8(v).take(8) =~= hex8(v));
}

/// The thread-name pattern matching every thread of the process running app `uid3`: the UID
/// in lower-case hex between brackets, the shape the kernel writes into a full name.
pub fn of_uid(uid3: u32) -> (r: String)
    ensures
        r@ == "*["@ + hex8(uid3) + "]*::*"@,
{
    let mut p = String::new();
    push_str(&mut p, "*[");
    push_hex8(&mut p, uid3);
    push_str(&mut p, "]*::*");
    p
}

/// The name EKA2 gives the kernel's idle thread: a measurement, so a mismatch shows up as an
/// unknown load rather than a busy phone.
pub const IDLE_THREAD: &'static str = "*::Null";

/// How busy the whole phone is, as a whole percentage: total time less idle time, over the
/// wall clock of the `all` pair. `None` when either pair cannot be differenced, or idle
/// exceeds the total — "we could not tell" must not render as "idle".
pub open spec fn busy(all: (Sample, Sample), idle: (Sample, Sample)) -> Option<i32> {
    let elapsed = all.1.at_us - all.0.at_us;
    let total = all.1.cpu_us - all.0.cpu_us;
    let idled = idle.1.cpu_us - idle.0.cpu_us;
    let b = total - idled;
    if elapsed <= 0 || total < i64::MIN || total > i64::MAX || idled < i64::MIN || idled
        > i64::MAX || b < i64::MIN || b > i64::MAX || b < 0 {
        None
    } else {
        Some(((b * 100) / elapsed) as i32)
    }
}

/// The percentage is busy time over wall-clock time: with `e` the microseconds between the two
/// `all` samples and `b` the CPU time of every thread less that of the idle thread, the answer
/// `p` is the whole percentage `p <= 100 * b / e < p + 1`. A clock that did not advance, or
/// idle time above the total, gives no answer. The bound on `b` keeps the percentage within
/// `i32`, the width of the answer.
pub proof fn lemma_busy_over_wall_clock(all: (Sample, Sample), idle: (Sample, Sample))
    ensures
        all.1.at_us <= all.0.at_us ==> busy(all, idle) is None,
        (all.1.cpu_us - all.0.cpu_us) < (idle.1.cpu_us - idle.0.cpu_us) ==> busy(
            all,
            idle,
        ) is None,
        ({
            let e = all.1.at_us - all.0.at_us;
            let total = all.1.cpu_us - all.0.cpu_us;
            let idled = idle.1.cpu_us - idle.0.cpu_us;
            let b = total - idled;
            e > 0 && i64::MIN <= total <= i64::MAX && i64::MIN <= idled <= i64::MAX && 0 <= b
                <= i64::MAX && b * 100 < 0x8000_0000 * e ==> {
                &&& busy(all, idle) is Some
                &&& (busy(all, idle)->0 as int) * e <= b * 100
                &&& b * 100 < (busy(all, idle)->0 as int + 1) * e
            }
        }),
{
    let e = all.1.at_us - all.0.at_us;
    let total = all.1.cpu_us - all.0.cpu_us;
    let idled = idle.1.cpu_us - idle.0.cpu_us;
    let b = total - idled;
    if e > 0 && i64::MIN <= total <= i64::MAX && i64::MIN <= idled <= i64::MAX && 0 <= b
        <= i64::MAX && b * 100 < 0x8000_0000 * e {
        let q = (b * 100) / e;
        assert(0 <= q && q * e <= b * 100 && b * 100 < (q + 1) * e && q < 0x8000_0000)
            by (nonlinear_arith)
            requires
                e > 0,
                b >= 0,
                q == (b * 100) / e,
                b * 100 < 0x8000_0000 * e,
        ;
        assert((q as i32) as int == q);
    }
}

/// Busy time between two pairs of samples — every thread, and the idle thread alone.
pub fn busy_percent(all: (&Sample, &Sample), idle: (&Sample, &Sample)) -> (r: Option<i32>)
    ensures
        r == busy((*all.0, *all.1), (*idle.0, *idle.1)),
{
    if all.1.at_us <= all.0.at_us {
        return None;
    }
    let elapsed = all.1.at_us - all.0.at_us;
    let total = all.1.cpu_us as i128 - all.0.cpu_us as i128;
    if total < i64::MIN as i128 || total > i64::MAX as i128 {
        return None;
    }
    let idled = idle.1.cpu_us as i128 - idle.0.cpu_us as i128;
    if idled < i64::MIN as i128 || idled > i64::MAX as i128 {
        return None;
    }
    let b = total - idled;
    if b < i64::MIN as i128 || b > i64::MAX as i128 || b < 0 {
        return None;
    }
    Some(((b * 100) / elapsed as i128) as i32)
}

/// The first position at or after `i` where `b` holds `x`, or the length when none does.
pub open spec fn find_byte(b: Seq<u8>, x: u8, i: int) -> int
    decreases b.len() - i,
{
    if i >= b.len() || i < 0 {
        b.len() as int
    } else if b[i] == x {
        i
    } else {
        find_byte(b, x, i + 1)
    }
}

/// The first position at or after `i` where `b` holds `::`, or the length when none does.
pub open spec fn find_pair(b: Seq<u8>, i: int) -> int
    decreases b.len() - i,
{
    if i + 1 >= b.len() || i < 0 {
        b.len() as int
    } else if b[i] == 0x3a && b[i + 1] == 0x3a {
        i
    } else {
        find_pair(b, i + 1)
    }
}

/// Where a full name's executable name ends: at the first `[`, or failing one at the first
/// `::`, or at the end.
pub open spec fn name_end(b: Seq<u8>) -> int {
    if find_byte(b, 0x5b, 0) < b.len() {
        find_byte(b, 0x5b, 0)
    } else {
        find_pair(b, 0)
    }
}

/// The executable name from a kernel full name — `"foo[e0aa0000]0001"` becomes `"foo"`.
pub fn short_name(full: &str) -> (r: &str)
    ensures
        r.spec_bytes() == full.spec_bytes().subrange(0, name_end(full.spec_bytes())),
{
    let b = full.as_bytes();
    let ghost s = b@;
    let n = b.len();
    let mut i: usize = 0;
    while i < n && b[i] != 0x5b
        invariant
            b@ == s,
            n == s.len(),
            i <= n,
            find_byte(s, 0x5b, 0) == find_byte(s, 0x5b, i as int),
        decreases n - i,
    {
        i = i + 1;
    }
    let cut = if i < n {
        i
    } else {
        let mut j: usize = 0;
        while n > 0 && j < n - 1 && !(b[j] == 0x3a && b[j + 1] == 0x3a)
            invariant
                b@ == s,
                n == s.len(),
                j <= n,
                find_pair(s, 0) == find_pair(s, j as int),
            decreases n - j,
        {
            j = j + 1;
        }
        if n > 0 && j < n - 1 {
            j
        } else {
            n
        }
    };
    proof {
        crate::codec::lemma_str_bytes(full);
        is_char_boundary_start_end_of_seq(s);
        if cut < n {
            is_char_boundary_iff_not_is_continuation_byte(s, cut as int);
        }
    }
    let (head, _) = full.split_at(cut);
    head
}

} // verus!
