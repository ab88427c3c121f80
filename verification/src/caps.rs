//! The capabilities Symbian 9.x defines, and the paths whose reachability depends on one.
//!
//! What the kernel says a process holds is only half the question; the other half is what a
//! capability actually opens, measured by touching something. Both tables are here; asking the
//! platform is the application's.

use vstd::prelude::*;

verus! {

/// A `TCapability`, with the name to print it under. The values are the enum's ordinals from
/// `e32capability.h`: ABI, compiled into every image's capability bitmask.
#[derive(Copy, Clone, Debug, PartialEq, Eq)]
pub struct Cap {
    pub id: i32,
    pub name: &'static str,
}

/// How many capabilities Symbian 9.x defines.
pub const CAP_COUNT: usize = 20;

/// Every capability's name, in ordinal order: the capability with ordinal `i` is named
/// `CAP_NAMES[i]`. All twenty, not only the interesting ones.
pub const CAP_NAMES: [&'static str; 20] = [
    "TCB",
    "CommDD",
    "PowerMgmt",
    "MultimediaDD",
    "ReadDeviceData",
    "WriteDeviceData",
    "DRM",
    "TrustedUI",
    "ProtServ",
    "DiskAdmin",
    "NetworkControl",
    "AllFiles",
    "SwEvent",
    "NetworkServices",
    "LocalServices",
    "ReadUserData",
    "WriteUserData",
    "Location",
    "SurroundingsDD",
    "UserEnvironment",
];

/// Every capability, in ordinal order: contiguous from zero.
pub fn all() -> (r: Vec<Cap>)
    ensures
        r@.len() == CAP_COUNT,
        forall|i: int| 0 <= i < CAP_COUNT ==> #[trigger] r@[i] == (Cap { id: i as i32, name: CAP_NAMES@[i] }),
{
    let mut out: Vec<Cap> = Vec::new();
    let mut i: usize = 0;
    while i < CAP_COUNT
        invariant
            i <= CAP_COUNT,
            out@.len() == i,
            forall|k: int| 0 <= k < i ==> #[trigger] out@[k] == (Cap { id: k as i32, name: CAP_NAMES@[k] }),
        decreases CAP_COUNT - i,
    {
        out.push(Cap { id: i as i32, name: CAP_NAMES[i] });
        i = i + 1;
    }
    out
}

/// A filesystem path whose accessibility depends on a capability, and the capability it
/// depends on. `RFs::Att` on it creates, modifies and destroys nothing; the *error* is the
/// measurement.
#[derive(Copy, Clone, Debug, PartialEq, Eq)]
pub struct Attempt {
    pub cap: &'static str,
    pub path: &'static str,
    /// What the path is, for the report.
    pub what: &'static str,
}

/// How many attempts the sweep makes.
pub const ATTEMPT_COUNT: usize = 5;

/// The capability each attempt probes.
pub const ATTEMPT_CAPS: [&'static str; 5] = [
    "AllFiles",
    "AllFiles",
    "TCB",
    "WriteDeviceData",
    "ReadUserData",
];

/// The path each attempt touches.
pub const ATTEMPT_PATHS: [&'static str; 5] = [
    "C:\\sys\\bin\\",
    "C:\\private\\10003a3f\\",
    "Z:\\sys\\bin\\",
    "C:\\resource\\",
    "C:\\Data\\",
];

/// What each attempt's path is, for a reader who should not have to know why it is
/// privileged.
pub const ATTEMPT_WHAT: [&'static str; 5] = [
    "the executable directory, unreadable without AllFiles",
    "AppArc's data cage — another application's private directory",
    "the ROM's executable directory",
    "the shared resource directory, writable only with WriteDeviceData",
    "the user's own files (a control: this should succeed everywhere)",
];

/// The paired half of [`all`]: capabilities that can be checked by touching something,
/// including a control that should succeed everywhere.
pub fn attempts() -> (r: Vec<Attempt>)
    ensures
        r@.len() == ATTEMPT_COUNT,
        forall|i: int| 0 <= i < ATTEMPT_COUNT ==> #[trigger] r@[i] == (Attempt {
            cap: ATTEMPT_CAPS@[i],
            path: ATTEMPT_PATHS@[i],
            what: ATTEMPT_WHAT@[i],
        }),
{
    let mut out: Vec<Attempt> = Vec::new();
    let mut i: usize = 0;
    while i < ATTEMPT_COUNT
        invariant
            i <= ATTEMPT_COUNT,
            out@.len() == i,
            forall|k: int| 0 <= k < i ==> #[trigger] out@[k] == (Attempt {
                cap: ATTEMPT_CAPS@[k],
                path: ATTEMPT_PATHS@[k],
                what: ATTEMPT_WHAT@[k],
            }),
        decreases ATTEMPT_COUNT - i,
    {
        out.push(Attempt { cap: ATTEMPT_CAPS[i], path: ATTEMPT_PATHS[i], what: ATTEMPT_WHAT[i] });
        i = i + 1;
    }
    out
}

/// Every attempt names a capability the table defines, so every row of the sweep can be
/// compared against the kernel's answer.
pub proof fn lemma_attempts_name_real_capabilities()
    ensures
        forall|i: int|
            0 <= i < ATTEMPT_COUNT ==> exists|k: int|
                0 <= k < CAP_COUNT && (#[trigger] ATTEMPT_CAPS@[i])@ == CAP_NAMES@[k]@,
{
    assert(ATTEMPT_CAPS@[0]@ == CAP_NAMES@[11]@);
    assert(ATTEMPT_CAPS@[1]@ == CAP_NAMES@[11]@);
    assert(ATTEMPT_CAPS@[2]@ == CAP_NAMES@[0]@);
    assert(ATTEMPT_CAPS@[3]@ == CAP_NAMES@[5]@);
    assert(ATTEMPT_CAPS@[4]@ == CAP_NAMES@[15]@);
}

} // verus!
