//! Central Repository keys this project reads and writes, and the one encoding it has to get
//! right by hand.
//!
//! Reading and writing a key is the platform's; the facts about which key is which were found
//! by measurement on the handset, and live here so two applications cannot disagree on them.

use vstd::prelude::*;

use crate::codec::{decimal, push_decimal};

verus! {

/// The repository naming the application the phone shows as its home screen: key `0x1` in
/// its base band holds that application's UID (the E7x "Modes" feature).
pub const IDLE_APP_REPO: u32 = 0x2001_5159;

/// The application UID, as an integer. `WriteDeviceData`, which the launcher declares.
pub const IDLE_APP_KEY_INT: u32 = 0x1;

/// The active mode, for context only.
pub const IDLE_MODE_KEY: u32 = 0x0;

/// The platform's own home screen, "Standby": the way back, held here because nothing on the
/// phone remembers it once it is overwritten.
pub const NATIVE_IDLE_UID: u32 = 0x1027_50F0;

/// A UID as plain decimal text, for the keys that store one that way: getting the base wrong
/// is silent, because both are strings the repository accepts.
pub fn uid_to_setting(uid3: u32) -> (r: String)
    ensures
        r@ == decimal(uid3 as nat),
{
    let mut s = String::new();
    push_decimal(&mut s, uid3 as u64);
    s
}

} // verus!
