//! The HAL attribute ids the device snapshot reads by name: positional ordinals of
//! `HALData::TAttribute`, pinned against [`crate::hal::INVENTORY`] by a test, because a wrong
//! number reads exactly like a right one.

use vstd::prelude::*;

verus! {

/// `EMachineUid` — the model identifier.
pub const MACHINE_UID: i32 = 5;

/// `ECPUSpeed`, in kHz.
pub const CPU_SPEED: i32 = 11;

/// `EDisplayXPixels`.
pub const DISPLAY_X_PIXELS: i32 = 31;

/// `EDisplayYPixels`.
pub const DISPLAY_Y_PIXELS: i32 = 32;

} // verus!
