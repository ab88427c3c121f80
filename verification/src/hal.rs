//! The `HALData::TAttribute`s a device dump asks about, with the names to print them under.
//!
//! The numeric values are the enum's ordinals: stable ABI, baked into every binary ever built
//! against a Symbian SDK. Reading them is the platform's; the table is here, grouped by subject
//! (identity, CPU, memory, power, display, input, timing) so a report reads like a description
//! of the handset.

use vstd::prelude::*;

verus! {

/// A `HALData::TAttribute` worth asking about, with the name to print it under.
#[derive(Copy, Clone, Debug, PartialEq, Eq)]
pub struct Attr {
    pub id: i32,
    pub name: &'static str,
}

/// How many attributes the inventory holds.
pub const COUNT: usize = 55;

/// The ordinals of the inventory, in the order a dump asks for them.
pub const IDS: [i32; 55] = [0, 1, 2, 3, 4, 5, 6, 7, 8, 9, 10, 11, 12, 13, 14, 15, 16, 17, 18, 19, 20, 21, 22, 23, 24, 25, 26, 27, 28, 29, 30, 31, 32, 33, 34, 35, 36, 37, 38, 39, 40, 41, 42, 43, 44, 45, 46, 47, 48, 49, 50, 51, 70, 71, 72];

/// The names of the inventory, in the same order as [`IDS`].
pub const NAMES: [&'static str; 55] = [
    "EManufacturer",
    "EManufacturerHardwareRev",
    "EManufacturerSoftwareRev",
    "EManufacturerSoftwareBuild",
    "EModel",
    "EMachineUid",
    "EDeviceFamily",
    "EDeviceFamilyRev",
    "ECPU",
    "ECPUArch",
    "ECPUABI",
    "ECPUSpeed",
    "ESystemStartupReason",
    "ESystemException",
    "ESystemTickPeriod",
    "EMemoryRAM",
    "EMemoryRAMFree",
    "EMemoryROM",
    "EMemoryPageSize",
    "EPowerGood",
    "EPowerBatteryStatus",
    "EPowerBackupStatus",
    "EPowerBackup",
    "EPowerExternal",
    "EKeyboard",
    "EKeyboardDeviceKeys",
    "EKeyboardAppKeys",
    "EKeyboardClick",
    "EKeyboardClickState",
    "EKeyboardClickVolume",
    "EKeyboardClickVolumeMax",
    "EDisplayXPixels",
    "EDisplayYPixels",
    "EDisplayXTwips",
    "EDisplayYTwips",
    "EDisplayColors",
    "EDisplayState",
    "EDisplayContrast",
    "EDisplayContrastMax",
    "EBacklight",
    "EBacklightState",
    "EDisplayBrightness",
    "EDisplayBrightnessMax",
    "EPen",
    "EPenX",
    "EPenY",
    "EPenDisplayOn",
    "EPenClick",
    "EPenClickState",
    "EPenClickVolume",
    "EPenClickVolumeMax",
    "EMouse",
    "ENanoTickPeriod",
    "EFastCounterFrequency",
    "EFastCounterCountsUp",
];

/// The attributes a device dump asks for, in the order it asks.
pub fn inventory() -> (r: Vec<Attr>)
    ensures
        r@.len() == COUNT,
        forall|i: int| 0 <= i < COUNT ==> #[trigger] r@[i] == (Attr { id: IDS@[i], name: NAMES@[i] }),
{
    let mut out: Vec<Attr> = Vec::new();
    let mut i: usize = 0;
    while i < COUNT
        invariant
            i <= COUNT,
            out@.len() == i,
            forall|k: int| 0 <= k < i ==> #[trigger] out@[k] == (Attr { id: IDS@[k], name: NAMES@[k] }),
        decreases COUNT - i,
    {
        out.push(Attr { id: IDS[i], name: NAMES[i] });
        i = i + 1;
    }
    out
}

/// Every attribute id appears once: the ordinals only ever increase, so no reading can be
/// printed twice under two names.
pub proof fn lemma_ids_increase()
    ensures
        forall|i: int, j: int| 0 <= i < j < COUNT ==> IDS@[i] < IDS@[j],
{
    assert(IDS@[0] < IDS@[1]);
    assert(IDS@[1] < IDS@[2]);
    assert(IDS@[2] < IDS@[3]);
    assert(IDS@[3] < IDS@[4]);
    assert(IDS@[4] < IDS@[5]);
    assert(IDS@[5] < IDS@[6]);
    assert(IDS@[6] < IDS@[7]);
    assert(IDS@[7] < IDS@[8]);
    assert(IDS@[8] < IDS@[9]);
    assert(IDS@[9] < IDS@[10]);
    assert(IDS@[10] < IDS@[11]);
    assert(IDS@[11] < IDS@[12]);
    assert(IDS@[12] < IDS@[13]);
    assert(IDS@[13] < IDS@[14]);
    assert(IDS@[14] < IDS@[15]);
    assert(IDS@[15] < IDS@[16]);
    assert(IDS@[16] < IDS@[17]);
    assert(IDS@[17] < IDS@[18]);
    assert(IDS@[18] < IDS@[19]);
    assert(IDS@[19] < IDS@[20]);
    assert(IDS@[20] < IDS@[21]);
    assert(IDS@[21] < IDS@[22]);
    assert(IDS@[22] < IDS@[23]);
    assert(IDS@[23] < IDS@[24]);
    assert(IDS@[24] < IDS@[25]);
    assert(IDS@[25] < IDS@[26]);
    assert(IDS@[26] < IDS@[27]);
    assert(IDS@[27] < IDS@[28]);
    assert(IDS@[28] < IDS@[29]);
    assert(IDS@[29] < IDS@[30]);
    assert(IDS@[30] < IDS@[31]);
    assert(IDS@[31] < IDS@[32]);
    assert(IDS@[32] < IDS@[33]);
    assert(IDS@[33] < IDS@[34]);
    assert(IDS@[34] < IDS@[35]);
    assert(IDS@[35] < IDS@[36]);
    assert(IDS@[36] < IDS@[37]);
    assert(IDS@[37] < IDS@[38]);
    assert(IDS@[38] < IDS@[39]);
    assert(IDS@[39] < IDS@[40]);
    assert(IDS@[40] < IDS@[41]);
    assert(IDS@[41] < IDS@[42]);
    assert(IDS@[42] < IDS@[43]);
    assert(IDS@[43] < IDS@[44]);
    assert(IDS@[44] < IDS@[45]);
    assert(IDS@[45] < IDS@[46]);
    assert(IDS@[46] < IDS@[47]);
    assert(IDS@[47] < IDS@[48]);
    assert(IDS@[48] < IDS@[49]);
    assert(IDS@[49] < IDS@[50]);
    assert(IDS@[50] < IDS@[51]);
    assert(IDS@[51] < IDS@[52]);
    assert(IDS@[52] < IDS@[53]);
    assert(IDS@[53] < IDS@[54]);
    assert forall|i: int, j: int| 0 <= i < j < COUNT implies IDS@[i] < IDS@[j] by {
        lemma_chain(i, j);
    }
}

proof fn lemma_chain(i: int, j: int)
    requires
        0 <= i < j < COUNT,
        forall|k: int| 0 <= k < COUNT - 1 ==> #[trigger] IDS@[k] < IDS@[k + 1],
    ensures
        IDS@[i] < IDS@[j],
    decreases j - i,
{
    if j > i + 1 {
        lemma_chain(i, j - 1);
        assert(IDS@[j - 1] < IDS@[j]);
    } else {
        assert(IDS@[i] < IDS@[i + 1]);
    }
}

} // verus!
