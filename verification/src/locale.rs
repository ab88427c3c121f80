//! What language the phone is set to, mapped onto the languages an application speaks.
//!
//! `TLanguage` has around a hundred and sixty values, and the two that matter here are not
//! where anybody would guess: Portugal's Portuguese is 13, Brazil's is 76, and English is eight
//! values. Everything nobody translated into reads as English: an untranslated screen is
//! usable and a blank one is not.

use vstd::prelude::*;

verus! {

/// The languages an application here speaks.
#[derive(Copy, Clone, Debug, PartialEq, Eq, Structural)]
pub enum Lang {
    En,
    Pt,
}

/// `ELangPortuguese`, Portugal.
pub const PORTUGUESE: i32 = 13;

/// `ELangBrazilianPortuguese`: not adjacent to Portuguese, and the one a handset here reports.
pub const BRAZILIAN_PORTUGUESE: i32 = 76;

/// The platform's `TLanguage`, mapped onto what an application can speak. A code the shim
/// answers when it cannot read the locale is negative, which is no language and reads as
/// English like every other value nobody translated into.
pub fn from_platform(code: i32) -> (r: Lang)
    ensures
        r == (if code == PORTUGUESE || code == BRAZILIAN_PORTUGUESE {
            Lang::Pt
        } else {
            Lang::En
        }),
{
    if code == PORTUGUESE || code == BRAZILIAN_PORTUGUESE {
        Lang::Pt
    } else {
        Lang::En
    }
}

} // verus!
