//! The system clipboard: what a copy hands over and what a paste keeps.
//!
//! The clipboard itself is a stream store the platform writes; the rules about what may be
//! put there and how much of a long one is read back are here.

use vstd::prelude::*;

use crate::codec::{reply_len, reply_text, str_is_empty, utf16_lossy};
use crate::error::{Error, Result};
use crate::fs::{encode_utf16, utf16};

verus! {

/// How much of a long clipboard one paste delivers, in UTF-16 units.
pub const MAX_UNITS: usize = 4096;

/// What a copy of `text` hands to the platform: its UTF-16. Empty text is refused with
/// [`Error::Argument`] rather than silently clearing whatever the user had copied.
pub fn copy_units(text: &str) -> (r: Result<Vec<u16>>)
    ensures
        text@.len() == 0 ==> r == Err::<Vec<u16>, Error>(Error::Argument),
        text@.len() > 0 ==> (r matches Ok(u) && u@ == utf16(text@)),
{
    if str_is_empty(text) {
        return Err(Error::Argument);
    }
    Ok(encode_utf16(text))
}

/// The text a paste delivers from the units the platform wrote: as many as it reported, no
/// more than the buffer, decoded lossily — half a character beats dropping the paste.
pub fn pasted(buf: &[u16], len: i32) -> (r: String)
    ensures
        r@ == utf16_lossy(buf@.subrange(0, reply_len(len, buf@.len()) as int)),
{
    reply_text(buf, len)
}

} // verus!
