//! Length-prefixed fields, for the small blobs this project keeps in the data cage.
//!
//! Every stored record here is a few integers and a few strings, written once and read back on
//! the next run, with the same two hazards: a device that loses power mid-write, and a format
//! that has to survive the next version of the code.
//!
//! Length-prefixed rather than delimited, because the strings are URLs and a URL can contain
//! anything. Every read returns `Option`, so that decoding a record is a chain of `?` and a
//! truncated file is `None` rather than a panic.

use vstd::prelude::*;
use vstd::string::StringSliceAdditionalSpecFns;
use vstd::utf8::*;

use crate::codec::{
    cut_utf8, floor_boundary, lemma_cut_utf8, lemma_floor_at_bounds, lemma_i32_bits,
    lemma_read16_le16, lemma_str_bytes, le16, push_bytes, push_u16, read16, read32, utf8_str,
};

verus! {

broadcast use {vstd::seq::group_seq_axioms, vstd::slice::group_slice_axioms};

/// The longest string a field carries, in bytes.
pub const MAX_FIELD: usize = 0xffff;

/// The bytes a string is stored as: cut on a character boundary to [`MAX_FIELD`].
pub open spec fn field_text(s: Seq<char>) -> Seq<u8> {
    cut_utf8(encode_utf8(s), MAX_FIELD as int)
}

/// A string as a field: its stored length, then its stored bytes.
pub open spec fn field(s: Seq<char>) -> Seq<u8> {
    le16(field_text(s).len() as u16) + field_text(s)
}

/// Append a string with a 16-bit length in front of it. Longer than 64 KiB is clamped rather
/// than refused, and clamped on a character boundary, so what comes back is still UTF-8.
pub fn put_str(out: &mut Vec<u8>, s: &str)
    ensures
        final(out)@ == old(out)@ + field(s@),
{
    proof {
        lemma_str_bytes(s);
        lemma_floor_at_bounds(s.spec_bytes(), MAX_FIELD as int);
    }
    let n = floor_boundary(s, MAX_FIELD);
    let bytes = vstd::slice::slice_subrange(s.as_bytes(), 0, n);
    push_u16(out, n as u16);
    push_bytes(out, bytes);
    assert(bytes@ =~= field_text(s@));
}

/// What a length-prefixed string at `p` reads as: its bytes and where the next field starts,
/// or `None` when the length or the bytes run off the end.
pub open spec fn field_at(b: Seq<u8>, p: int) -> Option<(Seq<u8>, int)> {
    if p + 2 > b.len() {
        None
    } else {
        let n = read16(b, p) as int;
        if p + 2 + n > b.len() {
            None
        } else {
            Some((b.subrange(p + 2, p + 2 + n), p + 2 + n))
        }
    }
}

/// A cursor over a blob, borrowing from it.
pub struct Reader<'a> {
    b: &'a [u8],
    p: usize,
}

impl<'a> View for Reader<'a> {
    /// The blob, and how far into it the cursor stands.
    type V = (Seq<u8>, nat);

    closed spec fn view(&self) -> (Seq<u8>, nat) {
        (self.b@, self.p as nat)
    }
}

impl<'a> Reader<'a> {
    #[verifier::type_invariant]
    closed spec fn inside(self) -> bool {
        self.p <= self.b@.len()
    }

    /// The cursor's position.
    pub open spec fn pos(&self) -> nat {
        self@.1
    }

    /// The blob it reads.
    pub open spec fn data(&self) -> Seq<u8> {
        self@.0
    }

    pub fn new(bytes: &'a [u8]) -> (r: Self)
        ensures
            r.data() == bytes@,
            r.pos() == 0,
    {
        Reader { b: bytes, p: 0 }
    }

    /// How many bytes are left, for a caller deciding whether another record could fit.
    pub fn remaining(&self) -> (r: usize)
        ensures
            r == self.data().len() - self.pos(),
            self.pos() <= self.data().len(),
    {
        proof {
            use_type_invariant(self);
        }
        self.b.len() - self.p
    }

    pub fn at_end(&self) -> (r: bool)
        ensures
            r == (self.pos() == self.data().len()),
    {
        self.remaining() == 0
    }

    /// The next `n` bytes, or `None` (and no move) when fewer are left.
    pub fn take(&mut self, n: usize) -> (r: Option<&'a [u8]>)
        ensures
            final(self).data() == old(self).data(),
            old(self).pos() + n <= old(self).data().len() ==> {
                &&& r matches Some(s) && s@ == old(self).data().subrange(
                    old(self).pos() as int,
                    old(self).pos() + n,
                )
                &&& final(self).pos() == old(self).pos() + n
            },
            old(self).pos() + n > old(self).data().len() ==> r is None && final(self).pos()
                == old(self).pos(),
    {
        proof {
            use_type_invariant(&*self);
        }
        if n > self.b.len() - self.p {
            return None;
        }
        let end = self.p + n;
        let s = vstd::slice::slice_subrange(self.b, self.p, end);
        self.p = end;
        Some(s)
    }

    pub fn u8(&mut self) -> (r: Option<u8>)
        ensures
            final(self).data() == old(self).data(),
            old(self).pos() + 1 <= old(self).data().len() ==> r == Some(
                old(self).data()[old(self).pos() as int],
            ) && final(self).pos() == old(self).pos() + 1,
            old(self).pos() + 1 > old(self).data().len() ==> r is None && final(self).pos()
                == old(self).pos(),
    {
        match self.take(1) {
            Some(s) => Some(s[0]),
            None => None,
        }
    }

    pub fn u16(&mut self) -> (r: Option<u16>)
        ensures
            final(self).data() == old(self).data(),
            old(self).pos() + 2 <= old(self).data().len() ==> r == Some(
                read16(old(self).data(), old(self).pos() as int),
            ) && final(self).pos() == old(self).pos() + 2,
            old(self).pos() + 2 > old(self).data().len() ==> r is None && final(self).pos()
                == old(self).pos(),
    {
        match self.take(2) {
            Some(s) => Some(crate::codec::get_u16(s, 0)),
            None => None,
        }
    }

    pub fn u32(&mut self) -> (r: Option<u32>)
        ensures
            final(self).data() == old(self).data(),
            old(self).pos() + 4 <= old(self).data().len() ==> r == Some(
                read32(old(self).data(), old(self).pos() as int),
            ) && final(self).pos() == old(self).pos() + 4,
            old(self).pos() + 4 > old(self).data().len() ==> r is None && final(self).pos()
                == old(self).pos(),
    {
        match self.take(4) {
            Some(s) => Some(crate::codec::get_u32(s, 0)),
            None => None,
        }
    }

    pub fn i32(&mut self) -> (r: Option<i32>)
        ensures
            final(self).data() == old(self).data(),
            old(self).pos() + 4 <= old(self).data().len() ==> r == Some(
                read32(old(self).data(), old(self).pos() as int) as i32,
            ) && final(self).pos() == old(self).pos() + 4,
            old(self).pos() + 4 > old(self).data().len() ==> r is None && final(self).pos()
                == old(self).pos(),
    {
        match self.take(4) {
            Some(s) => Some(crate::codec::get_u32(s, 0) as i32),
            None => None,
        }
    }

    /// A length-prefixed string, borrowed. `None` for a length that runs off the end **or**
    /// for bytes that are not UTF-8 — a damaged record rather than something to salvage.
    pub fn str(&mut self) -> (r: Option<&'a str>)
        ensures
            final(self).data() == old(self).data(),
            match field_at(old(self).data(), old(self).pos() as int) {
                Some((t, next)) => {
                    &&& final(self).pos() == next
                    &&& r is Some <==> valid_utf8(t)
                    &&& r matches Some(s) ==> s.spec_bytes() == t
                },
                None => r is None,
            },
    {
        let n = match self.u16() {
            Some(n) => n as usize,
            None => {
                return None;
            },
        };
        let s = match self.take(n) {
            Some(s) => s,
            None => {
                return None;
            },
        };
        utf8_str(s)
    }

    /// The same, owned, for a decoder that keeps its records.
    pub fn string(&mut self) -> (r: Option<String>)
        ensures
            final(self).data() == old(self).data(),
            match field_at(old(self).data(), old(self).pos() as int) {
                Some((t, next)) => {
                    &&& final(self).pos() == next
                    &&& r is Some <==> valid_utf8(t)
                    &&& r matches Some(s) ==> s@ == decode_utf8(t)
                },
                None => r is None,
            },
    {
        match self.str() {
            Some(s) => {
                proof {
                    lemma_str_bytes(s);
                }
                Some(crate::codec::owned(s))
            },
            None => None,
        }
    }
}

/// A field reads back as the string it was written from, cut on a character boundary to
/// [`MAX_FIELD`] bytes, and the next field starts right after it; a string that fits comes
/// back whole.
pub proof fn lemma_field_round_trip(s: Seq<char>, pre: Seq<u8>, post: Seq<u8>)
    ensures
        ({
            let b = pre + field(s) + post;
            let t = field_text(s);
            &&& field_at(b, pre.len() as int) == Some((t, (pre.len() + 2 + t.len()) as int))
            &&& valid_utf8(t)
            &&& decode_utf8(t) == s.subrange(0, decode_utf8(t).len() as int)
            &&& encode_utf8(s).len() <= MAX_FIELD ==> decode_utf8(t) == s
        }),
{
    let t = field_text(s);
    encode_utf8_valid_utf8(s);
    encode_utf8_decode_utf8(s);
    lemma_cut_utf8(encode_utf8(s), MAX_FIELD as int);
    let b = pre + field(s) + post;
    assert(b =~= pre + le16(t.len() as u16) + (t + post));
    lemma_read16_le16(t.len() as u16, pre, t + post);
    let p = pre.len() as int;
    assert(b.subrange(p + 2, p + 2 + t.len()) =~= t);
}

/// Fields written one after another read back one after another: `s`, then `t`, then the end
/// of the blob. An empty string is a field of its own, and does not swallow the next.
#[verifier::spinoff_prover]
pub proof fn lemma_fields_in_sequence(s: Seq<char>, t: Seq<char>)
    ensures
        field_at(field(s) + field(t), 0) == Some((field_text(s), field(s).len() as int)),
        field_at(field(s) + field(t), field(s).len() as int) == Some(
            (field_text(t), (field(s) + field(t)).len() as int),
        ),
        field(s).len() == 2 + field_text(s).len(),
        encode_utf8(s).len() <= MAX_FIELD ==> decode_utf8(field_text(s)) == s,
        encode_utf8(t).len() <= MAX_FIELD ==> decode_utf8(field_text(t)) == t,
{
    let fs = field(s);
    let ft = field(t);
    let b = fs + ft;
    assert(le16(field_text(s).len() as u16).len() == 2);
    assert(le16(field_text(t).len() as u16).len() == 2);
    lemma_field_round_trip(s, Seq::empty(), ft);
    assert(Seq::<u8>::empty() + fs + ft =~= b);
    lemma_field_round_trip(t, fs, Seq::empty());
    assert(fs + ft + Seq::<u8>::empty() =~= b);
}

} // verus!
