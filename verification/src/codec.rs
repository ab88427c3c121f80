//! Little-endian integers and UTF-8 text: the two encodings every stored record here is
//! made of.
//!
//! Little-endian because the only two readers are an ARM handset and a host test, both
//! little-endian — and a format that said "native" would change meaning the day it was
//! cross-compiled somewhere else.

use vstd::prelude::*;
use vstd::string::StringSliceAdditionalSpecFns;
use vstd::utf8::*;

verus! {

broadcast use {vstd::seq::group_seq_axioms, vstd::slice::group_slice_axioms};

/// The two bytes of `v`, low first.
pub open spec fn le16(v: u16) -> Seq<u8> {
    seq![(v & 0xff) as u8, ((v >> 8u16) & 0xff) as u8]
}

/// The four bytes of `v`, low first.
pub open spec fn le32(v: u32) -> Seq<u8> {
    seq![
        (v & 0xff) as u8,
        ((v >> 8u32) & 0xff) as u8,
        ((v >> 16u32) & 0xff) as u8,
        ((v >> 24u32) & 0xff) as u8,
    ]
}

/// The eight bytes of `v`, low first.
pub open spec fn le64(v: u64) -> Seq<u8> {
    seq![
        (v & 0xff) as u8,
        ((v >> 8u64) & 0xff) as u8,
        ((v >> 16u64) & 0xff) as u8,
        ((v >> 24u64) & 0xff) as u8,
        ((v >> 32u64) & 0xff) as u8,
        ((v >> 40u64) & 0xff) as u8,
        ((v >> 48u64) & 0xff) as u8,
        ((v >> 56u64) & 0xff) as u8,
    ]
}

/// An `i64` as two's complement, low byte first.
pub open spec fn le_i64(v: i64) -> Seq<u8> {
    le64(v as u64)
}

/// An `i32` as two's complement, low byte first.
pub open spec fn le_i32(v: i32) -> Seq<u8> {
    le32(v as u32)
}

/// The `u16` whose little-endian bytes start at `at`.
pub open spec fn read16(s: Seq<u8>, at: int) -> u16 {
    ((s[at] as u16) | ((s[at + 1] as u16) << 8u16)) as u16
}

/// The `u32` whose little-endian bytes start at `at`.
pub open spec fn read32(s: Seq<u8>, at: int) -> u32 {
    ((s[at] as u32) | ((s[at + 1] as u32) << 8u32) | ((s[at + 2] as u32) << 16u32) | ((s[at
        + 3] as u32) << 24u32)) as u32
}

/// The `u64` whose little-endian bytes start at `at`.
pub open spec fn read64(s: Seq<u8>, at: int) -> u64 {
    ((s[at] as u64) | ((s[at + 1] as u64) << 8u64) | ((s[at + 2] as u64) << 16u64) | ((s[at
        + 3] as u64) << 24u64) | ((s[at + 4] as u64) << 32u64) | ((s[at + 5] as u64) << 40u64)
        | ((s[at + 6] as u64) << 48u64) | ((s[at + 7] as u64) << 56u64)) as u64
}

pub proof fn lemma_read16_le16(v: u16, pre: Seq<u8>, post: Seq<u8>)
    ensures
        read16(pre + le16(v) + post, pre.len() as int) == v,
{
    let s = pre + le16(v) + post;
    let n = pre.len() as int;
    assert(s[n] == (v & 0xff) as u8);
    assert(s[n + 1] == ((v >> 8u16) & 0xff) as u8);
    let b0 = (v & 0xff) as u8;
    let b1 = ((v >> 8u16) & 0xff) as u8;
    assert(((b0 as u16) | ((b1 as u16) << 8u16)) == v) by (bit_vector)
        requires
            b0 == (v & 0xff) as u8,
            b1 == ((v >> 8u16) & 0xff) as u8,
    ;
}

pub proof fn lemma_read32_le32(v: u32, pre: Seq<u8>, post: Seq<u8>)
    ensures
        read32(pre + le32(v) + post, pre.len() as int) == v,
{
    let s = pre + le32(v) + post;
    let n = pre.len() as int;
    let b0 = (v & 0xff) as u8;
    let b1 = ((v >> 8u32) & 0xff) as u8;
    let b2 = ((v >> 16u32) & 0xff) as u8;
    let b3 = ((v >> 24u32) & 0xff) as u8;
    assert(s[n] == b0 && s[n + 1] == b1 && s[n + 2] == b2 && s[n + 3] == b3);
    assert(((b0 as u32) | ((b1 as u32) << 8u32) | ((b2 as u32) << 16u32) | ((b3 as u32)
        << 24u32)) == v) by (bit_vector)
        requires
            b0 == (v & 0xff) as u8,
            b1 == ((v >> 8u32) & 0xff) as u8,
            b2 == ((v >> 16u32) & 0xff) as u8,
            b3 == ((v >> 24u32) & 0xff) as u8,
    ;
}

pub proof fn lemma_read64_le64(v: u64, pre: Seq<u8>, post: Seq<u8>)
    ensures
        read64(pre + le64(v) + post, pre.len() as int) == v,
{
    let s = pre + le64(v) + post;
    let n = pre.len() as int;
    let b0 = (v & 0xff) as u8;
    let b1 = ((v >> 8u64) & 0xff) as u8;
    let b2 = ((v >> 16u64) & 0xff) as u8;
    let b3 = ((v >> 24u64) & 0xff) as u8;
    let b4 = ((v >> 32u64) & 0xff) as u8;
    let b5 = ((v >> 40u64) & 0xff) as u8;
    let b6 = ((v >> 48u64) & 0xff) as u8;
    let b7 = ((v >> 56u64) & 0xff) as u8;
    assert(s[n] == b0 && s[n + 1] == b1 && s[n + 2] == b2 && s[n + 3] == b3);
    assert(s[n + 4] == b4 && s[n + 5] == b5 && s[n + 6] == b6 && s[n + 7] == b7);
    assert(((b0 as u64) | ((b1 as u64) << 8u64) | ((b2 as u64) << 16u64) | ((b3 as u64)
        << 24u64) | ((b4 as u64) << 32u64) | ((b5 as u64) << 40u64) | ((b6 as u64) << 48u64)
        | ((b7 as u64) << 56u64)) == v) by (bit_vector)
        requires
            b0 == (v & 0xff) as u8,
            b1 == ((v >> 8u64) & 0xff) as u8,
            b2 == ((v >> 16u64) & 0xff) as u8,
            b3 == ((v >> 24u64) & 0xff) as u8,
            b4 == ((v >> 32u64) & 0xff) as u8,
            b5 == ((v >> 40u64) & 0xff) as u8,
            b6 == ((v >> 48u64) & 0xff) as u8,
            b7 == ((v >> 56u64) & 0xff) as u8,
    ;
}

pub proof fn lemma_i64_bits(v: i64)
    ensures
        (v as u64) as i64 == v,
{
    assert((v as u64) as i64 == v) by (bit_vector);
}

pub proof fn lemma_i32_bits(v: i32)
    ensures
        (v as u32) as i32 == v,
{
    assert((v as u32) as i32 == v) by (bit_vector);
}

/// Append the two bytes of `v`.
pub fn push_u16(out: &mut Vec<u8>, v: u16)
    ensures
        final(out)@ == old(out)@ + le16(v),
{
    out.push((v & 0xff) as u8);
    out.push(((v >> 8u16) & 0xff) as u8);
    assert(final(out)@ =~= old(out)@ + le16(v));
}

/// Append the four bytes of `v`.
pub fn push_u32(out: &mut Vec<u8>, v: u32)
    ensures
        final(out)@ == old(out)@ + le32(v),
{
    out.push((v & 0xff) as u8);
    out.push(((v >> 8u32) & 0xff) as u8);
    out.push(((v >> 16u32) & 0xff) as u8);
    out.push(((v >> 24u32) & 0xff) as u8);
    assert(final(out)@ =~= old(out)@ + le32(v));
}

/// Append the eight bytes of `v`.
pub fn push_u64(out: &mut Vec<u8>, v: u64)
    ensures
        final(out)@ == old(out)@ + le64(v),
{
    out.push((v & 0xff) as u8);
    out.push(((v >> 8u64) & 0xff) as u8);
    out.push(((v >> 16u64) & 0xff) as u8);
    out.push(((v >> 24u64) & 0xff) as u8);
    out.push(((v >> 32u64) & 0xff) as u8);
    out.push(((v >> 40u64) & 0xff) as u8);
    out.push(((v >> 48u64) & 0xff) as u8);
    out.push(((v >> 56u64) & 0xff) as u8);
    assert(final(out)@ =~= old(out)@ + le64(v));
}

/// The `u16` at `at`.
pub fn get_u16(s: &[u8], at: usize) -> (r: u16)
    requires
        at + 2 <= s@.len(),
    ensures
        r == read16(s@, at as int),
{
    (s[at] as u16) | ((s[at + 1] as u16) << 8u16)
}

/// The `u32` at `at`.
pub fn get_u32(s: &[u8], at: usize) -> (r: u32)
    requires
        at + 4 <= s@.len(),
    ensures
        r == read32(s@, at as int),
{
    (s[at] as u32) | ((s[at + 1] as u32) << 8u32) | ((s[at + 2] as u32) << 16u32) | ((s[at
        + 3] as u32) << 24u32)
}

/// The `u64` at `at`.
pub fn get_u64(s: &[u8], at: usize) -> (r: u64)
    requires
        at + 8 <= s@.len(),
    ensures
        r == read64(s@, at as int),
{
    (s[at] as u64) | ((s[at + 1] as u64) << 8u64) | ((s[at + 2] as u64) << 16u64) | ((s[at
        + 3] as u64) << 24u64) | ((s[at + 4] as u64) << 32u64) | ((s[at + 5] as u64) << 40u64)
        | ((s[at + 6] as u64) << 48u64) | ((s[at + 7] as u64) << 56u64)
}

/// Append a byte slice.
pub fn push_bytes(out: &mut Vec<u8>, b: &[u8])
    ensures
        final(out)@ == old(out)@ + b@,
{
    out.extend_from_slice(b);
}

/// `s[a..b]` as a sequence.
pub open spec fn sub(s: Seq<u8>, a: int, b: int) -> Seq<u8> {
    s.subrange(a, b)
}

/// The text `bytes` spells, when they are UTF-8. `core::str::from_utf8`.
#[verifier::external_body]
pub(crate) fn utf8_str(bytes: &[u8]) -> (r: Option<&str>)
    ensures
        r is Some <==> valid_utf8(bytes@),
        r matches Some(s) ==> s.spec_bytes() == bytes@,
{
    core::str::from_utf8(bytes).ok()
}

/// A character appended to a string. `String::push`.
#[verifier::external_body]
pub(crate) fn push_char(s: &mut String, c: char)
    ensures
        final(s)@ == old(s)@.push(c),
{
    s.push(c);
}

/// A leading surrogate: the first half of a pair.
pub open spec fn is_lead(u: u16) -> bool {
    0xD800 <= u < 0xDC00
}

/// A trailing surrogate: the second half of a pair.
pub open spec fn is_trail(u: u16) -> bool {
    0xDC00 <= u < 0xE000
}

/// The character a surrogate pair stands for.
pub open spec fn pair_char(lead: u16, trail: u16) -> char {
    (0x10000 + (lead - 0xD800) * 0x400 + (trail - 0xDC00)) as char
}

/// The text a run of UTF-16 units spells: a leading surrogate followed by a trailing one is
/// the character the pair stands for, a surrogate without its partner is U+FFFD, and every
/// other unit is the character it codes.
pub open spec fn utf16_lossy(units: Seq<u16>) -> Seq<char>
    decreases units.len(),
{
    if units.len() == 0 {
        Seq::empty()
    } else if units.len() >= 2 && is_lead(units[0]) && is_trail(units[1]) {
        seq![pair_char(units[0], units[1])] + utf16_lossy(units.subrange(2, units.len() as int))
    } else if is_lead(units[0]) || is_trail(units[0]) {
        seq!['\u{FFFD}'] + utf16_lossy(units.subrange(1, units.len() as int))
    } else {
        seq![units[0] as char] + utf16_lossy(units.subrange(1, units.len() as int))
    }
}

/// The text a run of UTF-16 units spells, each unpaired surrogate replaced by U+FFFD.
/// `String::from_utf16_lossy`.
#[verifier::external_body]
pub(crate) fn from_utf16_lossy(units: &[u16]) -> (r: String)
    ensures
        r@ == utf16_lossy(units@),
{
    String::from_utf16_lossy(units)
}

/// How many of the `len` units a reply reported a buffer of `cap` holds: none for a
/// negative count, never more than the buffer.
pub open spec fn reply_len(len: i32, cap: nat) -> nat {
    if len <= 0 {
        0
    } else if len as nat <= cap {
        len as nat
    } else {
        cap
    }
}

/// The text of a reply the platform wrote into `buf`, reporting `len` units: as many as it
/// reported and no more than the buffer, decoded lossily.
pub fn reply_text(buf: &[u16], len: i32) -> (r: String)
    ensures
        r@ == utf16_lossy(buf@.subrange(0, reply_len(len, buf@.len()) as int)),
{
    let n: usize = if len <= 0 {
        0
    } else if (len as usize) <= buf.len() {
        len as usize
    } else {
        buf.len()
    };
    from_utf16_lossy(vstd::slice::slice_subrange(buf, 0, n))
}

/// Append a string slice, a character at a time.
pub fn push_str(out: &mut String, s: &str)
    ensures
        final(out)@ == old(out)@ + s@,
{
    broadcast use vstd::string::axiom_spec_iter;

    let ghost start = out@;
    for c in it: s.chars()
        invariant
            it.seq() == s@,
            out@ == start + s@.take(it.index() as int),
    {
        proof {
            assert(s@.take(it.index() + 1) =~= s@.take(it.index() as int).push(c));
        }
        push_char(out, c);
        assert(out@ =~= start + s@.take(it.index() + 1));
    }
    assert(s@.take(s@.len() as int) =~= s@);
}

/// A digit's character.
pub open spec fn digit(d: nat) -> char {
    ((48 + d) as u32) as char
}

/// `v` in decimal, no leading zeros.
pub open spec fn decimal(v: nat) -> Seq<char>
    decreases v,
{
    if v < 10 {
        seq![digit(v)]
    } else {
        decimal(v / 10).push(digit(v % 10))
    }
}

proof fn lemma_decimal_step(v: nat)
    ensures
        v < 10 ==> decimal(v) == seq![digit(v % 10)],
        v >= 10 ==> decimal(v) == decimal(v / 10).push(digit(v % 10)),
{
}

/// Append `v` in decimal.
pub fn push_decimal(s: &mut String, v: u64)
    ensures
        final(s)@ == old(s)@ + decimal(v as nat),
{
    let ghost start = s@;
    let ghost whole = v as nat;
    let mut v = v;
    let mut d: Vec<char> = Vec::new();
    loop
        invariant_except_break
            decimal(whole) == decimal(v as nat) + d@.reverse(),
        invariant
            s@ == start,
        ensures
            decimal(whole) == d@.reverse(),
        decreases v,
    {
        let digit_char = ((48 + (v % 10)) as u8) as char;
        proof {
            lemma_decimal_step(v as nat);
            assert(digit_char == digit((v % 10) as nat));
            assert(d@.push(digit_char).reverse() =~= seq![digit_char] + d@.reverse());
            if v >= 10 {
                assert(decimal(v as nat) + d@.reverse() =~= decimal((v / 10) as nat) + d@.push(
                    digit_char,
                ).reverse());
            } else {
                assert(decimal(v as nat) + d@.reverse() =~= d@.push(digit_char).reverse());
            }
        }
        d.push(digit_char);
        v = v / 10;
        if v == 0 {
            break;
        }
    }
    let mut k = d.len();
    while k > 0
        invariant
            k <= d@.len(),
            s@ == start + d@.reverse().take((d@.len() - k) as int),
        decreases k,
    {
        k = k - 1;
        push_char(s, d[k]);
        assert(s@ =~= start + d@.reverse().take((d@.len() - k) as int));
    }
    assert(d@.reverse().take(d@.len() as int) =~= d@.reverse());
}

/// The owned copy of a string slice.
pub fn owned(s: &str) -> (r: String)
    ensures
        r@ == s@,
{
    s.to_owned()
}

/// The characters of a valid UTF-8 byte string, as a `String`.
pub fn string_from_utf8(bytes: &[u8]) -> (r: Option<String>)
    ensures
        r is Some <==> valid_utf8(bytes@),
        r matches Some(s) ==> s@ == decode_utf8(bytes@),
{
    match utf8_str(bytes) {
        Some(s) => {
            proof {
                decode_utf8_encode_utf8(bytes@);
                encode_utf8_decode_utf8(s@);
            }
            Some(owned(s))
        },
        None => None,
    }
}

/// Text is empty exactly when its encoding is.
pub proof fn lemma_utf8_empty(s: Seq<char>)
    ensures
        (encode_utf8(s).len() == 0) == (s.len() == 0),
{
    if s.len() > 0 {
        assert(encode_scalar(s[0] as u32).len() >= 1);
    }
}

/// No more characters than bytes.
pub proof fn lemma_chars_le_bytes(s: Seq<char>)
    ensures
        s.len() <= encode_utf8(s).len(),
    decreases s.len(),
{
    if s.len() > 0 {
        lemma_chars_le_bytes(s.drop_first());
        assert(encode_scalar(s[0] as u32).len() >= 1);
    }
}

/// A string slice is empty (in bytes) exactly when it has no characters.
pub fn str_is_empty(s: &str) -> (r: bool)
    ensures
        r == (s@.len() == 0),
        r == (s.spec_bytes().len() == 0),
{
    proof {
        lemma_utf8_empty(s@);
    }
    s.as_bytes().len() == 0
}

/// A string's bytes, as the encoding that produced them.
pub proof fn lemma_str_bytes(s: &str)
    ensures
        valid_utf8(s.spec_bytes()),
        decode_utf8(s.spec_bytes()) == s@,
{
    encode_utf8_valid_utf8(s@);
    encode_utf8_decode_utf8(s@);
}

/// The largest `i <= n` that is a character boundary in `b` (or all of `b`, when `n` is
/// past its end).
pub open spec fn floor_at(b: Seq<u8>, n: int) -> int
    decreases n,
{
    if n >= b.len() {
        b.len() as int
    } else if n <= 0 || is_char_boundary(b, n) {
        if n <= 0 {
            0
        } else {
            n
        }
    } else {
        floor_at(b, n - 1)
    }
}

/// `b` cut to at most `max` bytes without splitting a character.
pub open spec fn cut_utf8(b: Seq<u8>, max: int) -> Seq<u8> {
    b.subrange(0, floor_at(b, max))
}

proof fn lemma_floor_at(b: Seq<u8>, n: int, i: int)
    requires
        valid_utf8(b),
        0 <= i <= n,
        i <= b.len(),
        is_char_boundary(b, i),
        n >= b.len() ==> i == b.len(),
        forall|j: int| i < j <= n ==> !is_char_boundary(b, j),
    ensures
        floor_at(b, n) == i,
    decreases n,
{
    is_char_boundary_start_end_of_seq(b);
    if n >= b.len() {
    } else if n <= 0 {
    } else if is_char_boundary(b, n) {
    } else {
        lemma_floor_at(b, n - 1, i);
    }
}

/// Where [`floor_at`] lands: a character boundary, no further than `n` and no further
/// than the end.
pub proof fn lemma_floor_at_bounds(b: Seq<u8>, n: int)
    requires
        valid_utf8(b),
    ensures
        0 <= floor_at(b, n) <= b.len(),
        n >= 0 ==> floor_at(b, n) <= n,
        is_char_boundary(b, floor_at(b, n)),
    decreases n,
{
    is_char_boundary_start_end_of_seq(b);
    if n >= b.len() {
    } else if n <= 0 || is_char_boundary(b, n) {
    } else {
        lemma_floor_at_bounds(b, n - 1);
    }
}

/// A cut made by [`cut_utf8`] is itself UTF-8, fits, and spells a prefix of the text.
pub proof fn lemma_cut_utf8(b: Seq<u8>, max: int)
    requires
        valid_utf8(b),
        0 <= max,
    ensures
        cut_utf8(b, max).len() <= max,
        cut_utf8(b, max).len() <= b.len(),
        cut_utf8(b, max) == b.subrange(0, cut_utf8(b, max).len() as int),
        valid_utf8(cut_utf8(b, max)),
        decode_utf8(cut_utf8(b, max)) == decode_utf8(b).subrange(
            0,
            decode_utf8(cut_utf8(b, max)).len() as int,
        ),
        b.len() <= max ==> cut_utf8(b, max) == b,
{
    lemma_floor_at_bounds(b, max);
    let i = floor_at(b, max);
    valid_utf8_split(b, i);
    decode_utf8_split(b, i);
    if b.len() <= max {
        assert(b.subrange(0, i) =~= b);
    }
    let d = decode_utf8(b.subrange(0, i));
    assert(decode_utf8(b).subrange(0, d.len() as int) =~= d);
}

/// The text left after cutting its encoding to `max` bytes.
pub open spec fn cut_text(t: Seq<char>, max: int) -> Seq<char> {
    decode_utf8(cut_utf8(encode_utf8(t), max))
}

/// What [`cut_text`] keeps: a prefix that fits, and the whole text when it already fit.
pub proof fn lemma_cut_text(t: Seq<char>, max: int)
    requires
        0 <= max,
    ensures
        encode_utf8(cut_text(t, max)) == cut_utf8(encode_utf8(t), max),
        encode_utf8(cut_text(t, max)).len() <= max,
        cut_text(t, max) == t.subrange(0, cut_text(t, max).len() as int),
        encode_utf8(t).len() <= max ==> cut_text(t, max) == t,
{
    let b = encode_utf8(t);
    encode_utf8_valid_utf8(t);
    encode_utf8_decode_utf8(t);
    lemma_cut_utf8(b, max);
    decode_utf8_encode_utf8(cut_utf8(b, max));
}

/// The largest `i <= n` that is a character boundary in `s`.
pub fn floor_boundary(s: &str, n: usize) -> (i: usize)
    ensures
        i <= n,
        i <= s.spec_bytes().len(),
        is_char_boundary(s.spec_bytes(), i as int),
        n >= s.spec_bytes().len() ==> i == s.spec_bytes().len(),
        forall|j: int| i < j <= n ==> !is_char_boundary(s.spec_bytes(), j),
        i == floor_at(s.spec_bytes(), n as int),
{
    let ghost b = s.spec_bytes();
    proof {
        lemma_str_bytes(s);
        is_char_boundary_start_end_of_seq(b);
    }
    let len = s.as_bytes().len();
    let mut i = if n < len { n } else { len };
    while i > 0 && !s.is_char_boundary(i)
        invariant
            b == s.spec_bytes(),
            valid_utf8(b),
            len == b.len(),
            i <= n,
            i <= len,
            n >= len ==> i == len,
            is_char_boundary(b, len as int),
            forall|j: int| i < j <= n ==> !is_char_boundary(b, j),
        decreases i,
    {
        i = i - 1;
    }
    proof {
        if i == 0 {
            is_char_boundary_start_end_of_seq(b);
        }
        assert forall|j: int| i < j <= n implies !is_char_boundary(b, j) by {
            if j > len {
                reveal_with_fuel(is_char_boundary, 1);
            }
        }
        lemma_floor_at(b, n as int, i as int);
    }
    i
}

/// `s` cut to at most `max` bytes without splitting a character.
pub fn truncate_on_boundary(s: &str, max: usize) -> (r: &str)
    ensures
        r.spec_bytes() == cut_utf8(s.spec_bytes(), max as int),
        r.spec_bytes() == s.spec_bytes().subrange(0, r.spec_bytes().len() as int),
        r.spec_bytes().len() <= max,
        s.spec_bytes().len() <= max ==> r@ == s@,
        r@ == s@.subrange(0, r@.len() as int),
        forall|j: int|
            r.spec_bytes().len() < j <= max ==> !is_char_boundary(s.spec_bytes(), j),
{
    let end = floor_boundary(s, max);
    let (head, _tail) = s.split_at(end);
    proof {
        let b = s.spec_bytes();
        lemma_str_bytes(s);
        lemma_str_bytes(head);
        decode_utf8_split(b, end as int);
        valid_utf8_split(b, end as int);
        assert(head@ == decode_utf8(b.subrange(0, end as int)));
        if b.len() <= max {
            assert(b.subrange(0, end as int) =~= b);
        }
    }
    head
}

} // verus!
