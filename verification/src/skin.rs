//! The active theme's colours: which tables exist, which backgrounds can be sampled, and how a
//! sample becomes one colour.
//!
//! Asking the skin server is the platform's; the identifiers, transcribed from
//! `aknsconstants.hrh` and checked against it by tests, and the arithmetic are here.

use vstd::prelude::*;

use crate::error::{spec_from_code, Error, Result};

verus! {

/// The major half of every skin item ID: the AknSkins UID (`EAknsMajorSkin`).
pub const MAJOR_SKIN: i32 = 0x1000_5a26;

/// Which of the theme's colour tables an entry comes from.
#[derive(Copy, Clone, Debug, PartialEq, Eq, Structural)]
pub enum Table {
    /// `EAknsMinorQsnComponentColors` — scrollbars, sliders, indicators.
    Component,
    /// `EAknsMinorQsnIconColors` — the colour a themed icon is tinted with.
    Icon,
    /// `EAknsMinorQsnTextColors` — every text role the platform names.
    Text,
    /// `EAknsMinorQsnLineColors` — rules and separators.
    Line,
    /// `EAknsMinorQsnOtherColors` — what did not fit anywhere else.
    Other,
    /// `EAknsMinorQsnHighlightColors` — the selection band and its text.
    Highlight,
}

/// A table's minor ID.
pub open spec fn table_minor(t: Table) -> i32 {
    match t {
        Table::Component => 0x3000,
        Table::Icon => 0x3200,
        Table::Text => 0x3300,
        Table::Line => 0x3400,
        Table::Other => 0x3500,
        Table::Highlight => 0x3600,
    }
}

impl Table {
    /// The minor ID the platform knows this table by.
    pub fn raw(self) -> (r: i32)
        ensures
            r == table_minor(self),
    {
        match self {
            Table::Component => 0x3000,
            Table::Icon => 0x3200,
            Table::Text => 0x3300,
            Table::Line => 0x3400,
            Table::Other => 0x3500,
            Table::Highlight => 0x3600,
        }
    }
}

/// Two tables never share a minor: one would be read and named the other.
pub proof fn lemma_table_minors_distinct(a: Table, b: Table)
    ensures
        a != b ==> table_minor(a) != table_minor(b),
{
}

/// Which themed background bitmap to sample.
#[derive(Copy, Clone, Debug, PartialEq, Eq, Structural)]
pub enum Background {
    /// `EAknsMinorQsnBgScreen` — behind the whole screen.
    Screen,
    /// `EAknsMinorQsnBgAreaStatus` — behind the status pane.
    Status,
    /// `EAknsMinorQsnBgAreaControl` — behind the control pane.
    Control,
    /// `EAknsMinorQsnBgAreaMain` — behind the main area.
    Main,
}

/// A background's minor ID.
pub open spec fn background_minor(b: Background) -> i32 {
    match b {
        Background::Screen => 0x1000,
        Background::Status => 0x1010,
        Background::Control => 0x1020,
        Background::Main => 0x1100,
    }
}

impl Background {
    /// The minor ID the platform knows this background by.
    pub fn raw(self) -> (r: i32)
        ensures
            r == background_minor(self),
    {
        match self {
            Background::Screen => 0x1000,
            Background::Status => 0x1010,
            Background::Control => 0x1020,
            Background::Main => 0x1100,
        }
    }
}

/// Pixels sampled from a themed background, and the bitmap they came from.
#[derive(Copy, Clone, Debug, PartialEq, Eq)]
pub struct Samples {
    /// Up to 16 colours, `0x00RRGGBB`, on an even grid across the bitmap.
    pub pixels: [u32; 16],
    /// How many of `pixels` are real.
    pub count: usize,
    /// The bitmap's own size.
    pub width: i32,
    pub height: i32,
}

/// The sum of one channel (the byte at `shift`) over the first `n` pixels.
pub open spec fn channel_sum(px: Seq<u32>, n: int, shift: u32) -> nat
    decreases n,
{
    if n <= 0 {
        0
    } else {
        channel_sum(px, n - 1, shift) + ((px[n - 1] >> shift) & 0xff) as nat
    }
}

/// The mean of the first `n` pixels, channel by channel, as `0x00RRGGBB`.
pub open spec fn mean_of(px: Seq<u32>, n: nat) -> u32 {
    let r = (channel_sum(px, n as int, 16) / n) as u32;
    let g = (channel_sum(px, n as int, 8) / n) as u32;
    let b = (channel_sum(px, n as int, 0) / n) as u32;
    (r << 16u32) | (g << 8u32) | b
}

proof fn lemma_channel_bound(px: Seq<u32>, n: int, shift: u32)
    requires
        0 <= n,
    ensures
        channel_sum(px, n, shift) <= 255 * n,
    decreases n,
{
    if n > 0 {
        lemma_channel_bound(px, n - 1, shift);
        let v = px[n - 1];
        assert((v >> shift) & 0xff <= 255) by (bit_vector);
    }
}

proof fn lemma_channel_uniform(px: Seq<u32>, n: int, shift: u32, p: u32)
    requires
        0 <= n <= px.len(),
        forall|i: int| 0 <= i < n ==> #[trigger] px[i] == p,
    ensures
        channel_sum(px, n, shift) == n * (((p >> shift) & 0xff) as int),
    decreases n,
{
    let c = ((p >> shift) & 0xff) as int;
    if n > 0 {
        lemma_channel_uniform(px, n - 1, shift, p);
        assert(px[n - 1] == p);
        assert(channel_sum(px, n, shift) == channel_sum(px, n - 1, shift) + c);
        assert(n * c == (n - 1) * c + c) by (nonlinear_arith);
    } else {
        assert(n * c == 0) by (nonlinear_arith)
            requires
                n == 0,
        ;
    }
}

/// Each channel of a mean stays in its own byte: red is the mean of the samples' red bytes,
/// green of their green, blue of their blue, and the top byte is clear. A run of one colour
/// averages to that colour.
pub proof fn lemma_mean_channels(px: Seq<u32>, n: nat)
    requires
        n > 0,
    ensures
        (mean_of(px, n) >> 16u32) & 0xff == channel_sum(px, n as int, 16) / n,
        (mean_of(px, n) >> 8u32) & 0xff == channel_sum(px, n as int, 8) / n,
        mean_of(px, n) & 0xff == channel_sum(px, n as int, 0) / n,
        mean_of(px, n) >> 24u32 == 0,
        n <= px.len() && (forall|i: int| 0 <= i < n ==> #[trigger] px[i] == px[0])
            ==> mean_of(px, n) == px[0] & 0xFF_FFFF,
{
    lemma_channel_bound(px, n as int, 16);
    lemma_channel_bound(px, n as int, 8);
    lemma_channel_bound(px, n as int, 0);
    let sr = channel_sum(px, n as int, 16);
    let sg = channel_sum(px, n as int, 8);
    let sb = channel_sum(px, n as int, 0);
    assert(sr / n <= 255 && sg / n <= 255 && sb / n <= 255) by (nonlinear_arith)
        requires
            n > 0,
            sr <= 255 * n,
            sg <= 255 * n,
            sb <= 255 * n,
    ;
    let r = (sr / n) as u32;
    let g = (sg / n) as u32;
    let b = (sb / n) as u32;
    assert(((((r << 16u32) | (g << 8u32) | b) >> 16u32) & 0xff == r) && ((((r << 16u32) | (g
        << 8u32) | b) >> 8u32) & 0xff == g) && (((r << 16u32) | (g << 8u32) | b) & 0xff == b)
        && (((r << 16u32) | (g << 8u32) | b) >> 24u32 == 0)) by (bit_vector)
        requires
            r <= 255,
            g <= 255,
            b <= 255,
    ;
    if n <= px.len() && (forall|i: int| 0 <= i < n ==> #[trigger] px[i] == px[0]) {
        let p = px[0];
        lemma_channel_uniform(px, n as int, 16, p);
        lemma_channel_uniform(px, n as int, 8, p);
        lemma_channel_uniform(px, n as int, 0, p);
        let cr = ((p >> 16u32) & 0xff) as int;
        let cg = ((p >> 8u32) & 0xff) as int;
        let cb = ((p >> 0u32) & 0xff) as int;
        assert((n * cr) / (n as int) == cr && (n * cg) / (n as int) == cg && (n * cb) / (n as int)
            == cb) by (nonlinear_arith)
            requires
                n > 0,
        ;
        assert((((((p >> 16u32) & 0xff) << 16u32) | (((p >> 8u32) & 0xff) << 8u32) | ((p
            >> 0u32) & 0xff)) == p & 0xFF_FFFF)) by (bit_vector);
    }
}

impl Samples {
    /// The average of the samples, channel by channel, as `0x00RRGGBB` — the midpoint of a
    /// gradient. `None` when nothing was sampled, rather than black.
    pub fn mean(&self) -> (r: Option<u32>)
        requires
            self.count <= 16,
        ensures
            self.count == 0 ==> r is None,
            self.count > 0 ==> r == Some(mean_of(self.pixels@, self.count as nat)),
    {
        if self.count == 0 {
            return None;
        }
        let mut r: u32 = 0;
        let mut g: u32 = 0;
        let mut b: u32 = 0;
        let mut i: usize = 0;
        while i < self.count
            invariant
                self.count <= 16,
                i <= self.count,
                r == channel_sum(self.pixels@, i as int, 16),
                g == channel_sum(self.pixels@, i as int, 8),
                b == channel_sum(self.pixels@, i as int, 0),
            decreases self.count - i,
        {
            proof {
                lemma_channel_bound(self.pixels@, i as int, 16);
                lemma_channel_bound(self.pixels@, i as int, 8);
                lemma_channel_bound(self.pixels@, i as int, 0);
            }
            let p = self.pixels[i];
            let pr = (p >> 16u32) & 0xff;
            let pg = (p >> 8u32) & 0xff;
            let pb = p & 0xff;
            assert(pr <= 255 && pg <= 255 && pb <= 255) by (bit_vector)
                requires
                    pr == (p >> 16u32) & 0xff,
                    pg == (p >> 8u32) & 0xff,
                    pb == p & 0xff,
            ;
            assert(pb == (p >> 0u32) & 0xff) by (bit_vector)
                requires
                    pb == p & 0xff,
            ;
            r = r + pr;
            g = g + pg;
            b = b + pb;
            i = i + 1;
        }
        let n = self.count as u32;
        Some(((r / n) << 16u32) | ((g / n) << 8u32) | (b / n))
    }
}


/// What a background sample call answered: `rc` below zero is the platform's error, otherwise
/// the number of samples it wrote, of which no more than the sixteen slots are kept.
pub fn samples_from(rc: i32, pixels: [u32; 16], width: i32, height: i32) -> (r: Result<Samples>)
    ensures
        rc < 0 ==> r == Err::<Samples, Error>(spec_from_code(rc)),
        rc >= 0 ==> r == Ok::<Samples, Error>(
            Samples {
                pixels,
                count: if rc <= 16 { rc as usize } else { 16 },
                width,
                height,
            },
        ),
{
    if rc < 0 {
        return Err(Error::from_code(rc));
    }
    let count: usize = if rc <= 16 { rc as usize } else { 16 };
    Ok(Samples { pixels, count, width, height })
}

/// The deepest index a walk asks for, plus one: the text table documents index 62.
pub const WALK_MAX: usize = 64;

/// A probe's walk over one colour table: index 0, 1, 2, ... until the first index the theme
/// does not populate, the buffer is full, or [`WALK_MAX`] indices have been asked.
///
/// The asking is the platform's; this holds where the walk stands, so the caller loops
/// `while let Some(i) = walk.want(buf.len()) { walk.answer(&mut buf, color(table, i).ok()) }`.
pub struct Walk {
    filled: usize,
    stopped: bool,
}

impl Walk {
    #[verifier::type_invariant]
    closed spec fn bounded(self) -> bool {
        self.filled <= WALK_MAX
    }

    /// How many entries the walk has filled.
    pub closed spec fn count(&self) -> nat {
        self.filled as nat
    }

    /// Whether the theme has refused an index.
    pub closed spec fn refused(&self) -> bool {
        self.stopped
    }

    /// A walk that has asked nothing yet.
    pub fn new() -> (w: Walk)
        ensures
            w.count() == 0,
            !w.refused(),
    {
        Walk { filled: 0, stopped: false }
    }

    /// The index to ask next, or `None` when the walk is over for a buffer of `cap` entries.
    pub fn want(&self, cap: usize) -> (r: Option<i32>)
        ensures
            r == (if !self.refused() && self.count() < cap && self.count() < WALK_MAX {
                Some(self.count() as i32)
            } else {
                None
            }),
            self.count() <= WALK_MAX,
    {
        proof {
            use_type_invariant(self);
        }
        if !self.stopped && self.filled < cap && self.filled < WALK_MAX {
            Some(self.filled as i32)
        } else {
            None
        }
    }

    /// Hand the walk the theme's answer for the index it asked: a colour is stored at the next
    /// slot as `(index, colour)`; a refusal ends the walk and changes nothing in `out`.
    pub fn answer(&mut self, out: &mut [(i32, u32)], colour: Option<u32>)
        requires
            !old(self).refused(),
            old(self).count() < old(out)@.len(),
            old(self).count() < WALK_MAX,
        ensures
            colour matches Some(c) ==> {
                &&& final(self).count() == old(self).count() + 1
                &&& !final(self).refused()
                &&& final(out)@ == old(out)@.update(
                    old(self).count() as int,
                    (old(self).count() as i32, c),
                )
            },
            colour is None ==> {
                &&& final(self).count() == old(self).count()
                &&& final(self).refused()
                &&& final(out)@ == old(out)@
            },
    {
        match colour {
            Some(c) => {
                out[self.filled] = (self.filled as i32, c);
                self.filled = self.filled + 1;
            },
            None => {
                self.stopped = true;
            },
        }
    }

    /// How many entries the walk has filled.
    pub fn filled(&self) -> (r: usize)
        ensures
            r == self.count(),
    {
        self.filled
    }
}

} // verus!
