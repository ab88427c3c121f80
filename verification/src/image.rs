//! Images: the arithmetic between a decoded bitmap and the box it is drawn in, the
//! bookkeeping of a decode in flight, and an in-memory codec to test that bookkeeping
//! against.
//!
//! The device's codecs reduce only by powers of two, so the size asked for is not the size
//! received: [`fit`] computes the box, [`resample`] does the rest.

use vstd::prelude::*;

use crate::error::{spec_from_code, Error, Result};
use crate::fs::Utf16Path;

verus! {

broadcast use {vstd::seq::group_seq_axioms, vstd::slice::group_slice_axioms};

/// A decoded image: RGB565 pixels, tightly packed, `width * height` of them.
#[derive(Debug, PartialEq, Eq)]
pub struct Image {
    pub pixels: Vec<u16>,
    pub width: i32,
    pub height: i32,
}

impl Clone for Image {
    fn clone(&self) -> (r: Self)
        ensures
            r.pixels@ == self.pixels@,
            r.width == self.width,
            r.height == self.height,
    {
        let pixels = self.pixels.clone();
        assert(pixels@ =~= self.pixels@);
        Image { pixels, width: self.width, height: self.height }
    }
}

/// Row `y` of a bitmap of `width` columns over `pixels`, if the pixels hold all of it.
pub open spec fn row_of(pixels: Seq<u16>, width: i32, height: i32, y: int) -> Option<Seq<u16>> {
    if y < 0 || y >= height || width <= 0 || y * width + width > pixels.len() {
        None
    } else {
        Some(pixels.subrange(y * width, y * width + width))
    }
}

impl Image {
    /// The row at `y`, or `None` past the bottom — or when the pixels do not hold it, so
    /// drawing code never has to trust `width` and `height` against `pixels`.
    pub fn row(&self, y: i32) -> (r: Option<&[u16]>)
        ensures
            r matches Some(s) ==> row_of(self.pixels@, self.width, self.height, y as int) == Some(s@),
            r is None ==> row_of(self.pixels@, self.width, self.height, y as int) is None,
    {
        if y < 0 || y >= self.height || self.width <= 0 {
            return None;
        }
        let len = self.pixels.len();
        let w = self.width as usize;
        let yy = y as usize;
        // `y * width + width`, refused as soon as it passes the pixels.
        if yy > len / w {
            proof {
                assert((yy as int) * (w as int) >= (len / w + 1) * (w as int)) by (nonlinear_arith)
                    requires
                        yy >= len / w + 1,
                        w > 0,
                ;
                assert((len / w + 1) * (w as int) > len) by (nonlinear_arith)
                    requires
                        w > 0,
                ;
            }
            return None;
        }
        proof {
            assert((yy as int) * (w as int) <= (len / w) * (w as int)) by (nonlinear_arith)
                requires
                    yy <= len / w,
                    w > 0,
            ;
            assert((len / w) * (w as int) <= len) by (nonlinear_arith)
                requires
                    w > 0,
            ;
        }
        let start = yy * w;
        if w > len - start {
            return None;
        }
        let end = start + w;
        Some(vstd::slice::slice_subrange(self.pixels.as_slice(), start, end))
    }
}

// ------------------------------------------------------------------ resampling --

/// The 16.16 fixed-point step from `dst` samples back to `src` ones.
pub open spec fn step_of(src: i32, dst: i32) -> u32 {
    ((src as u32) << 16u32) / (dst as u32)
}

/// Where output sample `i` reads from, along an axis whose step is `step`.
pub open spec fn source_index(i: int, step: u32) -> int {
    (i * step) / 65536
}

/// Output pixel `(y, x)` of `src` resampled to `dst_w` × `dst_h`: the nearest source
/// row and column, clamped to the last of each; zero where the source row is missing.
pub open spec fn resampled_px(src: Image, dst_w: i32, dst_h: i32, y: int, x: int) -> u16 {
    let sy = source_index(y, step_of(src.height, dst_h));
    let sy2 = if sy < src.height - 1 {
        sy
    } else {
        src.height - 1
    };
    match row_of(src.pixels@, src.width, src.height, sy2) {
        Some(r) => {
            let sx = source_index(x, step_of(src.width, dst_w));
            r[if sx < r.len() - 1 {
                sx
            } else {
                r.len() - 1
            }]
        },
        None => 0,
    }
}

/// `r` is `src` resampled to `dst_w` × `dst_h`: nothing for a nonsense size, the same
/// image for the same size, and otherwise every output pixel the nearest source pixel.
pub open spec fn resampled(src: Image, dst_w: i32, dst_h: i32, r: Image) -> bool {
    if dst_w <= 0 || dst_h <= 0 || src.width <= 0 || src.height <= 0 {
        &&& r.pixels@ == Seq::<u16>::empty()
        &&& r.width == 0
        &&& r.height == 0
    } else if dst_w == src.width && dst_h == src.height {
        &&& r.pixels@ == src.pixels@
        &&& r.width == src.width
        &&& r.height == src.height
    } else {
        &&& r.width == dst_w
        &&& r.height == dst_h
        &&& r.pixels@.len() == (dst_w as int) * (dst_h as int)
        &&& forall|y: int, x: int|
            0 <= y < dst_h && 0 <= x < dst_w ==> #[trigger] r.pixels@[y * dst_w + x]
                == resampled_px(src, dst_w, dst_h, y, x)
    }
}

proof fn lemma_scaled_fits(a: int, b: int, m: int)
    requires
        0 <= a < b,
        0 <= m,
    ensures
        0 <= a * (m / b) <= m,
{
    assert(0 <= a * (m / b) <= b * (m / b)) by (nonlinear_arith)
        requires
            0 <= a < b,
            0 <= m,
    ;
    assert(b * (m / b) <= m) by (nonlinear_arith)
        requires
            0 < b,
            0 <= m,
    ;
}

proof fn lemma_flat(y: int, x: int, w: int, h: int)
    requires
        0 <= y < h,
        0 <= x < w,
    ensures
        0 <= y * w <= y * w + x < y * w + w <= h * w,
        (y + 1) * w == y * w + w,
        h * w == w * h,
{
    assert(h * w == w * h) by (nonlinear_arith);
    assert(0 <= y * w) by (nonlinear_arith)
        requires
            0 <= y,
            0 <= w,
    ;
    assert((y + 1) * w == y * w + w) by (nonlinear_arith);
    assert((y + 1) * w <= h * w) by (nonlinear_arith)
        requires
            y + 1 <= h,
            0 <= w,
    ;
}

proof fn lemma_flat_before(y1: int, y2: int, x: int, w: int)
    requires
        0 <= y1 < y2,
        0 <= x < w,
    ensures
        y1 * w + x < y2 * w,
{
    assert((y1 + 1) * w <= y2 * w) by (nonlinear_arith)
        requires
            y1 + 1 <= y2,
            0 <= w,
    ;
    assert((y1 + 1) * w == y1 * w + w) by (nonlinear_arith);
}

/// Shrink or stretch to exactly `dst_w` × `dst_h`, nearest-neighbour, integer only: the
/// half of fitting the codec cannot do. The step is a 16.16 fixed-point ratio.
pub fn resample(src: &Image, dst_w: i32, dst_h: i32) -> (r: Image)
    requires
        dst_w > 0 && dst_h > 0 ==> (dst_w as int) * (dst_h as int) <= usize::MAX,
    ensures
        resampled(*src, dst_w, dst_h, r),
{
    if dst_w <= 0 || dst_h <= 0 || src.width <= 0 || src.height <= 0 {
        return Image { pixels: Vec::new(), width: 0, height: 0 };
    }
    if dst_w == src.width && dst_h == src.height {
        return src.clone();
    }
    let wn = dst_w as usize;
    let n = wn * (dst_h as usize);
    let mut out = vec![0u16; n];
    let x_step = ((src.width as u32) << 16u32) / (dst_w as u32);
    let y_step = ((src.height as u32) << 16u32) / (dst_h as u32);
    let mut dy: i32 = 0;
    while dy < dst_h
        invariant
            0 < dst_w,
            0 < dst_h,
            0 < src.width,
            0 < src.height,
            wn == dst_w,
            n == (dst_w as int) * (dst_h as int),
            x_step == step_of(src.width, dst_w),
            y_step == step_of(src.height, dst_h),
            0 <= dy <= dst_h,
            out@.len() == n,
            forall|y: int, x: int|
                0 <= y < dy && 0 <= x < dst_w ==> #[trigger] out@[y * dst_w + x] == resampled_px(
                    *src,
                    dst_w,
                    dst_h,
                    y,
                    x,
                ),
            forall|k: int| dy * dst_w <= k < n ==> #[trigger] out@[k] == 0,
        decreases dst_h - dy,
    {
        proof {
            lemma_scaled_fits(dy as int, dst_h as int, ((src.height as u32) << 16u32) as int);
        }
        let p = (dy as u32) * y_step;
        let sy_u = p >> 16u32;
        assert(sy_u == p / 65536) by (bit_vector)
            requires
                sy_u == p >> 16u32,
        ;
        let sy = sy_u as i32;
        let sy2 = if sy < src.height - 1 {
            sy
        } else {
            src.height - 1
        };
        let ghost before = out@;
        match src.row(sy2) {
            Some(row) => {
                proof {
                    lemma_flat(dy as int, 0, dst_w as int, dst_h as int);
                }
                let base = (dy as usize) * wn;
                let mut dx: usize = 0;
                while dx < wn
                    invariant
                        0 < dst_w,
                        0 < dst_h,
                        0 < src.width,
                        0 < src.height,
                        wn == dst_w,
                        n == (dst_w as int) * (dst_h as int),
                        x_step == step_of(src.width, dst_w),
                        y_step == step_of(src.height, dst_h),
                        0 <= dy < dst_h,
                        base == dy * dst_w,
                        base + wn <= n,
                        row_of(src.pixels@, src.width, src.height, sy2 as int) == Some(row@),
                        sy2 as int == (if source_index(dy as int, y_step) < src.height - 1 {
                            source_index(dy as int, y_step)
                        } else {
                            src.height - 1
                        }),
                        dx <= wn,
                        out@.len() == n,
                        forall|y: int, x: int|
                            0 <= y < dy && 0 <= x < dst_w ==> #[trigger] out@[y * dst_w + x]
                                == resampled_px(*src, dst_w, dst_h, y, x),
                        forall|x: int|
                            0 <= x < dx ==> #[trigger] out@[dy * dst_w + x] == resampled_px(
                                *src,
                                dst_w,
                                dst_h,
                                dy as int,
                                x,
                            ),
                        forall|k: int| dy * dst_w + dx <= k < n ==> #[trigger] out@[k] == 0,
                    decreases wn - dx,
                {
                    proof {
                        lemma_scaled_fits(dx as int, dst_w as int, ((src.width as u32) << 16u32) as int);
                    }
                    let q = (dx as u32) * x_step;
                    let sx_u = q >> 16u32;
                    assert(sx_u == q / 65536) by (bit_vector)
                        requires
                            sx_u == q >> 16u32,
                    ;
                    let sx = sx_u as usize;
                    let last = row.len() - 1;
                    let sx2 = if sx < last {
                        sx
                    } else {
                        last
                    };
                    let v = row[sx2];
                    let ghost prev = out@;
                    out[base + dx] = v;
                    proof {
                        assert forall|y: int, x: int|
                            0 <= y < dy && 0 <= x < dst_w implies #[trigger] out@[y * dst_w + x]
                            == resampled_px(*src, dst_w, dst_h, y, x) by {
                            lemma_flat_before(y, dy as int, x, dst_w as int);
                            assert(out@[y * dst_w + x] == prev[y * dst_w + x]);
                        }
                    }
                    dx = dx + 1;
                }
            },
            None => {
                proof {
                    assert forall|x: int|
                        0 <= x < dst_w implies #[trigger] out@[dy * dst_w + x] == resampled_px(
                        *src,
                        dst_w,
                        dst_h,
                        dy as int,
                        x,
                    ) by {
                        lemma_flat(dy as int, x, dst_w as int, dst_h as int);
                    }
                }
            },
        }
        proof {
            lemma_flat(dy as int, 0, dst_w as int, dst_h as int);
            assert forall|y: int, x: int|
                0 <= y < dy + 1 && 0 <= x < dst_w implies #[trigger] out@[y * dst_w + x]
                == resampled_px(*src, dst_w, dst_h, y, x) by {
                if y == dy {
                    assert(out@[dy * dst_w + x] == resampled_px(*src, dst_w, dst_h, dy as int, x));
                }
            }
        }
        dy = dy + 1;
    }
    Image { pixels: out, width: dst_w, height: dst_h }
}

// ------------------------------------------------------------------ fitting --

/// The largest size inside `max_w` × `max_h` with the aspect ratio of `w` × `h`, never
/// enlarging: the wider ratio decides which edge binds, and no dimension rounds to zero.
pub open spec fn fit_of(w: i32, h: i32, max_w: i32, max_h: i32) -> (i32, i32) {
    if w <= 0 || h <= 0 || max_w <= 0 || max_h <= 0 {
        (0, 0)
    } else if w <= max_w && h <= max_h {
        (w, h)
    } else if w * max_h >= h * max_w {
        (max_w, (if (h as int) * (max_w as int) / (w as int) >= 1 {
            (h as int) * (max_w as int) / (w as int)
        } else {
            1
        }) as i32)
    } else {
        ((if (w as int) * (max_h as int) / (h as int) >= 1 {
            (w as int) * (max_h as int) / (h as int)
        } else {
            1
        }) as i32, max_h)
    }
}

/// Integer arithmetic on purpose: on a soft-float target every float operation is a call.
pub fn fit(w: i32, h: i32, max_w: i32, max_h: i32) -> (r: (i32, i32))
    ensures
        r == fit_of(w, h, max_w, max_h),
        w > 0 && h > 0 && max_w > 0 && max_h > 0 ==> {
            &&& 1 <= r.0 <= max_w
            &&& 1 <= r.1 <= max_h
            &&& r.0 <= w
            &&& r.1 <= h
        },
{
    if w <= 0 || h <= 0 || max_w <= 0 || max_h <= 0 {
        return (0, 0);
    }
    if w <= max_w && h <= max_h {
        return (w, h);
    }
    let wl = w as i64;
    let hl = h as i64;
    let mwl = max_w as i64;
    let mhl = max_h as i64;
    assert(0 < wl * mhl < 0x4000_0000_0000_0000) by (nonlinear_arith)
        requires
            0 < wl < 0x8000_0000,
            0 < mhl < 0x8000_0000,
    ;
    assert(0 < hl * mwl < 0x4000_0000_0000_0000) by (nonlinear_arith)
        requires
            0 < hl < 0x8000_0000,
            0 < mwl < 0x8000_0000,
    ;
    let by_width = wl * mhl >= hl * mwl;
    if by_width {
        let q = hl * mwl / wl;
        assert(q <= mhl) by (nonlinear_arith)
            requires
                wl * mhl >= hl * mwl,
                wl > 0,
                q == (hl as int) * (mwl as int) / (wl as int),
        ;
        assert(q <= hl) by (nonlinear_arith)
            requires
                !(wl <= mwl && hl <= mhl),
                wl * mhl >= hl * mwl,
                wl > 0,
                hl > 0,
                mwl > 0,
                mhl > 0,
                q == (hl as int) * (mwl as int) / (wl as int),
        ;
        let out_h = if q >= 1 {
            q
        } else {
            1
        };
        proof {
            if !(wl <= mwl) {
            } else {
                // The height alone overflowed the box, so the width cannot bind.
                assert(hl > mhl);
                assert(wl * mhl < hl * mwl) by (nonlinear_arith)
                    requires
                        wl <= mwl,
                        hl > mhl,
                        wl > 0,
                        mhl > 0,
                ;
            }
        }
        (max_w, out_h as i32)
    } else {
        let q = wl * mhl / hl;
        assert(q <= mwl) by (nonlinear_arith)
            requires
                wl * mhl < hl * mwl,
                hl > 0,
                q == (wl as int) * (mhl as int) / (hl as int),
        ;
        proof {
            if hl <= mhl {
                assert(wl > mwl);
                assert(wl * mhl >= hl * mwl) by (nonlinear_arith)
                    requires
                        hl <= mhl,
                        wl > mwl,
                        hl > 0,
                        mwl > 0,
                ;
            }
        }
        assert(q <= wl) by (nonlinear_arith)
            requires
                hl > mhl,
                hl > 0,
                wl > 0,
                q == (wl as int) * (mhl as int) / (hl as int),
        ;
        let out_w = if q >= 1 {
            q
        } else {
            1
        };
        (out_w as i32, max_h)
    }
}


// ------------------------------------------------------------------ decoding --

/// A snapshot of a decode, for when one does not finish.
#[derive(Copy, Clone, Debug, Default, PartialEq, Eq, Structural)]
pub struct Progress {
    /// True once the codec has reported, whether it succeeded or not.
    pub done: bool,
    /// The completion code, meaningful once `done`.
    pub error: i32,
    /// Frames the decoder found, or -1 if it never got that far.
    pub frames: i32,
    pub native_w: i32,
    pub native_h: i32,
    /// The power-of-two reduction chosen, or -1 if the decode never reached that point.
    pub factor: i32,
    /// The size of the bitmap actually created.
    pub out_w: i32,
    pub out_h: i32,
    /// Whether the request is still outstanding.
    pub active: bool,
    /// The `TDisplayMode` the destination bitmap was created in.
    pub mode: i32,
    /// `TFrameInfo::iFlags`.
    pub frame_flags: i32,
    /// How many `ContinueConvert` rounds the decode has needed.
    pub continues: i32,
}

impl Progress {
    /// The snapshot the platform's twelve words describe, in the order it writes them; the
    /// first is 2 once the codec has reported.
    pub fn from_words(v: &[i32; 12]) -> (p: Progress)
        ensures
            p == (Progress {
                done: v[0] == 2,
                error: v[1],
                frames: v[2],
                native_w: v[3],
                native_h: v[4],
                factor: v[5],
                out_w: v[6],
                out_h: v[7],
                active: v[8] != 0,
                mode: v[9],
                frame_flags: v[10],
                continues: v[11],
            }),
    {
        Progress {
            done: v[0] == 2,
            error: v[1],
            frames: v[2],
            native_w: v[3],
            native_h: v[4],
            factor: v[5],
            out_w: v[6],
            out_h: v[7],
            active: v[8] != 0,
            mode: v[9],
            frame_flags: v[10],
            continues: v[11],
        }
    }
}

/// `KErrOverflow`: the answer to a size probe with no room, which means the size is filled.
pub const PROBE_OVERFLOW: i32 = -9;

/// How many pixels a decoded image's result holds, from the size probe's return code and
/// the size it reported: a probe is answered by overflow or success, the size must be
/// positive, and the count must fit the platform's `i32`.
pub fn result_pixels(rc: i32, w: i32, h: i32) -> (r: Result<usize>)
    ensures
        rc != PROBE_OVERFLOW && rc != 0 ==> r == Err::<usize, Error>(spec_from_code(rc)),
        (rc == PROBE_OVERFLOW || rc == 0) && (w <= 0 || h <= 0) ==> r == Err::<usize, Error>(
            Error::NotFound,
        ),
        (rc == PROBE_OVERFLOW || rc == 0) && w > 0 && h > 0 && (w as int) * (h as int) > i32::MAX
            ==> r == Err::<usize, Error>(Error::Overflow),
        (rc == PROBE_OVERFLOW || rc == 0) && w > 0 && h > 0 && (w as int) * (h as int) <= i32::MAX
            ==> r == Ok::<usize, Error>(((w as int) * (h as int)) as usize),
{
    if rc != PROBE_OVERFLOW && rc != 0 {
        return Err(Error::from_code(rc));
    }
    if w <= 0 || h <= 0 {
        return Err(Error::NotFound);
    }
    assert(0 < (w as int) * (h as int) < 0x4000_0000_0000_0000) by (nonlinear_arith)
        requires
            0 < w < 0x8000_0000,
            0 < h < 0x8000_0000,
    ;
    let count = (w as i64) * (h as i64);
    if count > 0x7fff_ffff {
        return Err(Error::Overflow);
    }
    Ok(count as usize)
}

/// One decode asked of an [`Images`]: the file or the bytes, and the box to fit inside.
pub ghost enum ImageCall {
    File(Seq<u16>, i32, i32),
    Memory(Seq<u8>, i32, i32),
}

/// What the platform can do with images: one implementation over its codecs, one in memory
/// for tests. The logic worth testing is the sequencing, not the codec call.
pub trait Images: Sized {
    /// The decodes started and not yet closed, by handle. An implementation states its own;
    /// one that states none has nothing to show.
    closed spec fn live(&self) -> Set<i32> {
        Set::empty()
    }

    /// The implementation's own consistency.
    closed spec fn inv(&self) -> bool {
        true
    }

    /// Every decode asked for so far, oldest first. An implementation keeps its own record;
    /// one that keeps none has nothing to show.
    closed spec fn requests(&self) -> Seq<ImageCall> {
        Seq::empty()
    }

    /// Dimensions without decoding: the header only.
    fn probe(&mut self, path: &Utf16Path) -> (r: Result<(i32, i32)>)
        requires
            old(self).inv(),
        ensures
            final(self).inv(),
            final(self).live() == old(self).live(),
    ;

    /// Begin decoding a file, fitting inside `max_w` × `max_h`. The handle is a new one, and
    /// never 0.
    fn start_file(&mut self, path: &Utf16Path, max_w: i32, max_h: i32) -> (r: Result<i32>)
        requires
            old(self).inv(),
        ensures
            final(self).inv(),
            final(self).requests() == old(self).requests().push(ImageCall::File(path@, max_w, max_h)),
            r matches Ok(h) ==> h != 0 && !old(self).live().contains(h) && final(self).live()
                == old(self).live().insert(h),
            r is Err ==> final(self).live() == old(self).live(),
    ;

    /// Begin decoding bytes already in memory, which must stay alive and unmodified until
    /// the completion arrives.
    fn start_mem(&mut self, data: &[u8], max_w: i32, max_h: i32) -> (r: Result<i32>)
        requires
            old(self).inv(),
        ensures
            final(self).inv(),
            final(self).requests() == old(self).requests().push(
                ImageCall::Memory(data@, max_w, max_h),
            ),
            r matches Ok(h) ==> h != 0 && !old(self).live().contains(h) && final(self).live()
                == old(self).live().insert(h),
            r is Err ==> final(self).live() == old(self).live(),
    ;

    /// Collect the pixels once the completion said success.
    fn result(&mut self, handle: i32) -> (r: Result<Image>)
        requires
            old(self).inv(),
        ensures
            final(self).inv(),
            final(self).live() == old(self).live(),
    ;

    fn close(&mut self, handle: i32)
        requires
            old(self).inv(),
        ensures
            final(self).inv(),
            final(self).live() == old(self).live().remove(handle),
    ;

    /// What state a decode is in; a decode that never completes emits no event, so this is
    /// the only evidence of it. `None` where the implementation cannot say.
    fn describe(&mut self, handle: i32) -> (r: Option<Progress>)
        requires
            old(self).inv(),
        ensures
            final(self).inv(),
            final(self).live() == old(self).live(),
        default_ensures
            r is None,
    {
        None
    }
}

/// One decode in flight. Holds the source bytes of a memory decode, because the platform
/// reads from them until the completion arrives and nothing else keeps them alive.
pub struct Decoder<I: Images> {
    images: I,
    handle: i32,
    /// Kept alive for the decoder to read. Never touched here.
    source: Option<Vec<u8>>,
}

impl<I: Images> Decoder<I> {
    /// The decode's handle; 0 once closed.
    pub closed spec fn id(&self) -> i32 {
        self.handle
    }

    /// The decoder service underneath.
    pub closed spec fn inner(&self) -> I {
        self.images
    }

    /// The service is consistent, and an open decode is one of its live ones.
    pub closed spec fn wf(&self) -> bool {
        &&& self.images.inv()
        &&& self.handle != 0 ==> self.images.live().contains(self.handle)
    }

    /// Start decoding a file on disk.
    pub fn file(images: I, path: &Utf16Path, max_w: i32, max_h: i32) -> (r: Result<Self>)
        requires
            images.inv(),
        ensures
            r matches Ok(d) ==> {
                &&& d.wf()
                &&& d.held() is None
                &&& d.id() != 0
                &&& !images.live().contains(d.id())
                &&& d.inner().live() == images.live().insert(d.id())
                &&& d.inner().requests() == images.requests().push(
                    ImageCall::File(path@, max_w, max_h),
                )
            },
    {
        let mut images = images;
        let handle = images.start_file(path, max_w, max_h)?;
        Ok(Self { images, handle, source: None })
    }

    /// Start decoding bytes, taking ownership of them for the duration.
    pub fn memory(images: I, data: Vec<u8>, max_w: i32, max_h: i32) -> (r: Result<Self>)
        requires
            images.inv(),
        ensures
            r matches Ok(d) ==> {
                &&& d.wf()
                &&& d.held() == Some(data@)
                &&& d.id() != 0
                &&& !images.live().contains(d.id())
                &&& d.inner().live() == images.live().insert(d.id())
                &&& d.inner().requests() == images.requests().push(
                    ImageCall::Memory(data@, max_w, max_h),
                )
            },
    {
        let mut images = images;
        let handle = images.start_mem(data.as_slice(), max_w, max_h)?;
        Ok(Self { images, handle, source: Some(data) })
    }

    /// The bytes the decode is reading, for a memory decode.
    pub closed spec fn held(&self) -> Option<Seq<u8>> {
        match self.source {
            Some(v) => Some(v@),
            None => None,
        }
    }

    /// The handle the completion event will carry.
    pub fn handle(&self) -> (r: i32)
        ensures
            r == self.id(),
    {
        self.handle
    }

    /// Whether an event belongs to this decode; a closed decode owns none.
    pub fn owns(&self, event_handle: i32) -> (r: bool)
        ensures
            r == (self.id() != 0 && self.id() == event_handle),
    {
        self.handle != 0 && self.handle == event_handle
    }

    /// Collect the result, after the event reported success for this handle.
    pub fn take(&mut self) -> (r: Result<Image>)
        requires
            old(self).wf(),
        ensures
            final(self).wf(),
            final(self).id() == old(self).id(),
            final(self).held() == old(self).held(),
            final(self).inner().live() == old(self).inner().live(),
    {
        self.images.result(self.handle)
    }

    /// What state the decode is in, for one taking longer than it should.
    pub fn progress(&mut self) -> (r: Option<Progress>)
        requires
            old(self).wf(),
        ensures
            final(self).wf(),
            final(self).id() == old(self).id(),
            final(self).held() == old(self).held(),
            final(self).inner().live() == old(self).inner().live(),
    {
        self.images.describe(self.handle)
    }

    /// Release the decode's slot and bitmap, once: the first close gives the handle back,
    /// and a second finds nothing to give.
    pub fn close(&mut self)
        requires
            old(self).wf(),
        ensures
            final(self).wf(),
            final(self).id() == 0,
            final(self).held() == old(self).held(),
            old(self).id() != 0 ==> final(self).inner().live() == old(self).inner().live().remove(
                old(self).id(),
            ),
            old(self).id() == 0 ==> final(self).inner() == old(self).inner(),
    {
        if self.handle != 0 {
            self.images.close(self.handle);
            self.handle = 0;
        }
    }
}


// ------------------------------------------------------------------ testing --

/// What a codec that reduces only by powers of two makes of `w` × `h` for a box of
/// `max_w` × `max_h` (a side of 0 or less is no limit): halve both until the box is met or a
/// side would drop below one.
pub open spec fn halved(w: i32, h: i32, max_w: i32, max_h: i32) -> (i32, i32)
    decreases w,
{
    if ((max_w > 0 && w > max_w) || (max_h > 0 && h > max_h)) && w >= 2 && h >= 2 {
        halved((w / 2) as i32, (h / 2) as i32, max_w, max_h)
    } else {
        (w, h)
    }
}

/// The first ready result for `handle`, by position.
pub open spec fn ready_at(ready: Seq<(i32, Image)>, handle: i32, k: int) -> bool {
    &&& 0 <= k < ready.len()
    &&& ready[k].0 == handle
    &&& forall|j: int| 0 <= j < k ==> (#[trigger] ready[j]).0 != handle
}

/// An [`Images`] that decodes nothing and hands back what it was given, reduced by powers
/// of two as the device does. Completion is immediate: the ordering it exists to test is
/// the caller's.
pub struct MemImages {
    /// Handed out in order, one per `start_*` call.
    pub queued: Vec<Image>,
    /// Handles started and not yet closed.
    pub open: Vec<i32>,
    /// The last handle handed out.
    pub next: i32,
    /// What `start_*` fails with, if anything.
    pub fail_with: Option<Error>,
    /// The results waiting to be collected, by handle.
    pub ready: Vec<(i32, Image)>,
    /// Every decode asked for, in order.
    pub requests: Ghost<Seq<ImageCall>>,
}

impl MemImages {
    /// The last handle handed out.
    pub open spec fn issued(&self) -> i32 {
        self.next
    }

    /// The results waiting to be collected, by handle.
    pub open spec fn results(&self) -> Seq<(i32, Image)> {
        self.ready@
    }

    pub fn new(queued: Vec<Image>) -> (r: Self)
        ensures
            r.queued@ == queued@,
            r.open@ == Seq::<i32>::empty(),
            r.fail_with is None,
            r.issued() == 0,
            r.results() == Seq::<(i32, Image)>::empty(),
    {
        MemImages {
            queued,
            open: Vec::new(),
            next: 0,
            fail_with: None,
            ready: Vec::new(),
            requests: Ghost(Seq::empty()),
        }
    }

    /// One solid-colour image, for tests that care about size rather than content.
    pub fn solid(w: i32, h: i32, color: u16) -> (r: Image)
        requires
            0 <= (w as int) * (h as int) <= i32::MAX,
        ensures
            r.width == w,
            r.height == h,
            r.pixels@ == Seq::new(((w as int) * (h as int)) as nat, |i: int| color),
    {
        let n = w * h;
        let pixels = vec![color; n as usize];
        assert(pixels@ =~= Seq::new(((w as int) * (h as int)) as nat, |i: int| color));
        Image { pixels, width: w, height: h }
    }

    fn begin(&mut self, max_w: i32, max_h: i32) -> (r: Result<i32>)
        ensures
            final(self).requests == old(self).requests,
            old(self).fail_with matches Some(e) ==> r == Err::<i32, Error>(e) && *final(self)
                == *old(self),
            old(self).fail_with is None && old(self).queued@.len() == 0 ==> r == Err::<i32, Error>(
                Error::NotFound,
            ) && *final(self) == *old(self),
            r is Err ==> *final(self) == *old(self),
            r matches Ok(handle) ==> {
                let img = old(self).queued@[0];
                let (w, h) = halved(img.width, img.height, max_w, max_h);
                &&& old(self).fail_with is None
                &&& old(self).queued@.len() > 0
                &&& handle == old(self).issued() + 1
                &&& final(self).issued() == handle
                &&& final(self).queued@ == old(self).queued@.drop_first()
                &&& final(self).open@ == old(self).open@.push(handle)
                &&& final(self).fail_with == old(self).fail_with
                &&& final(self).results().len() == old(self).results().len() + 1
                &&& final(self).results().drop_last() == old(self).results()
                &&& final(self).results().last().0 == handle
                &&& resampled(img, w, h, final(self).results().last().1)
            },
            old(self).fail_with is None && old(self).queued@.len() > 0 && old(self).issued() < i32::MAX
                && ({
                let img = old(self).queued@[0];
                let (w, h) = halved(img.width, img.height, max_w, max_h);
                w > 0 && h > 0 ==> (w as int) * (h as int) <= usize::MAX
            }) ==> r is Ok,
    {
        if let Some(e) = self.fail_with {
            return Err(e);
        }
        if self.queued.len() == 0 {
            return Err(Error::NotFound);
        }
        if self.next == i32::MAX {
            // Every handle has been handed out.
            return Err(Error::InUse);
        }
        let ghost img0 = self.queued@[0];
        let mut w = self.queued[0].width;
        let mut h = self.queued[0].height;
        while ((max_w > 0 && w > max_w) || (max_h > 0 && h > max_h)) && w >= 2 && h >= 2
            invariant
                halved(w, h, max_w, max_h) == halved(img0.width, img0.height, max_w, max_h),
            decreases w,
        {
            w = w / 2;
            h = h / 2;
        }
        assert((w, h) == halved(img0.width, img0.height, max_w, max_h));
        if w > 0 && h > 0 {
            assert(0 < (w as int) * (h as int) < 0x4000_0000_0000_0000) by (nonlinear_arith)
                requires
                    0 < w < 0x8000_0000,
                    0 < h < 0x8000_0000,
            ;
        }
        if w > 0 && h > 0 && (w as u64) * (h as u64) > usize::MAX as u64 {
            return Err(Error::Overflow);
        }
        let img = self.queued.remove(0);
        let reduced = resample(&img, w, h);
        self.next = self.next + 1;
        let handle = self.next;
        self.open.push(handle);
        self.ready.push((handle, reduced));
        Ok(handle)
    }
}

impl MemImages {
    /// A started decode is a new handle, past every open one.
    proof fn lemma_started(before: MemImages, after: MemImages, h: i32)
        requires
            before.inv(),
            h == before.issued() + 1,
            after.issued() == h,
            after.open@ == before.open@.push(h),
        ensures
            after.inv(),
            h != 0,
            !before.live().contains(h),
            after.live() == before.live().insert(h),
    {
        if before.open@.contains(h) {
            let k = choose|k: int| 0 <= k < before.open@.len() && before.open@[k] == h;
            assert(1 <= before.open@[k] <= before.next);
        }
        assert forall|x: i32| after.live().contains(x) <==> before.live().insert(h).contains(x) by {
            if before.open@.contains(x) {
                let k = choose|k: int| 0 <= k < before.open@.len() && before.open@[k] == x;
                assert(after.open@[k] == x);
            }
            if after.open@.contains(x) {
                let k = choose|k: int| 0 <= k < after.open@.len() && after.open@[k] == x;
                if k < before.open@.len() {
                    assert(before.open@[k] == x);
                }
            }
            if x == h {
                assert(after.open@[before.open@.len() as int] == h);
            }
        }
        assert(after.live() =~= before.live().insert(h));
        assert forall|k: int| 0 <= k < after.open@.len() implies 1 <= #[trigger] after.open@[k] <= after.next by {
            if k < before.open@.len() {
                assert(after.open@[k] == before.open@[k]);
            }
        }
    }
}

impl Images for MemImages {
    closed spec fn live(&self) -> Set<i32> {
        Set::new(|h: i32| self.open@.contains(h))
    }

    closed spec fn requests(&self) -> Seq<ImageCall> {
        self.requests@
    }

    closed spec fn inv(&self) -> bool {
        &&& self.next >= 0
        &&& forall|k: int| 0 <= k < self.open@.len() ==> 1 <= #[trigger] self.open@[k] <= self.next
    }

    fn probe(&mut self, path: &Utf16Path) -> (r: Result<(i32, i32)>)
        ensures
            *final(self) == *old(self),
            old(self).queued@.len() > 0 ==> r == Ok::<(i32, i32), Error>(
                (old(self).queued@[0].width, old(self).queued@[0].height),
            ),
            old(self).queued@.len() == 0 ==> r == Err::<(i32, i32), Error>(Error::NotFound),
    {
        if self.queued.len() > 0 {
            Ok((self.queued[0].width, self.queued[0].height))
        } else {
            Err(Error::NotFound)
        }
    }

    fn start_file(&mut self, path: &Utf16Path, max_w: i32, max_h: i32) -> (r: Result<i32>)
        ensures
            old(self).fail_with matches Some(e) ==> r == Err::<i32, Error>(e),
            r is Err ==> *final(self) == (MemImages { requests: final(self).requests, ..*old(self) }),
            r matches Ok(handle) ==> {
                let img = old(self).queued@[0];
                let (w, h) = halved(img.width, img.height, max_w, max_h);
                &&& old(self).fail_with is None
                &&& old(self).queued@.len() > 0
                &&& handle == old(self).issued() + 1
                &&& final(self).issued() == handle
                &&& final(self).queued@ == old(self).queued@.drop_first()
                &&& final(self).open@ == old(self).open@.push(handle)
                &&& final(self).fail_with == old(self).fail_with
                &&& final(self).results().len() == old(self).results().len() + 1
                &&& final(self).results().drop_last() == old(self).results()
                &&& final(self).results().last().0 == handle
                &&& resampled(img, w, h, final(self).results().last().1)
            },
            old(self).fail_with is None && old(self).queued@.len() == 0 ==> r == Err::<i32, Error>(
                Error::NotFound,
            ),
            old(self).fail_with is None && old(self).queued@.len() > 0 && old(self).issued() < i32::MAX
                && ({
                let img = old(self).queued@[0];
                let (w, h) = halved(img.width, img.height, max_w, max_h);
                w > 0 && h > 0 ==> (w as int) * (h as int) <= usize::MAX
            }) ==> r is Ok,
    {
        let r = self.begin(max_w, max_h);
        proof {
            if let Ok(h) = r {
                MemImages::lemma_started(*old(self), *self, h);
            }
        }
        self.requests = Ghost(self.requests@.push(ImageCall::File(path@, max_w, max_h)));
        r
    }

    fn start_mem(&mut self, data: &[u8], max_w: i32, max_h: i32) -> (r: Result<i32>)
        ensures
            old(self).fail_with matches Some(e) ==> r == Err::<i32, Error>(e),
            r is Err ==> *final(self) == (MemImages { requests: final(self).requests, ..*old(self) }),
            r matches Ok(handle) ==> {
                let img = old(self).queued@[0];
                let (w, h) = halved(img.width, img.height, max_w, max_h);
                &&& old(self).fail_with is None
                &&& old(self).queued@.len() > 0
                &&& handle == old(self).issued() + 1
                &&& final(self).issued() == handle
                &&& final(self).queued@ == old(self).queued@.drop_first()
                &&& final(self).open@ == old(self).open@.push(handle)
                &&& final(self).fail_with == old(self).fail_with
                &&& final(self).results().len() == old(self).results().len() + 1
                &&& final(self).results().drop_last() == old(self).results()
                &&& final(self).results().last().0 == handle
                &&& resampled(img, w, h, final(self).results().last().1)
            },
            old(self).fail_with is None && old(self).queued@.len() == 0 ==> r == Err::<i32, Error>(
                Error::NotFound,
            ),
            old(self).fail_with is None && old(self).queued@.len() > 0 && old(self).issued() < i32::MAX
                && ({
                let img = old(self).queued@[0];
                let (w, h) = halved(img.width, img.height, max_w, max_h);
                w > 0 && h > 0 ==> (w as int) * (h as int) <= usize::MAX
            }) ==> r is Ok,
    {
        let r = self.begin(max_w, max_h);
        proof {
            if let Ok(h) = r {
                MemImages::lemma_started(*old(self), *self, h);
            }
        }
        self.requests = Ghost(self.requests@.push(ImageCall::Memory(data@, max_w, max_h)));
        r
    }

    fn result(&mut self, handle: i32) -> (r: Result<Image>)
        ensures
            *final(self) == *old(self),
            (forall|k: int| 0 <= k < old(self).results().len() ==> (#[trigger] old(self).results()[k]).0
                != handle) ==> r == Err::<Image, Error>(Error::Platform(crate::error::ERR_BAD_HANDLE)),
            (exists|k: int| ready_at(old(self).results(), handle, k)) ==> r is Ok,
            r matches Ok(img) ==> exists|k: int|
                ready_at(old(self).results(), handle, k) && img.pixels@ == old(self).results()[k].1.pixels@
                    && img.width == old(self).results()[k].1.width && img.height == old(
                    self,
                ).results()[k].1.height,
    {
        let mut i: usize = 0;
        while i < self.ready.len()
            invariant
                *self == *old(self),
                self.inv(),
                i <= self.ready@.len(),
                forall|j: int| 0 <= j < i ==> (#[trigger] self.ready@[j]).0 != handle,
            decreases self.ready@.len() - i,
        {
            if self.ready[i].0 == handle {
                let img = self.ready[i].1.clone();
                assert(ready_at(self.ready@, handle, i as int));
                assert(self.results()[i as int].0 == handle);
                return Ok(img);
            }
            i = i + 1;
        }
        Err(Error::Platform(crate::error::ERR_BAD_HANDLE))
    }

    fn close(&mut self, handle: i32)
        ensures
            final(self).open@ == old(self).open@.filter(|h: i32| h != handle),
            final(self).queued == old(self).queued,
            final(self).fail_with == old(self).fail_with,
            final(self).issued() == old(self).issued(),
            final(self).results() == old(self).results(),
    {
        let mut kept: Vec<i32> = Vec::new();
        let mut i: usize = 0;
        while i < self.open.len()
            invariant
                *self == *old(self),
                self.inv(),
                i <= self.open@.len(),
                kept@ == self.open@.take(i as int).filter(|h: i32| h != handle),
                forall|j: int| 0 <= j < kept@.len() ==> 1 <= #[trigger] kept@[j] <= self.next,
                forall|x: i32|
                    kept@.contains(x) <==> (exists|j: int|
                        0 <= j < i && #[trigger] self.open@[j] == x && x != handle),
            decreases self.open@.len() - i,
        {
            proof {
                reveal(Seq::filter);
                assert(self.open@.take(i + 1).drop_last() =~= self.open@.take(i as int));
            }
            let ghost before = kept@;
            if self.open[i] != handle {
                kept.push(self.open[i]);
            }
            proof {
                assert forall|x: i32|
                    kept@.contains(x) <==> (exists|j: int|
                        0 <= j < i + 1 && #[trigger] self.open@[j] == x && x != handle) by {
                    if kept@.contains(x) {
                        let k = choose|k: int| 0 <= k < kept@.len() && kept@[k] == x;
                        if k < before.len() {
                            assert(before[k] == x);
                            assert(before.contains(x));
                        } else {
                            assert(self.open@[i as int] == x);
                        }
                    }
                    if exists|j: int| 0 <= j < i + 1 && #[trigger] self.open@[j] == x && x != handle {
                        let j = choose|j: int| 0 <= j < i + 1 && #[trigger] self.open@[j] == x && x != handle;
                        if j < i {
                            assert(before.contains(x));
                            let k = choose|k: int| 0 <= k < before.len() && before[k] == x;
                            assert(kept@[k] == x);
                        } else {
                            assert(kept@[kept@.len() - 1] == x);
                        }
                    }
                }
                assert forall|j: int| 0 <= j < kept@.len() implies 1 <= #[trigger] kept@[j] <= self.next by {
                    if j < before.len() {
                        assert(kept@[j] == before[j]);
                    } else {
                        assert(kept@[j] == self.open@[i as int]);
                    }
                }
            }
            i = i + 1;
        }
        proof {
            assert(self.open@.take(self.open@.len() as int) =~= self.open@);
            assert forall|x: i32| kept@.contains(x) <==> old(self).live().remove(handle).contains(x) by {
                if exists|j: int| 0 <= j < i && #[trigger] self.open@[j] == x && x != handle {
                    let j = choose|j: int| 0 <= j < i && #[trigger] self.open@[j] == x && x != handle;
                    assert(old(self).open@.contains(x));
                }
                if old(self).open@.contains(x) && x != handle {
                    let j = choose|j: int| 0 <= j < old(self).open@.len() && old(self).open@[j] == x;
                    assert(self.open@[j] == x);
                }
            }
        }
        self.open = kept;
        proof {
            assert(self.live() =~= old(self).live().remove(handle));
        }
    }
}

} // verus!
