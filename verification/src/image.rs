//! Raster buffer: RGB pixels, a fixed-size 2-D grid with bounds-safe and
//! clamped accessors, and the shared interpolation primitives (linear
//! interpolation and weighted averaging with exact rational weights).

use vstd::prelude::*;
use vstd::arithmetic::div_mod::{lemma_div_is_ordered, lemma_div_by_multiple};
use vstd::arithmetic::mul::lemma_mul_inequality;
use crate::arith::{lemma_mul_bound, lemma_mul_signed_bound};

verus! {

/// One RGB pixel, 8 bits per channel, value range [0, 255].
#[derive(Debug, Clone, Copy, PartialEq, Eq, Structural)]
pub struct Pixel {
    pub r: u8,
    pub g: u8,
    pub b: u8,
}

/// The pixel with all channels zero.
pub open spec fn black_px() -> Pixel {
    Pixel { r: 0, g: 0, b: 0 }
}

/// Clamp an integer coordinate to the index range `[0, dim - 1]`.
pub open spec fn clampi(c: int, dim: int) -> int {
    if c < 0 {
        0
    } else if c >= dim {
        dim - 1
    } else {
        c
    }
}

/// Mathematical view of an image: dimensions and the row-major pixel grid.
#[verifier::ext_equal]
pub ghost struct GridV {
    pub w: int,
    pub h: int,
    pub d: Seq<Pixel>,
}

/// The `w` x `h` grid whose pixel at `(x, y)` is `f(x, y)`.
pub open spec fn grid_from(w: int, h: int, f: spec_fn(int, int) -> Pixel) -> GridV {
    GridV { w, h, d: Seq::new((w * h) as nat, |i: int| f(i % w, i / w)) }
}

impl GridV {
    /// The pixel sequence holds exactly one pixel per grid cell.
    pub open spec fn wf(self) -> bool {
        &&& self.w >= 0
        &&& self.h >= 0
        &&& self.d.len() == self.w * self.h
    }

    /// Pixel at in-range coordinates `(x, y)`.
    pub open spec fn at(self, x: int, y: int) -> Pixel {
        self.d[y * self.w + x]
    }

    /// Pixel at arbitrary coordinates, each axis clamped independently into
    /// range; never reads outside `[0, w) x [0, h)`.
    pub open spec fn at_clamped(self, x: int, y: int) -> Pixel {
        self.at(clampi(x, self.w), clampi(y, self.h))
    }

    /// Every pixel of the grid is black.
    pub open spec fn all_black(self) -> bool {
        forall|i: int| 0 <= i < self.d.len() ==> self.d[i] == black_px()
    }
}

/// A clamped coordinate is always a valid index of a positive dimension;
/// reading through `at_clamped` therefore never indexes out of range,
/// no matter how far out of range the request is.
pub proof fn lemma_clamp_in_range(c: int, dim: int)
    requires
        dim >= 1,
    ensures
        0 <= clampi(c, dim) < dim,
{
}

/// Row-major image: `width * height` pixels, coordinate `(x, y)` stored at
/// index `y * width + x`.
#[derive(Debug, Clone)]
pub struct Image {
    pub width: usize,
    pub height: usize,
    pub pixels: Vec<Pixel>,
}

impl View for Image {
    type V = GridV;

    open spec fn view(&self) -> GridV {
        GridV { w: self.width as int, h: self.height as int, d: self.pixels@ }
    }
}

impl Image {
    /// Invariant: the pixel vector length equals `width * height`.
    pub open spec fn wf(&self) -> bool {
        self@.wf()
    }

    /// A `width` x `height` image of black pixels.
    pub fn new(width: usize, height: usize) -> (img: Image)
        requires
            width * height <= usize::MAX,
        ensures
            img.wf(),
            img.width == width,
            img.height == height,
            img@.all_black(),
    {
        let n: usize = width * height;
        let mut pixels: Vec<Pixel> = Vec::new();
        let mut i: usize = 0;
        while i < n
            invariant
                i <= n,
                pixels@.len() == i,
                forall|k: int| 0 <= k < i ==> pixels@[k] == black_px(),
            decreases n - i,
        {
            pixels.push(Pixel { r: 0, g: 0, b: 0 });
            i = i + 1;
        }
        Image { width, height, pixels }
    }

    /// Wrap an existing pixel vector; fails exactly when the vector length
    /// does not equal `width * height`.
    pub fn from_pixels(width: usize, height: usize, pixels: Vec<Pixel>) -> (r: Option<Image>)
        ensures
            r is Some <==> pixels@.len() == width * height,
            r is Some ==> {
                let img = r->0;
                &&& img.wf()
                &&& img.width == width
                &&& img.height == height
                &&& img@.d == pixels@
            },
    {
        let len = pixels.len();
        let n = match width.checked_mul(height) {
            Some(n) => n,
            None => {
                proof {
                    assert(len <= usize::MAX < width * height);
                }
                return None;
            },
        };
        if len != n {
            return None;
        }
        Some(Image { width, height, pixels })
    }

    /// Pixel at `(x, y)`, or `None` exactly when the coordinate is out of
    /// range.
    pub fn get_pixel(&self, x: usize, y: usize) -> (r: Option<Pixel>)
        requires
            self.wf(),
        ensures
            r is Some <==> (x < self.width && y < self.height),
            x < self.width && y < self.height ==> r == Some(self@.at(x as int, y as int)),
    {
        if x >= self.width || y >= self.height {
            return None;
        }
        let n = self.pixels.len();
        proof {
            lemma_row_major_index(self.width as int, self.height as int, x as int, y as int);
        }
        Some(self.pixels[y * self.width + x])
    }

    /// Write `pixel` at `(x, y)`; writes out of range are silently ignored.
    pub fn set_pixel(&mut self, x: usize, y: usize, pixel: Pixel)
        requires
            old(self).wf(),
        ensures
            final(self).wf(),
            final(self).width == old(self).width,
            final(self).height == old(self).height,
            x < old(self).width && y < old(self).height ==> final(self)@.d == old(
                self,
            )@.d.update(y * old(self).width + x, pixel),
            !(x < old(self).width && y < old(self).height) ==> final(self)@.d == old(self)@.d,
    {
        if x < self.width && y < self.height {
            let n = self.pixels.len();
            proof {
                lemma_row_major_index(self.width as int, self.height as int, x as int, y as int);
            }
            let i = y * self.width + x;
            self.pixels.set(i, pixel);
        }
    }

    /// Pixel at signed coordinates, each axis clamped independently to
    /// `[0, dim - 1]`; never fails.
    pub fn get_pixel_clamped(&self, x: i32, y: i32) -> (r: Pixel)
        requires
            self.wf(),
            self.width >= 1,
            self.height >= 1,
        ensures
            r == self@.at_clamped(x as int, y as int),
    {
        let xc: usize = if x < 0 {
            0
        } else if x as usize >= self.width {
            self.width - 1
        } else {
            x as usize
        };
        let yc: usize = if y < 0 {
            0
        } else if y as usize >= self.height {
            self.height - 1
        } else {
            y as usize
        };
        let n = self.pixels.len();
        proof {
            lemma_row_major_index(self.width as int, self.height as int, xc as int, yc as int);
        }
        self.pixels[yc * self.width + xc]
    }

    /// An independent image with the same dimensions and pixels.
    pub fn duplicate(&self) -> (r: Image)
        ensures
            r@ == self@,
    {
        Image {
            width: self.width,
            height: self.height,
            pixels: clone_pixels(&self.pixels),
        }
    }

    /// Clamped pixel access for the samplers' wide intermediate coordinates.
    pub(crate) fn clamped_wide(&self, x: i128, y: i128) -> (r: Pixel)
        requires
            self.wf(),
            self.width >= 1,
            self.height >= 1,
        ensures
            r == self@.at_clamped(x as int, y as int),
    {
        let xc: usize = if x < 0 {
            0
        } else if x as u128 >= self.width as u128 {
            self.width - 1
        } else {
            x as usize
        };
        let yc: usize = if y < 0 {
            0
        } else if y as u128 >= self.height as u128 {
            self.height - 1
        } else {
            y as usize
        };
        let n = self.pixels.len();
        proof {
            lemma_row_major_index(self.width as int, self.height as int, xc as int, yc as int);
        }
        self.pixels[yc * self.width + xc]
    }
}

/// In a `w` x `h` row-major grid, the index of in-range `(x, y)` is in range.
pub proof fn lemma_row_major_index(w: int, h: int, x: int, y: int)
    requires
        0 <= x < w,
        0 <= y < h,
    ensures
        0 <= y * w + x < w * h,
        y * w + x <= (h - 1) * w + (w - 1),
{
    lemma_mul_inequality(y, h - 1, w);
    assert((h - 1) * w == w * h - w) by (nonlinear_arith);
}

/// Distinct in-range coordinates have distinct row-major indices.
pub proof fn lemma_row_major_inj(w: int, x1: int, y1: int, x2: int, y2: int)
    requires
        0 <= x1 < w,
        0 <= x2 < w,
        0 <= y1,
        0 <= y2,
        !(x1 == x2 && y1 == y2),
    ensures
        y1 * w + x1 != y2 * w + x2,
{
    assert(y1 * w + x1 != y2 * w + x2) by (nonlinear_arith)
        requires
            0 <= x1 < w,
            0 <= x2 < w,
            0 <= y1,
            0 <= y2,
            !(x1 == x2 && y1 == y2),
    ;
}

/// The row-major index `y * w + x` recovers its coordinates: `(x, y)` are
/// the remainder and quotient of the index by the width.
pub proof fn lemma_row_major_coords(w: int, x: int, y: int)
    requires
        0 <= x < w,
        0 <= y,
    ensures
        (y * w + x) % w == x,
        (y * w + x) / w == y,
{
    vstd::arithmetic::div_mod::lemma_fundamental_div_mod_converse(y * w + x, w, y, x);
}

/// One channel of a linear interpolation `a + (b - a) * t` with the rational
/// weight `t = tn / td` clamped to `[0, 1]`, truncated to an integer.
pub open spec fn lerp_ch(a: u8, b: u8, tn: int, td: int) -> int {
    let t = if tn < 0 {
        0
    } else if tn > td {
        td
    } else {
        tn
    };
    (a * td + (b - a) * t) / td
}

/// Linear interpolation between two pixels with rational weight `tn / td`.
pub open spec fn lerp_px(a: Pixel, b: Pixel, tn: int, td: int) -> Pixel {
    Pixel {
        r: lerp_ch(a.r, b.r, tn, td) as u8,
        g: lerp_ch(a.g, b.g, tn, td) as u8,
        b: lerp_ch(a.b, b.b, tn, td) as u8,
    }
}

/// The interpolated channel stays within `[0, 255]`.
pub proof fn lemma_lerp_ch_range(a: u8, b: u8, tn: int, td: int)
    requires
        td >= 1,
    ensures
        0 <= lerp_ch(a, b, tn, td) <= 255,
        a == b ==> lerp_ch(a, b, tn, td) == a,
{
    let t = if tn < 0 {
        0
    } else if tn > td {
        td
    } else {
        tn
    };
    let num = a * td + (b - a) * t;
    assert(num >= 0 && num <= 255 * td) by (nonlinear_arith)
        requires
            0 <= t <= td,
            td >= 1,
            0 <= a <= 255,
            0 <= b <= 255,
            num == a * td + (b - a) * t,
    ;
    lemma_div_is_ordered(0, num, td);
    lemma_div_is_ordered(num, 255 * td, td);
    lemma_div_by_multiple(255, td);
    if a == b {
        assert(num == a * td);
        lemma_div_by_multiple(a as int, td);
    }
}

fn lerp_channel(a: u8, b: u8, t: u64, td: u64) -> (c: u8)
    requires
        1 <= td <= 0x1000_0000_0000,
        t <= td,
    ensures
        c == lerp_ch(a, b, t as int, td as int),
{
    proof {
        lemma_lerp_ch_range(a, b, t as int, td as int);
    }
    proof {
        crate::arith::lemma_mul_bound(a as int, 255, td as int, 0x1000_0000_0000);
        crate::arith::lemma_mul_bound(
            if b >= a {
                (b - a) as int
            } else {
                (a - b) as int
            },
            255,
            t as int,
            0x1000_0000_0000,
        );
    }
    let num: u64 = if b >= a {
        a as u64 * td + (b - a) as u64 * t
    } else {
        proof {
            assert((a - b) * t <= a as int * td) by (nonlinear_arith)
                requires
                    0 <= (a - b) as int <= a as int,
                    0 <= t <= td,
            ;
        }
        a as u64 * td - (a - b) as u64 * t
    };
    proof {
        assert(num == a * td + (b - a) * (t as int)) by {
            if a > b {
                assert(a * td - (a - b) * (t as int) == a * td + (b - a) * (t as int))
                    by (nonlinear_arith);
            }
        };
        assert(num <= 255 * td) by (nonlinear_arith)
            requires
                0 <= t <= td,
                td >= 1,
                0 <= a <= 255,
                0 <= b <= 255,
                num == a * td + (b - a) * (t as int),
        ;
        lemma_div_is_ordered(num as int, 255 * td, td as int);
        lemma_div_by_multiple(255, td as int);
    }
    (num / td) as u8
}

/// A fresh vector with the same pixels.
pub(crate) fn clone_pixels(v: &Vec<Pixel>) -> (r: Vec<Pixel>)
    ensures
        r@ == v@,
{
    let n = v.len();
    let mut r: Vec<Pixel> = Vec::new();
    let mut i: usize = 0;
    while i < n
        invariant
            i <= n,
            n == v@.len(),
            r@ =~= v@.take(i as int),
        decreases n - i,
    {
        r.push(v[i]);
        i = i + 1;
    }
    proof {
        assert(v@.take(n as int) =~= v@);
    }
    r
}

/// Largest weight magnitude `weighted_average` accepts; wide enough for the
/// exact rational kernel weights of every resampler in this crate.
pub const WEIGHT_BOUND: i128 = 0x4_0000_0000_0000_0000_0000_0000;

/// Largest magnitude one weighted term can contribute to a channel sum.
pub const CHAN_SUM_STEP: i128 = 0x3FC_0000_0000_0000_0000_0000_0000;

/// Weighted sum of the red channels of a pixel/weight sequence.
pub open spec fn wa_r(s: Seq<(Pixel, i128)>) -> int
    decreases s.len(),
{
    if s.len() == 0 {
        0
    } else {
        wa_r(s.drop_last()) + s.last().0.r * s.last().1
    }
}

/// Weighted sum of the green channels of a pixel/weight sequence.
pub open spec fn wa_g(s: Seq<(Pixel, i128)>) -> int
    decreases s.len(),
{
    if s.len() == 0 {
        0
    } else {
        wa_g(s.drop_last()) + s.last().0.g * s.last().1
    }
}

/// Weighted sum of the blue channels of a pixel/weight sequence.
pub open spec fn wa_b(s: Seq<(Pixel, i128)>) -> int
    decreases s.len(),
{
    if s.len() == 0 {
        0
    } else {
        wa_b(s.drop_last()) + s.last().0.b * s.last().1
    }
}

/// Sum of the weights of a pixel/weight sequence.
pub open spec fn wa_w(s: Seq<(Pixel, i128)>) -> int
    decreases s.len(),
{
    if s.len() == 0 {
        0
    } else {
        wa_w(s.drop_last()) + s.last().1
    }
}

/// The real quotient `sum / w` clamped to `[0, 255]` and truncated to an
/// integer, for a nonzero weight sum `w`.
pub open spec fn clamp_div(sum: int, w: int) -> u8 {
    let s2 = if w < 0 {
        -sum
    } else {
        sum
    };
    let w2 = if w < 0 {
        -w
    } else {
        w
    };
    if s2 <= 0 {
        0
    } else if s2 / w2 >= 255 {
        255
    } else {
        (s2 / w2) as u8
    }
}

/// Weighted average of a pixel/weight sequence: per-channel weighted sums
/// divided by the weight total and clamped to `[0, 255]`; exactly black when
/// the weights sum to zero.
pub open spec fn wavg(s: Seq<(Pixel, i128)>) -> Pixel {
    if wa_w(s) == 0 {
        black_px()
    } else {
        Pixel {
            r: clamp_div(wa_r(s), wa_w(s)),
            g: clamp_div(wa_g(s), wa_w(s)),
            b: clamp_div(wa_b(s), wa_w(s)),
        }
    }
}

/// A weighted average over an empty set, or over weights that sum to zero,
/// is exactly black.
pub proof fn lemma_wavg_zero_weight(s: Seq<(Pixel, i128)>)
    requires
        wa_w(s) == 0,
    ensures
        wavg(s) == black_px(),
{
}

/// A weighted average of all-black pixels is black, whatever the weights.
pub proof fn lemma_wavg_all_black(s: Seq<(Pixel, i128)>)
    requires
        forall|k: int| 0 <= k < s.len() ==> (#[trigger] s[k]).0 == black_px(),
    ensures
        wavg(s) == black_px(),
    decreases s.len(),
{
    lemma_wa_black(s);
}

/// All-black pixels give zero channel sums.
proof fn lemma_wa_black(s: Seq<(Pixel, i128)>)
    requires
        forall|k: int| 0 <= k < s.len() ==> (#[trigger] s[k]).0 == black_px(),
    ensures
        wa_r(s) == 0,
        wa_g(s) == 0,
        wa_b(s) == 0,
    decreases s.len(),
{
    if s.len() > 0 {
        assert forall|k: int| 0 <= k < s.drop_last().len() implies (#[trigger] s.drop_last()[k]).0
            == black_px() by {
            assert(s.drop_last()[k] == s[k]);
        }
        lemma_wa_black(s.drop_last());
        assert(s.last() == s[s.len() - 1]);
        assert(s.last().0 == black_px());
        vstd::arithmetic::mul::lemma_mul_basics(s.last().1 as int);
    }
}

fn clamp_div_exec(sum: i128, w: i128) -> (c: u8)
    requires
        w != 0,
        -0x4000_0000_0000_0000_0000_0000_0000_0000 < sum,
        -0x4000_0000_0000_0000_0000_0000_0000_0000 < w,
    ensures
        c == clamp_div(sum as int, w as int),
{
    let (s2, w2) = if w < 0 {
        (-sum, -w)
    } else {
        (sum, w)
    };
    if s2 <= 0 {
        0
    } else {
        let q: u128 = (s2 as u128) / (w2 as u128);
        proof {
            vstd::arithmetic::div_mod::lemma_div_nonincreasing(s2 as int, w2 as int);
            vstd::arithmetic::div_mod::lemma_div_pos_is_pos(s2 as int, w2 as int);
        }
        if q >= 255 {
            255
        } else {
            q as u8
        }
    }
}

impl Pixel {
    /// The pixel `(r, g, b)`.
    pub fn new(r: u8, g: u8, b: u8) -> (p: Pixel)
        ensures
            p == (Pixel { r, g, b }),
    {
        Pixel { r, g, b }
    }

    /// The all-zero pixel.
    pub fn black() -> (p: Pixel)
        ensures
            p == black_px(),
    {
        Pixel { r: 0, g: 0, b: 0 }
    }

    /// The all-255 pixel.
    pub fn white() -> (p: Pixel)
        ensures
            p == (Pixel { r: 255u8, g: 255u8, b: 255u8 }),
    {
        Pixel { r: 255, g: 255, b: 255 }
    }

    /// Weighted average of pixels with signed fixed-point weights; an empty
    /// set or one whose weights sum to zero yields exactly black.
    pub fn weighted_average(pixels: &Vec<(Pixel, i128)>) -> (p: Pixel)
        requires
            pixels@.len() <= 4096,
            forall|k: int|
                0 <= k < pixels@.len() ==> -WEIGHT_BOUND <= (#[trigger] pixels@[k]).1
                    <= WEIGHT_BOUND,
        ensures
            p == wavg(pixels@),
    {
        let n = pixels.len();
        let mut rs: i128 = 0;
        let mut gs: i128 = 0;
        let mut bs: i128 = 0;
        let mut ws: i128 = 0;
        let mut i: usize = 0;
        while i < n
            invariant
                i <= n,
                n == pixels@.len(),
                pixels@.len() <= 4096,
                forall|k: int|
                    0 <= k < pixels@.len() ==> -WEIGHT_BOUND <= (#[trigger] pixels@[k]).1
                        <= WEIGHT_BOUND,
                rs == wa_r(pixels@.take(i as int)),
                gs == wa_g(pixels@.take(i as int)),
                bs == wa_b(pixels@.take(i as int)),
                ws == wa_w(pixels@.take(i as int)),
                -(i as int) * CHAN_SUM_STEP <= rs <= (i as int) * CHAN_SUM_STEP,
                -(i as int) * CHAN_SUM_STEP <= gs <= (i as int) * CHAN_SUM_STEP,
                -(i as int) * CHAN_SUM_STEP <= bs <= (i as int) * CHAN_SUM_STEP,
                -(i as int) * CHAN_SUM_STEP <= ws <= (i as int) * CHAN_SUM_STEP,
            decreases n - i,
        {
            let ghost s = pixels@;
            let (px, w) = pixels[i];
            proof {
                assert(-WEIGHT_BOUND <= s[i as int].1 <= WEIGHT_BOUND);
                lemma_mul_signed_bound(px.r as int, 255, w as int, WEIGHT_BOUND as int);
                lemma_mul_signed_bound(px.g as int, 255, w as int, WEIGHT_BOUND as int);
                lemma_mul_signed_bound(px.b as int, 255, w as int, WEIGHT_BOUND as int);
                assert(255 * (WEIGHT_BOUND as int) == CHAN_SUM_STEP as int);
                assert(s.take(i + 1).drop_last() =~= s.take(i as int));
                assert(s.take(i + 1).last() == s[i as int]);
            }
            rs = rs + px.r as i128 * w;
            gs = gs + px.g as i128 * w;
            bs = bs + px.b as i128 * w;
            ws = ws + w;
            i = i + 1;
        }
        proof {
            assert(pixels@.take(n as int) =~= pixels@);
        }
        if ws == 0 {
            Pixel { r: 0, g: 0, b: 0 }
        } else {
            Pixel {
                r: clamp_div_exec(rs, ws),
                g: clamp_div_exec(gs, ws),
                b: clamp_div_exec(bs, ws),
            }
        }
    }

    /// Linear interpolation from `a` toward `b` by the rational weight
    /// `t_num / t_den`, clamped to `[0, 1]`; each channel truncates to an
    /// integer.
    pub fn lerp(a: Pixel, b: Pixel, t_num: i64, t_den: i64) -> (p: Pixel)
        requires
            1 <= t_den <= 0x1000_0000_0000,
            -0x1000_0000_0000 <= t_num <= 0x1000_0000_0000,
        ensures
            p == lerp_px(a, b, t_num as int, t_den as int),
    {
        let t: u64 = if t_num < 0 {
            0
        } else if t_num > t_den {
            t_den as u64
        } else {
            t_num as u64
        };
        let td = t_den as u64;
        Pixel {
            r: lerp_channel(a.r, b.r, t, td),
            g: lerp_channel(a.g, b.g, t, td),
            b: lerp_channel(a.b, b.b, t, td),
        }
    }
}

} // verus!
