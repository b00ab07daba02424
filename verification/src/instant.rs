//! Instant-tier resamplers: nearest-neighbor pixel replication and separable
//! bilinear interpolation.

use vstd::prelude::*;
use crate::image::{GridV, Image, Pixel, grid_from, lerp_px, lemma_row_major_coords};
use crate::scale::{Scale, map_src, nn_src, nn_src_exec, scaled_dim, scaled_dim_exec, src_fx, src_x0};
use crate::upscale_tier::UpscaleTier;

verus! {

/// What every resampler asks of its input: a well-formed image with positive
/// dimensions, a well-formed scale, and an output that fits in memory.
pub open spec fn upscale_req(g: GridV, s: Scale) -> bool {
    &&& g.wf()
    &&& 1 <= g.w
    &&& 1 <= g.h
    &&& s.wf()
    &&& scaled_dim(g.w, s) <= usize::MAX
    &&& scaled_dim(g.h, s) <= usize::MAX
    &&& scaled_dim(g.w, s) * scaled_dim(g.h, s) <= usize::MAX
}

/// Nearest-neighbor upscaling: each output pixel replicates the source pixel
/// at the floored, clamped mapped coordinate. The fastest algorithm; exact
/// for pixel art.
#[derive(Clone, Copy)]
pub struct NearestNeighbor;

/// The source pixel nearest-neighbor picks for output pixel `(x, y)`.
pub open spec fn nn_sample(g: GridV, s: Scale, x: int, y: int) -> Pixel {
    g.at(nn_src(x, g.w, s), nn_src(y, g.h, s))
}

/// The whole nearest-neighbor output grid.
pub open spec fn nn_grid(g: GridV, s: Scale) -> GridV {
    grid_from(
        scaled_dim(g.w, s),
        scaled_dim(g.h, s),
        |x: int, y: int| nn_sample(g, s, x, y),
    )
}

impl NearestNeighbor {
    /// Upscale by pixel replication; the output has dimensions
    /// `round(w * scale)` x `round(h * scale)` and every output pixel equals
    /// the source pixel at the floored mapped coordinate.
    pub fn upscale(&self, image: &Image, scale: Scale) -> (out: Image)
        requires
            upscale_req(image@, scale),
        ensures
            out.wf(),
            out@ == nn_grid(image@, scale),
    {
        let sw = scaled_dim_exec(image.width, scale);
        let sh = scaled_dim_exec(image.height, scale);
        let ghost m = nn_grid(image@, scale);
        let mut out = Image::new(sw, sh);
        let mut y: usize = 0;
        while y < sh
            invariant
                upscale_req(image@, scale),
                y <= sh,
                sw == scaled_dim(image@.w, scale),
                sh == scaled_dim(image@.h, scale),
                m == nn_grid(image@, scale),
                out.wf(),
                out.width == sw,
                out.height == sh,
                forall|i: int| 0 <= i < y * sw ==> out@.d[i] == m.d[i],
            decreases sh - y,
        {
            let mut x: usize = 0;
            while x < sw
                invariant
                    upscale_req(image@, scale),
                    y < sh,
                    x <= sw,
                    sw == scaled_dim(image@.w, scale),
                    sh == scaled_dim(image@.h, scale),
                    m == nn_grid(image@, scale),
                    out.wf(),
                    out.width == sw,
                    out.height == sh,
                    forall|i: int| 0 <= i < y * sw + x ==> out@.d[i] == m.d[i],
                decreases sw - x,
            {
                let sx = nn_src_exec(x, image.width, scale);
                let sy = nn_src_exec(y, image.height, scale);
                proof {
                    crate::image::lemma_row_major_index(
                        image@.w,
                        image@.h,
                        sx as int,
                        sy as int,
                    );
                }
                let p = image.get_pixel(sx, sy).unwrap();
                proof {
                    crate::image::lemma_row_major_index(sw as int, sh as int, x as int, y as int);
                }
                out.set_pixel(x, y, p);
                proof {
                    lemma_row_major_coords(sw as int, x as int, y as int);
                    assert(m.d[y * sw + x] == nn_sample(image@, scale, x as int, y as int));
                    assert(out@.d[y * sw + x] == p);
                }
                x = x + 1;
            }
            proof {
                assert((y + 1) * sw == y * sw + sw) by (nonlinear_arith);
            }
            y = y + 1;
        }
        proof {
            assert(sh * sw <= out@.d.len()) by (nonlinear_arith)
                requires
                    out@.d.len() == sw * sh,
            ;
            assert(out@ =~= m);
        }
        out
    }

    /// The display name of this algorithm.
    pub fn name(&self) -> (r: &'static str)
        ensures
            r@ == "Nearest Neighbor"@,
    {
        "Nearest Neighbor"
    }

    /// Cost class: instant.
    pub fn tier(&self) -> (t: UpscaleTier)
        ensures
            t == UpscaleTier::Instant,
    {
        UpscaleTier::Instant
    }
}

/// Nearest-neighbor at scale 1 reproduces the source image exactly,
/// pixel for pixel.
pub proof fn lemma_nearest_identity(g: GridV, s: Scale)
    requires
        g.wf(),
        g.w >= 1,
        g.h >= 1,
        s.wf(),
        s.is_one(),
    ensures
        nn_grid(g, s) == g,
{
    crate::scale::lemma_scaled_dim_one(g.w, s);
    crate::scale::lemma_scaled_dim_one(g.h, s);
    let m = nn_grid(g, s);
    assert forall|i: int| 0 <= i < m.d.len() implies m.d[i] == g.d[i] by {
        let x = i % g.w;
        let y = i / g.w;
        vstd::arithmetic::div_mod::lemma_fundamental_div_mod(i, g.w);
        vstd::arithmetic::div_mod::lemma_mod_division_less_than_divisor(i, g.w);
        assert(0 <= y < g.h) by (nonlinear_arith)
            requires
                0 <= i < g.w * g.h,
                g.w >= 1,
                i == g.w * y + x,
                0 <= x < g.w,
        ;
        assert(x * s.den / (s.num as int) == x) by (nonlinear_arith)
            requires
                s.num == s.den,
                1 <= s.num,
                x >= 0,
        ;
        assert(y * s.den / (s.num as int) == y) by (nonlinear_arith)
            requires
                s.num == s.den,
                1 <= s.num,
                y >= 0,
        ;
        assert(nn_src(x, g.w, s) == x);
        assert(nn_src(y, g.h, s) == y);
        assert(g.at(x, y) == g.d[y * g.w + x]);
        assert(y * g.w + x == i) by (nonlinear_arith)
            requires
                i == g.w * y + x,
        ;
    }
    assert(nn_grid(g, s) =~= g);
}

/// At scale 2, the pixel-center source coordinate of the first output column
/// has floor -1: its 2x2 neighborhood clamps entirely to the first source
/// column.
proof fn lemma_src_x0_two_first(s: Scale)
    requires
        s.wf(),
        s.is_two(),
    ensures
        src_x0(0, s) == -1,
{
    let d = s.den as int;
    assert(crate::scale::src_center_num(0, s) == 1 * d - 2 * d) by (nonlinear_arith)
        requires
            s.num == 2 * s.den,
            d == s.den as int,
    ;
    vstd::arithmetic::div_mod::lemma_fundamental_div_mod_converse(-d, 4 * d, -1, 3 * d);
}

/// At scale 2, the pixel-center source coordinate of the last output column
/// of a width-`w` source has floor `w - 1`: its 2x2 neighborhood clamps
/// entirely to the last source column.
proof fn lemma_src_x0_two_last(s: Scale, w: int)
    requires
        s.wf(),
        s.is_two(),
        w >= 1,
    ensures
        src_x0(2 * w - 1, s) == w - 1,
{
    let d = s.den as int;
    assert(crate::scale::src_center_num(2 * w - 1, s) == (4 * d) * (w - 1) + d)
        by (nonlinear_arith)
        requires
            s.num == 2 * s.den,
            d == s.den as int,
            w >= 1,
    ;
    vstd::arithmetic::div_mod::lemma_fundamental_div_mod_converse(
        (4 * d) * (w - 1) + d,
        4 * d,
        w - 1,
        d,
    );
}

/// Bilinear upscaling: each output pixel interpolates the 2x2 clamped source
/// neighborhood around its mapped pixel-center coordinate, linearly in x and
/// then in y.
#[derive(Clone, Copy)]
pub struct Bilinear;

/// The bilinear interpolation of the 2x2 clamped neighborhood around the
/// pixel-center source coordinate of output pixel `(x, y)`.
pub open spec fn bilin_sample(g: GridV, s: Scale, x: int, y: int) -> Pixel {
    let d = 2 * s.num;
    let x0 = src_x0(x, s);
    let fx = src_fx(x, s);
    let y0 = src_x0(y, s);
    let fy = src_fx(y, s);
    let p00 = g.at_clamped(x0, y0);
    let p10 = g.at_clamped(x0 + 1, y0);
    let p01 = g.at_clamped(x0, y0 + 1);
    let p11 = g.at_clamped(x0 + 1, y0 + 1);
    lerp_px(lerp_px(p00, p10, fx, d as int), lerp_px(p01, p11, fx, d as int), fy, d as int)
}

/// The whole bilinear output grid.
pub open spec fn bilin_grid(g: GridV, s: Scale) -> GridV {
    grid_from(
        scaled_dim(g.w, s),
        scaled_dim(g.h, s),
        |x: int, y: int| bilin_sample(g, s, x, y),
    )
}

/// One bilinear sample at output pixel `(x, y)`.
pub(crate) fn sample_bilinear(image: &Image, scale: Scale, x: usize, y: usize) -> (p: Pixel)
    requires
        image.wf(),
        image@.w >= 1,
        image@.h >= 1,
        scale.wf(),
    ensures
        p == bilin_sample(image@, scale, x as int, y as int),
{
    let (x0, fx) = map_src(x, scale);
    let (y0, fy) = map_src(y, scale);
    let d = 2 * scale.num as u64;
    let p00 = image.clamped_wide(x0, y0);
    let p10 = image.clamped_wide(x0 + 1, y0);
    let p01 = image.clamped_wide(x0, y0 + 1);
    let p11 = image.clamped_wide(x0 + 1, y0 + 1);
    let top = Pixel::lerp(p00, p10, fx as i64, d as i64);
    let bottom = Pixel::lerp(p01, p11, fx as i64, d as i64);
    Pixel::lerp(top, bottom, fy as i64, d as i64)
}

/// The corner pixel of a bilinear 2x2-neighborhood sample whose floor
/// coordinates clamp a whole neighborhood onto one source pixel.
proof fn lemma_bilin_corner_sample(g: GridV, s: Scale, x: int, y: int, sx: int, sy: int)
    requires
        g.wf(),
        g.w >= 1,
        g.h >= 1,
        s.wf(),
        0 <= sx < g.w,
        0 <= sy < g.h,
        crate::image::clampi(src_x0(x, s), g.w) == sx,
        crate::image::clampi(src_x0(x, s) + 1, g.w) == sx,
        crate::image::clampi(src_x0(y, s), g.h) == sy,
        crate::image::clampi(src_x0(y, s) + 1, g.h) == sy,
    ensures
        bilin_sample(g, s, x, y) == g.at(sx, sy),
{
    let p = g.at(sx, sy);
    crate::upscaler::lemma_lerp_px_same(p, src_fx(x, s), 2 * s.num);
    crate::upscaler::lemma_lerp_px_same(p, src_fx(y, s), 2 * s.num);
}

/// Bilinear and bicubic sampling share the pixel-center mapping; for
/// bilinear, the four true corner pixels of an upscale by exactly 2
/// reproduce the corresponding source corner pixels exactly.
pub proof fn lemma_bilinear_corners(g: GridV, s: Scale)
    requires
        g.wf(),
        g.w >= 1,
        g.h >= 1,
        s.wf(),
        s.is_two(),
    ensures
        bilin_grid(g, s).w == 2 * g.w,
        bilin_grid(g, s).h == 2 * g.h,
        bilin_grid(g, s).at(0, 0) == g.at(0, 0),
        bilin_grid(g, s).at(2 * g.w - 1, 0) == g.at(g.w - 1, 0),
        bilin_grid(g, s).at(0, 2 * g.h - 1) == g.at(0, g.h - 1),
        bilin_grid(g, s).at(2 * g.w - 1, 2 * g.h - 1) == g.at(g.w - 1, g.h - 1),
{
    crate::scale::lemma_scaled_dim_two(g.w, s);
    crate::scale::lemma_scaled_dim_two(g.h, s);
    lemma_src_x0_two_first(s);
    lemma_src_x0_two_last(s, g.w);
    lemma_src_x0_two_last(s, g.h);
    let m = bilin_grid(g, s);
    assert forall|cx: int, cy: int|
        (cx == 0 || cx == 2 * g.w - 1) && (cy == 0 || cy == 2 * g.h - 1) implies m.at(cx, cy)
        == g.at(
        if cx == 0 {
            0int
        } else {
            g.w - 1
        },
        if cy == 0 {
            0int
        } else {
            g.h - 1
        },
    ) by {
        crate::image::lemma_row_major_index(m.w, m.h, cx, cy);
        lemma_row_major_coords(m.w, cx, cy);
        let sx = if cx == 0 {
            0int
        } else {
            g.w - 1
        };
        let sy = if cy == 0 {
            0int
        } else {
            g.h - 1
        };
        assert(m.d[cy * m.w + cx] == bilin_sample(g, s, cx, cy));
        lemma_bilin_corner_sample(g, s, cx, cy, sx, sy);
    }
}

impl Bilinear {
    /// Upscale by separable linear interpolation; the output has dimensions
    /// `round(w * scale)` x `round(h * scale)` and every output pixel is the
    /// bilinear blend of its 2x2 clamped source neighborhood.
    pub fn upscale(&self, image: &Image, scale: Scale) -> (out: Image)
        requires
            upscale_req(image@, scale),
        ensures
            out.wf(),
            out@ == bilin_grid(image@, scale),
    {
        let sw = scaled_dim_exec(image.width, scale);
        let sh = scaled_dim_exec(image.height, scale);
        let ghost m = bilin_grid(image@, scale);
        let mut out = Image::new(sw, sh);
        let mut y: usize = 0;
        while y < sh
            invariant
                upscale_req(image@, scale),
                y <= sh,
                sw == scaled_dim(image@.w, scale),
                sh == scaled_dim(image@.h, scale),
                m == bilin_grid(image@, scale),
                out.wf(),
                out.width == sw,
                out.height == sh,
                forall|i: int| 0 <= i < y * sw ==> out@.d[i] == m.d[i],
            decreases sh - y,
        {
            let mut x: usize = 0;
            while x < sw
                invariant
                    upscale_req(image@, scale),
                    y < sh,
                    x <= sw,
                    sw == scaled_dim(image@.w, scale),
                    sh == scaled_dim(image@.h, scale),
                    m == bilin_grid(image@, scale),
                    out.wf(),
                    out.width == sw,
                    out.height == sh,
                    forall|i: int| 0 <= i < y * sw + x ==> out@.d[i] == m.d[i],
                decreases sw - x,
            {
                let p = sample_bilinear(image, scale, x, y);
                proof {
                    crate::image::lemma_row_major_index(sw as int, sh as int, x as int, y as int);
                }
                out.set_pixel(x, y, p);
                proof {
                    lemma_row_major_coords(sw as int, x as int, y as int);
                    assert(out@.d[y * sw + x] == p);
                }
                x = x + 1;
            }
            proof {
                assert((y + 1) * sw == y * sw + sw) by (nonlinear_arith);
            }
            y = y + 1;
        }
        proof {
            assert(sh * sw <= out@.d.len()) by (nonlinear_arith)
                requires
                    out@.d.len() == sw * sh,
            ;
            assert(out@ =~= m);
        }
        out
    }

    /// The display name of this algorithm.
    pub fn name(&self) -> (r: &'static str)
        ensures
            r@ == "Bilinear"@,
    {
        "Bilinear"
    }

    /// Cost class: instant.
    pub fn tier(&self) -> (t: UpscaleTier)
        ensures
            t == UpscaleTier::Instant,
    {
        UpscaleTier::Instant
    }
}

} // verus!
