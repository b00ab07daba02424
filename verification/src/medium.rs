//! Medium-tier resamplers: edge-directed interpolation (gradient estimation
//! and directional blending) and a pattern-rule 2x-block upscaler that
//! classifies each pixel's neighborhood.

use vstd::prelude::*;
use crate::arith::{floor_div_mod_i128, isqrt_u64, lemma_mul_abs_bound, sqrt_floor};
use crate::image::{
    GridV, Image, Pixel, grid_from, lemma_row_major_coords, lerp_px, wavg, WEIGHT_BOUND,
};
use crate::instant::{bilin_sample, sample_bilinear, upscale_req};
use crate::scale::{Scale, map_src, scaled_dim, scaled_dim_exec, src_fx, src_x0};
use crate::upscale_tier::UpscaleTier;

verus! {

/// Absolute difference of two channel values.
pub open spec fn abs_d(a: u8, b: u8) -> int {
    if a >= b {
        a - b
    } else {
        b - a
    }
}

/// Sum of absolute per-channel differences between two pixels.
pub open spec fn px_abs_diff(a: Pixel, b: Pixel) -> int {
    abs_d(a.r, b.r) + abs_d(a.g, b.g) + abs_d(a.b, b.b)
}

/// Signed sum of per-channel differences between two pixels.
pub open spec fn px_signed_diff(a: Pixel, b: Pixel) -> int {
    (a.r - b.r) + (a.g - b.g) + (a.b - b.b)
}

/// Edge-directed interpolation: estimates the local gradient at the floored
/// source coordinate; flat regions fall back to bilinear sampling, and edge
/// regions blend three samples taken along the edge direction.
#[derive(Clone, Copy)]
pub struct EdgeDirected;

/// Horizontal gradient component at `(x, y)`: the absolute channel
/// differences between the clamped right and left neighbors.
pub open spec fn grad_dx(g: GridV, x: int, y: int) -> int {
    px_abs_diff(g.at_clamped(x + 1, y), g.at_clamped(x - 1, y))
}

/// Vertical gradient component at `(x, y)`: the absolute channel differences
/// between the clamped bottom and top neighbors.
pub open spec fn grad_dy(g: GridV, x: int, y: int) -> int {
    px_abs_diff(g.at_clamped(x, y + 1), g.at_clamped(x, y - 1))
}

/// Signed horizontal difference at `(x, y)` (right minus left).
pub open spec fn dir_dx(g: GridV, x: int, y: int) -> int {
    px_signed_diff(g.at_clamped(x + 1, y), g.at_clamped(x - 1, y))
}

/// Signed vertical difference at `(x, y)` (bottom minus top).
pub open spec fn dir_dy(g: GridV, x: int, y: int) -> int {
    px_signed_diff(g.at_clamped(x, y + 1), g.at_clamped(x, y - 1))
}

/// One in the fixed-point scale used for the edge direction (16 fraction
/// bits).
pub const DIR_ONE: i128 = 0x1_0000;

/// The three pixel/weight pairs blended along the edge direction for output
/// pixel `(x, y)`: samples at offsets `{-0.5, 0, +0.5}` along the unit
/// direction vector `(dx, dy) / |(dx, dy)|`, in fixed point, each rounded to
/// the nearest source pixel and weighted `1 - 0.3 |offset index|`
/// (so 7, 10, 7 in tenths).
pub open spec fn edge_pairs(g: GridV, s: Scale, x: int, y: int) -> Seq<(Pixel, i128)> {
    let x0 = src_x0(x, s);
    let fx = src_fx(x, s);
    let y0 = src_x0(y, s);
    let fy = src_fx(y, s);
    let dxs = dir_dx(g, x0, y0);
    let dys = dir_dy(g, x0, y0);
    let h = sqrt_floor((dxs * dxs + dys * dys) as nat) as int;
    let cosq = if h == 0 {
        DIR_ONE as int
    } else {
        dxs * DIR_ONE / h
    };
    let sinq = if h == 0 {
        0int
    } else {
        dys * DIR_ONE / h
    };
    let xq = x0 * DIR_ONE + fx * DIR_ONE / (2 * s.num);
    let yq = y0 * DIR_ONE + fy * DIR_ONE / (2 * s.num);
    Seq::new(
        3,
        |k: int|
            {
                let i = k - 1;
                let rx = (xq + i * cosq / 2 + DIR_ONE / 2) / (DIR_ONE as int);
                let ry = (yq + i * sinq / 2 + DIR_ONE / 2) / (DIR_ONE as int);
                (g.at_clamped(rx, ry), (if i == 0 { 10int } else { 7int }) as i128)
            },
    )
}

/// The fixed-point position and direction values `sample_edge_directed`
/// carries while it gathers the three directional samples.
pub open spec fn edge_dir_state(
    g: GridV,
    s: Scale,
    x: int,
    y: int,
    xq: int,
    yq: int,
    cosq: int,
    sinq: int,
) -> bool {
    let x0 = src_x0(x, s);
    let fx = src_fx(x, s);
    let y0 = src_x0(y, s);
    let fy = src_fx(y, s);
    let dxs = dir_dx(g, x0, y0);
    let dys = dir_dy(g, x0, y0);
    let h = sqrt_floor((dxs * dxs + dys * dys) as nat) as int;
    &&& xq == x0 * DIR_ONE + fx * DIR_ONE / (2 * s.num)
    &&& yq == y0 * DIR_ONE + fy * DIR_ONE / (2 * s.num)
    &&& cosq == (if h == 0 {
        DIR_ONE as int
    } else {
        dxs * DIR_ONE / h
    })
    &&& sinq == (if h == 0 {
        0int
    } else {
        dys * DIR_ONE / h
    })
}

/// The edge-directed interpolation at output pixel `(x, y)`: bilinear where
/// the gradient magnitude is below 10 on the 8-bit channel scale, otherwise
/// the directional blend.
pub open spec fn edge_sample(g: GridV, s: Scale, x: int, y: int) -> Pixel {
    let x0 = src_x0(x, s);
    let y0 = src_x0(y, s);
    let gx = grad_dx(g, x0, y0);
    let gy = grad_dy(g, x0, y0);
    if gx * gx + gy * gy < 100 {
        bilin_sample(g, s, x, y)
    } else {
        wavg(edge_pairs(g, s, x, y))
    }
}

/// The whole edge-directed output grid.
pub open spec fn edge_grid(g: GridV, s: Scale) -> GridV {
    grid_from(
        scaled_dim(g.w, s),
        scaled_dim(g.h, s),
        |x: int, y: int| edge_sample(g, s, x, y),
    )
}

/// Sum of absolute per-channel differences, on machine integers.
pub(crate) fn px_abs_diff_exec(a: Pixel, b: Pixel) -> (r: u64)
    ensures
        r == px_abs_diff(a, b),
        r <= 765,
{
    let dr = if a.r >= b.r {
        a.r - b.r
    } else {
        b.r - a.r
    };
    let dg = if a.g >= b.g {
        a.g - b.g
    } else {
        b.g - a.g
    };
    let db = if a.b >= b.b {
        a.b - b.b
    } else {
        b.b - a.b
    };
    dr as u64 + dg as u64 + db as u64
}

/// Signed sum of per-channel differences, on machine integers.
fn px_signed_diff_exec(a: Pixel, b: Pixel) -> (r: i64)
    ensures
        r == px_signed_diff(a, b),
        -765 <= r <= 765,
{
    (a.r as i64 - b.r as i64) + (a.g as i64 - b.g as i64) + (a.b as i64 - b.b as i64)
}

/// One edge-directed sample at output pixel `(x, y)`.
fn sample_edge_directed(image: &Image, scale: Scale, x: usize, y: usize) -> (p: Pixel)
    requires
        image.wf(),
        image@.w >= 1,
        image@.h >= 1,
        scale.wf(),
    ensures
        p == edge_sample(image@, scale, x as int, y as int),
{
    let ghost g = image@;
    let (x0, fx) = map_src(x, scale);
    let (y0, fy) = map_src(y, scale);
    let left = image.clamped_wide(x0 - 1, y0);
    let right = image.clamped_wide(x0 + 1, y0);
    let top = image.clamped_wide(x0, y0 - 1);
    let bottom = image.clamped_wide(x0, y0 + 1);
    let gx = px_abs_diff_exec(right, left);
    let gy = px_abs_diff_exec(bottom, top);
    proof {
        assert(0 <= gx * gx <= 585225 && 0 <= gy * gy <= 585225) by (nonlinear_arith)
            requires
                0 <= gx <= 765,
                0 <= gy <= 765,
        ;
    }
    if gx * gx + gy * gy < 100 {
        return sample_bilinear(image, scale, x, y);
    }
    let ghost ps = edge_pairs(g, scale, x as int, y as int);
    let dxs = px_signed_diff_exec(right, left) as i128;
    let dys = px_signed_diff_exec(bottom, top) as i128;
    proof {
        assert(0 <= dxs * dxs <= 585225 && 0 <= dys * dys <= 585225) by (nonlinear_arith)
            requires
                -765 <= dxs <= 765,
                -765 <= dys <= 765,
        ;
    }
    let h = isqrt_u64((dxs * dxs) as u64 + (dys * dys) as u64) as i128;
    proof {
        assert((dxs * dxs) as u64 + (dys * dys) as u64 == (dxs * dxs + dys * dys) as nat);
        assert(0 <= h * h && h * h <= dxs * dxs + dys * dys) by (nonlinear_arith)
            requires
                h >= 0,
                (h as nat) * (h as nat) <= (dxs * dxs + dys * dys) as nat,
        ;
        assert(h <= 1531) by (nonlinear_arith)
            requires
                0 <= h,
                h * h <= 1170450,
        ;
    }
    let (cosq, sinq): (i128, i128) = if h == 0 {
        (0x1_0000, 0)
    } else {
        proof {
            lemma_mul_abs_bound(dxs as int, 765, 0x1_0000, 0x1_0000);
            lemma_mul_abs_bound(dys as int, 765, 0x1_0000, 0x1_0000);
        }
        let (c, _rc) = floor_div_mod_i128(dxs * 0x1_0000, h);
        let (si, _rs) = floor_div_mod_i128(dys * 0x1_0000, h);
        proof {
            crate::arith::lemma_div_magnitude(dxs as int * 0x1_0000, h as int, 765int * 0x1_0000);
            crate::arith::lemma_div_magnitude(dys as int * 0x1_0000, h as int, 765int * 0x1_0000);
        }
        (c, si)
    };
    proof {
        lemma_mul_abs_bound(x0 as int, 0x2_0000_0000_0000_0000_0000, 0x1_0000, 0x1_0000);
        lemma_mul_abs_bound(y0 as int, 0x2_0000_0000_0000_0000_0000, 0x1_0000, 0x1_0000);
    }
    let fxq: u64 = fx * 0x1_0000 / (2 * scale.num as u64);
    let fyq: u64 = fy * 0x1_0000 / (2 * scale.num as u64);
    proof {
        crate::arith::lemma_div_bound(
            fx as int * 0x1_0000,
            0x1_4000_0000,
            2 * scale.num as int,
        );
        crate::arith::lemma_div_bound(
            fy as int * 0x1_0000,
            0x1_4000_0000,
            2 * scale.num as int,
        );
    }
    let xq: i128 = x0 * 0x1_0000 + fxq as i128;
    let yq: i128 = y0 * 0x1_0000 + fyq as i128;
    let mut pairs: Vec<(Pixel, i128)> = Vec::new();
    let mut k: usize = 0;
    while k < 3
        invariant
            image.wf(),
            image@.w >= 1,
            image@.h >= 1,
            g == image@,
            k <= 3,
            ps == edge_pairs(g, scale, x as int, y as int),
            ps.len() == 3,
            pairs@ =~= ps.take(k as int),
            forall|j: int|
                0 <= j < pairs@.len() ==> -WEIGHT_BOUND <= (#[trigger] pairs@[j]).1
                    <= WEIGHT_BOUND,
            -0x4_0000_0000_0000_0000_0000_0000 <= xq <= 0x4_0000_0000_0000_0000_0000_0000,
            -0x4_0000_0000_0000_0000_0000_0000 <= yq <= 0x4_0000_0000_0000_0000_0000_0000,
            -0x1_0000_0000 <= cosq <= 0x1_0000_0000,
            -0x1_0000_0000 <= sinq <= 0x1_0000_0000,
            edge_dir_state(
                g,
                scale,
                x as int,
                y as int,
                xq as int,
                yq as int,
                cosq as int,
                sinq as int,
            ),
        decreases 3 - k,
    {
        let i: i128 = k as i128 - 1;
        proof {
            lemma_mul_abs_bound(i as int, 1, cosq as int, 0x1_0000_0000);
            lemma_mul_abs_bound(i as int, 1, sinq as int, 0x1_0000_0000);
        }
        let (icos, _r1) = floor_div_mod_i128(i * cosq, 2);
        let (isin, _r2) = floor_div_mod_i128(i * sinq, 2);
        let (rx, _r3) = floor_div_mod_i128(xq + icos + 0x8000, 0x1_0000);
        let (ry, _r4) = floor_div_mod_i128(yq + isin + 0x8000, 0x1_0000);
        let px = image.clamped_wide(rx, ry);
        let w: i128 = if i == 0 {
            10
        } else {
            7
        };
        proof {
            assert(ps[k as int] == (px, w));
            assert(ps.take(k + 1).drop_last() =~= ps.take(k as int));
            assert(ps.take(k + 1).last() == ps[k as int]);
        }
        pairs.push((px, w));
        k = k + 1;
    }
    proof {
        assert(ps.take(3) =~= ps);
    }
    Pixel::weighted_average(&pairs)
}

impl EdgeDirected {
    /// Upscale with edge-directed interpolation; the output has dimensions
    /// `round(w * scale)` x `round(h * scale)` and every output pixel is
    /// either the bilinear blend (flat regions) or the directional blend
    /// along the local edge.
    pub fn upscale(&self, image: &Image, scale: Scale) -> (out: Image)
        requires
            upscale_req(image@, scale),
        ensures
            out.wf(),
            out@ == edge_grid(image@, scale),
    {
        let sw = scaled_dim_exec(image.width, scale);
        let sh = scaled_dim_exec(image.height, scale);
        let ghost m = edge_grid(image@, scale);
        let mut out = Image::new(sw, sh);
        let mut y: usize = 0;
        while y < sh
            invariant
                upscale_req(image@, scale),
                y <= sh,
                sw == scaled_dim(image@.w, scale),
                sh == scaled_dim(image@.h, scale),
                m == edge_grid(image@, scale),
                out.wf(),
                out.width == sw,
                out.height == sh,
                forall|i: int| 0 <= i < y * sw ==> out@.d[i] == m.d[i],
            decreases sh - y,
        {
            let mut x: usize = 0;
            while x < sw
                invariant
                    upscale_req(image@, scale),
                    y < sh,
                    x <= sw,
                    sw == scaled_dim(image@.w, scale),
                    sh == scaled_dim(image@.h, scale),
                    m == edge_grid(image@, scale),
                    out.wf(),
                    out.width == sw,
                    out.height == sh,
                    forall|i: int| 0 <= i < y * sw + x ==> out@.d[i] == m.d[i],
                decreases sw - x,
            {
                let p = sample_edge_directed(image, scale, x, y);
                proof {
                    crate::image::lemma_row_major_index(sw as int, sh as int, x as int, y as int);
                }
                out.set_pixel(x, y, p);
                proof {
                    lemma_row_major_coords(sw as int, x as int, y as int);
                    assert(out@.d[y * sw + x] == p);
                }
                x = x + 1;
            }
            proof {
                assert((y + 1) * sw == y * sw + sw) by (nonlinear_arith);
            }
            y = y + 1;
        }
        proof {
            assert(sh * sw <= out@.d.len()) by (nonlinear_arith)
                requires
                    out@.d.len() == sw * sh,
            ;
            assert(out@ =~= m);
        }
        out
    }

    /// The display name of this algorithm.
    pub fn name(&self) -> (r: &'static str)
        ensures
            r@ == "Edge-Directed Interpolation"@,
    {
        "Edge-Directed Interpolation"
    }

    /// Cost class: medium.
    pub fn tier(&self) -> (t: UpscaleTier)
        ensures
            t == UpscaleTier::Medium,
    {
        UpscaleTier::Medium
    }
}

/// Pattern-rule 2x-block upscaling, inspired by the xBR family: each source
/// pixel becomes a 2x2 output block defaulted to the source pixel; detected
/// horizontal, vertical and diagonal edges blend the block's corners toward
/// the corresponding neighbors. Other scale factors repeat the 2x step and
/// finish with a nearest-neighbor area mapping to the exact target size.
#[derive(Clone, Copy)]
pub struct ScaleByRules;

/// The output pixel of the 2x step at output coordinate `(ox, oy)`: the
/// block's corner is chosen by the parities of `ox` and `oy`; each
/// neighbor-pair difference above the threshold 30 blends its corner, with
/// diagonal rules taking precedence over vertical, and vertical over
/// horizontal.
pub open spec fn sbr2_sample(g: GridV, ox: int, oy: int) -> Pixel {
    let x = ox / 2;
    let y = oy / 2;
    let c = g.at(x, y);
    let top = g.at_clamped(x, y - 1);
    let left = g.at_clamped(x - 1, y);
    let right = g.at_clamped(x + 1, y);
    let bottom = g.at_clamped(x, y + 1);
    let tl = g.at_clamped(x - 1, y - 1);
    let tr = g.at_clamped(x + 1, y - 1);
    let bl = g.at_clamped(x - 1, y + 1);
    let br = g.at_clamped(x + 1, y + 1);
    let eh = px_abs_diff(left, right) > 30;
    let ev = px_abs_diff(top, bottom) > 30;
    let d1 = px_abs_diff(tl, br) > 30;
    let d2 = px_abs_diff(tr, bl) > 30;
    if ox % 2 == 0 && oy % 2 == 0 {
        if d1 {
            lerp_px(c, tl, 3, 10)
        } else if ev {
            lerp_px(c, top, 1, 2)
        } else if eh {
            lerp_px(c, left, 1, 2)
        } else {
            c
        }
    } else if ox % 2 == 1 && oy % 2 == 0 {
        if d2 {
            lerp_px(c, tr, 3, 10)
        } else if eh {
            lerp_px(c, right, 1, 2)
        } else {
            c
        }
    } else if ox % 2 == 0 {
        if ev {
            lerp_px(c, bottom, 1, 2)
        } else {
            c
        }
    } else {
        c
    }
}

/// The whole 2x pattern-rule output grid.
pub open spec fn sbr2_grid(g: GridV) -> GridV {
    grid_from(2 * g.w, 2 * g.h, |ox: int, oy: int| sbr2_sample(g, ox, oy))
}

/// How far the grid still is from the target size; the repeated 2x step
/// drives this to zero.
pub open spec fn expand_measure(g: GridV, tw: int, th: int) -> int {
    (if g.w < tw {
        tw - g.w
    } else {
        0
    }) + (if g.h < th {
        th - g.h
    } else {
        0
    })
}

/// The grid after repeating the 2x step until both dimensions meet or exceed
/// the target.
pub open spec fn sbr_expand(g: GridV, tw: int, th: int) -> GridV
    decreases expand_measure(g, tw, th),
        when 1 <= g.w && 1 <= g.h
{
    if g.w < tw || g.h < th {
        sbr_expand(sbr2_grid(g), tw, th)
    } else {
        g
    }
}

/// Every intermediate grid of the repeated 2x step fits in memory.
pub open spec fn expand_fits(g: GridV, tw: int, th: int) -> bool
    decreases expand_measure(g, tw, th),
        when 1 <= g.w && 1 <= g.h
{
    if g.w < tw || g.h < th {
        &&& 2 * g.w <= usize::MAX
        &&& 2 * g.h <= usize::MAX
        &&& 4 * (g.w * g.h) <= usize::MAX
        &&& expand_fits(sbr2_grid(g), tw, th)
    } else {
        true
    }
}

/// Nearest-neighbor area mapping of a grid down to the exact target size:
/// output pixel `(x, y)` reads source pixel `(x * w / tw, y * h / th)`.
pub open spec fn sbr_resize(g: GridV, tw: int, th: int) -> GridV {
    grid_from(tw, th, |x: int, y: int| g.at(x * g.w / tw, y * g.h / th))
}

/// The whole pattern-rule output grid: the 2x step at scale 2 exactly, and
/// repeated 2x steps plus the exact-size area mapping for other factors.
pub open spec fn sbr_model(g: GridV, s: Scale) -> GridV {
    if s.is_two() {
        sbr2_grid(g)
    } else {
        let tw = scaled_dim(g.w, s);
        let th = scaled_dim(g.h, s);
        let e = sbr_expand(g, tw, th);
        if e.w != tw || e.h != th {
            sbr_resize(e, tw, th)
        } else {
            e
        }
    }
}

/// What the pattern-rule upscaler asks of its input beyond `upscale_req`:
/// at a scale other than 2, every intermediate grid of the repeated 2x step
/// fits in memory.
pub open spec fn sbr_req(g: GridV, s: Scale) -> bool {
    !s.is_two() ==> expand_fits(g, scaled_dim(g.w, s), scaled_dim(g.h, s))
}

/// One 2x-step sample at output pixel `(ox, oy)`.
fn sbr2_sample_exec(image: &Image, ox: usize, oy: usize) -> (p: Pixel)
    requires
        image.wf(),
        image@.w >= 1,
        image@.h >= 1,
        ox < 2 * image@.w,
        oy < 2 * image@.h,
    ensures
        p == sbr2_sample(image@, ox as int, oy as int),
{
    let x = ox / 2;
    let y = oy / 2;
    let xi = x as i128;
    let yi = y as i128;
    let c = image.get_pixel(x, y).unwrap();
    let top = image.clamped_wide(xi, yi - 1);
    let left = image.clamped_wide(xi - 1, yi);
    let right = image.clamped_wide(xi + 1, yi);
    let bottom = image.clamped_wide(xi, yi + 1);
    let tl = image.clamped_wide(xi - 1, yi - 1);
    let tr = image.clamped_wide(xi + 1, yi - 1);
    let bl = image.clamped_wide(xi - 1, yi + 1);
    let br = image.clamped_wide(xi + 1, yi + 1);
    let eh = px_abs_diff_exec(left, right) > 30;
    let ev = px_abs_diff_exec(top, bottom) > 30;
    let d1 = px_abs_diff_exec(tl, br) > 30;
    let d2 = px_abs_diff_exec(tr, bl) > 30;
    if ox % 2 == 0 && oy % 2 == 0 {
        if d1 {
            Pixel::lerp(c, tl, 3, 10)
        } else if ev {
            Pixel::lerp(c, top, 1, 2)
        } else if eh {
            Pixel::lerp(c, left, 1, 2)
        } else {
            c
        }
    } else if ox % 2 == 1 && oy % 2 == 0 {
        if d2 {
            Pixel::lerp(c, tr, 3, 10)
        } else if eh {
            Pixel::lerp(c, right, 1, 2)
        } else {
            c
        }
    } else if ox % 2 == 0 {
        if ev {
            Pixel::lerp(c, bottom, 1, 2)
        } else {
            c
        }
    } else {
        c
    }
}

impl ScaleByRules {
    /// One 2x pattern-matching pass: every source pixel becomes a 2x2 output
    /// block with edge-directed corner blends.
    pub fn upscale_2x(image: &Image) -> (out: Image)
        requires
            image.wf(),
            image@.w >= 1,
            image@.h >= 1,
            2 * image@.w <= usize::MAX,
            2 * image@.h <= usize::MAX,
            4 * (image@.w * image@.h) <= usize::MAX,
        ensures
            out.wf(),
            out@ == sbr2_grid(image@),
    {
        let sw = 2 * image.width;
        let sh = 2 * image.height;
        proof {
            assert(sw * sh == 4 * (image@.w * image@.h)) by (nonlinear_arith)
                requires
                    sw == 2 * image@.w,
                    sh == 2 * image@.h,
            ;
        }
        let ghost m = sbr2_grid(image@);
        let mut out = Image::new(sw, sh);
        let mut y: usize = 0;
        while y < sh
            invariant
                image.wf(),
                image@.w >= 1,
                image@.h >= 1,
                y <= sh,
                sw == 2 * image@.w,
                sh == 2 * image@.h,
                m == sbr2_grid(image@),
                out.wf(),
                out.width == sw,
                out.height == sh,
                forall|i: int| 0 <= i < y * sw ==> out@.d[i] == m.d[i],
            decreases sh - y,
        {
            let mut x: usize = 0;
            while x < sw
                invariant
                    image.wf(),
                    image@.w >= 1,
                    image@.h >= 1,
                    y < sh,
                    x <= sw,
                    sw == 2 * image@.w,
                    sh == 2 * image@.h,
                    m == sbr2_grid(image@),
                    out.wf(),
                    out.width == sw,
                    out.height == sh,
                    forall|i: int| 0 <= i < y * sw + x ==> out@.d[i] == m.d[i],
                decreases sw - x,
            {
                let p = sbr2_sample_exec(image, x, y);
                proof {
                    crate::image::lemma_row_major_index(sw as int, sh as int, x as int, y as int);
                }
                out.set_pixel(x, y, p);
                proof {
                    lemma_row_major_coords(sw as int, x as int, y as int);
                    assert(out@.d[y * sw + x] == p);
                }
                x = x + 1;
            }
            proof {
                assert((y + 1) * sw == y * sw + sw) by (nonlinear_arith);
            }
            y = y + 1;
        }
        proof {
            assert(sh * sw <= out@.d.len()) by (nonlinear_arith)
                requires
                    out@.d.len() == sw * sh,
            ;
            assert(out@ =~= m);
        }
        out
    }

    /// Upscale by pattern rules: the 2x step at scale 2 exactly, and for
    /// other factors repeated 2x steps until the working image meets or
    /// exceeds the target, then a nearest-neighbor area mapping down to the
    /// exact `round(w * scale)` x `round(h * scale)` size.
    pub fn upscale(&self, image: &Image, scale: Scale) -> (out: Image)
        requires
            upscale_req(image@, scale),
            sbr_req(image@, scale),
        ensures
            out.wf(),
            out@ == sbr_model(image@, scale),
    {
        if scale.num == 2 * scale.den {
            proof {
                crate::scale::lemma_scaled_dim_two(image@.w, scale);
                crate::scale::lemma_scaled_dim_two(image@.h, scale);
                assert(4 * (image@.w * image@.h) == (2 * image@.w) * (2 * image@.h))
                    by (nonlinear_arith);
            }
            Self::upscale_2x(image)
        } else {
            let tw = scaled_dim_exec(image.width, scale);
            let th = scaled_dim_exec(image.height, scale);
            let mut current = image.duplicate();
            while current.width < tw || current.height < th
                invariant
                    current.wf(),
                    1 <= current@.w,
                    1 <= current@.h,
                    tw == scaled_dim(image@.w, scale),
                    th == scaled_dim(image@.h, scale),
                    tw * th <= usize::MAX,
                    expand_fits(current@, tw as int, th as int),
                    sbr_expand(current@, tw as int, th as int) == sbr_expand(
                        image@,
                        tw as int,
                        th as int,
                    ),
                decreases expand_measure(current@, tw as int, th as int),
            {
                current = Self::upscale_2x(&current);
            }
            proof {
                assert(sbr_expand(current@, tw as int, th as int) == current@);
            }
            if current.width != tw || current.height != th {
                let ghost m = sbr_resize(current@, tw as int, th as int);
                let cw = current.width;
                let ch = current.height;
                let mut out = Image::new(tw, th);
                let mut y: usize = 0;
                while y < th
                    invariant
                        current.wf(),
                        1 <= current@.w,
                        1 <= current@.h,
                        cw == current@.w,
                        ch == current@.h,
                        y <= th,
                        m == sbr_resize(current@, tw as int, th as int),
                        out.wf(),
                        out.width == tw,
                        out.height == th,
                        forall|i: int| 0 <= i < y * tw ==> out@.d[i] == m.d[i],
                    decreases th - y,
                {
                    let mut x: usize = 0;
                    while x < tw
                        invariant
                            current.wf(),
                            1 <= current@.w,
                            1 <= current@.h,
                            cw == current@.w,
                            ch == current@.h,
                            y < th,
                            x <= tw,
                            m == sbr_resize(current@, tw as int, th as int),
                            out.wf(),
                            out.width == tw,
                            out.height == th,
                            forall|i: int| 0 <= i < y * tw + x ==> out@.d[i] == m.d[i],
                        decreases tw - x,
                    {
                        proof {
                            crate::arith::lemma_mul_bound(
                                x as int,
                                0xFFFF_FFFF_FFFF_FFFF,
                                cw as int,
                                0xFFFF_FFFF_FFFF_FFFF,
                            );
                            crate::arith::lemma_mul_bound(
                                y as int,
                                0xFFFF_FFFF_FFFF_FFFF,
                                ch as int,
                                0xFFFF_FFFF_FFFF_FFFF,
                            );
                        }
                        proof {
                            assert((x as int) * (cw as int) / (tw as int) < cw as int
                                && 0 <= (x as int) * (cw as int) / (tw as int)) by (nonlinear_arith)
                                requires
                                    0 <= (x as int) < (tw as int),
                                    1 <= cw as int,
                                    1 <= tw as int,
                            ;
                            assert((y as int) * (ch as int) / (th as int) < ch as int
                                && 0 <= (y as int) * (ch as int) / (th as int)) by (nonlinear_arith)
                                requires
                                    0 <= (y as int) < (th as int),
                                    1 <= ch as int,
                                    1 <= th as int,
                            ;
                        }
                        let sx = ((x as u128) * (cw as u128) / (tw as u128)) as usize;
                        let sy = ((y as u128) * (ch as u128) / (th as u128)) as usize;
                        let p = current.get_pixel(sx, sy).unwrap();
                        proof {
                            crate::image::lemma_row_major_index(
                                tw as int,
                                th as int,
                                x as int,
                                y as int,
                            );
                        }
                        out.set_pixel(x, y, p);
                        proof {
                            lemma_row_major_coords(tw as int, x as int, y as int);
                            assert(out@.d[y * tw + x] == p);
                        }
                        x = x + 1;
                    }
                    proof {
                        assert((y + 1) * tw == y * tw + tw) by (nonlinear_arith);
                    }
                    y = y + 1;
                }
                proof {
                    assert(th * tw == tw * th) by (nonlinear_arith);
                    assert(out@ =~= m);
                }
                out
            } else {
                current
            }
        }
    }

    /// The display name of this algorithm.
    pub fn name(&self) -> (r: &'static str)
        ensures
            r@ == "Scale-by-Rules (xBR-like)"@,
    {
        "Scale-by-Rules (xBR-like)"
    }

    /// Cost class: medium.
    pub fn tier(&self) -> (t: UpscaleTier)
        ensures
            t == UpscaleTier::Medium,
    {
        UpscaleTier::Medium
    }
}

} // verus!
