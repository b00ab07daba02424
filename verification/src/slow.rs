//! Slow-tier resamplers: iterative back-projection (simulate-downsample /
//! compute-error / back-project refinement of a bilinear seed) and
//! total-variation regularization (gradient-weighted local smoothing of a
//! bicubic seed).

use vstd::prelude::*;
use crate::arith::{isqrt_u64, sqrt_floor};
use crate::fast::{Bicubic, bicubic_grid};
use crate::image::{GridV, Image, Pixel, black_px, grid_from, lemma_row_major_coords};
use crate::instant::{Bilinear, bilin_grid, upscale_req};
use crate::scale::{Scale, scaled_dim};
use crate::upscale_tier::UpscaleTier;

verus! {

/// Per-channel sums of the pixels of row `y` over columns `[xs, xe)`.
pub open spec fn row_sums(g: GridV, xs: int, xe: int, y: int) -> (int, int, int)
    decreases xe - xs,
{
    if xe <= xs {
        (0, 0, 0)
    } else {
        let t = row_sums(g, xs, xe - 1, y);
        let p = g.at(xe - 1, y);
        (t.0 + p.r, t.1 + p.g, t.2 + p.b)
    }
}

/// Per-channel sums of the pixels of the rectangle `[xs, xe) x [ys, ye)`.
pub open spec fn rect_sums(g: GridV, xs: int, xe: int, ys: int, ye: int) -> (int, int, int)
    decreases ye - ys,
{
    if ye <= ys {
        (0, 0, 0)
    } else {
        let t = rect_sums(g, xs, xe, ys, ye - 1);
        let rw = row_sums(g, xs, xe, ye - 1);
        (t.0 + rw.0, t.1 + rw.1, t.2 + rw.2)
    }
}

/// The cell of the block-average downsampling of `cur` to `tw` x `th` that
/// covers output pixel `(x, y)`: the average of the covered source region,
/// or black when the region is empty.
pub open spec fn ds_cell(cur: GridV, tw: int, th: int, x: int, y: int) -> Pixel {
    let xs = x * cur.w / tw;
    let xe0 = (x + 1) * cur.w / tw;
    let xe = if xe0 <= cur.w {
        xe0
    } else {
        cur.w
    };
    let ys = y * cur.h / th;
    let ye0 = (y + 1) * cur.h / th;
    let ye = if ye0 <= cur.h {
        ye0
    } else {
        cur.h
    };
    let cnt = (xe - xs) * (ye - ys);
    if cnt <= 0 {
        black_px()
    } else {
        let s = rect_sums(cur, xs, xe, ys, ye);
        Pixel { r: (s.0 / cnt) as u8, g: (s.1 / cnt) as u8, b: (s.2 / cnt) as u8 }
    }
}

/// The whole block-average downsampling of `cur` to `tw` x `th`.
pub open spec fn ds_grid(cur: GridV, tw: int, th: int) -> GridV {
    grid_from(tw, th, |x: int, y: int| ds_cell(cur, tw, th, x, y))
}

/// One channel of the reconstruction error, biased by +128 to fit the
/// unsigned channel range and clamped to `[0, 255]`.
pub open spec fn err_ch(o: u8, s: u8) -> u8 {
    let v = o - s + 128;
    if v < 0 {
        0u8
    } else if v > 255 {
        255u8
    } else {
        v as u8
    }
}

/// The biased per-pixel reconstruction error between the original and the
/// simulated downsampling.
pub open spec fn err_px(o: Pixel, s: Pixel) -> Pixel {
    Pixel { r: err_ch(o.r, s.r), g: err_ch(o.g, s.g), b: err_ch(o.b, s.b) }
}

/// The error grid between the original and the simulated downsampling.
pub open spec fn err_grid(orig: GridV, sim: GridV) -> GridV {
    grid_from(orig.w, orig.h, |x: int, y: int| err_px(orig.at(x, y), sim.at(x, y)))
}

/// One channel after back-projection: the bias is removed from the error and
/// the correction `rate * (error - 128)` is applied, clamped to `[0, 255]`.
pub open spec fn bp_ch(c: u8, e: u8, rn: int, rd: int) -> u8 {
    let num = c * rd + (e - 128) * rn;
    if num < 0 {
        0u8
    } else if num / rd >= 255 {
        255u8
    } else {
        (num / rd) as u8
    }
}

/// A pixel after back-projection of its error cell.
pub open spec fn bp_px(c: Pixel, e: Pixel, rn: int, rd: int) -> Pixel {
    Pixel { r: bp_ch(c.r, e.r, rn, rd), g: bp_ch(c.g, e.g, rn, rd), b: bp_ch(c.b, e.b, rn, rd) }
}

/// The back-projection pass: every high-resolution pixel maps by floor
/// division to its low-resolution error cell and moves by the learning rate
/// times the unbiased error; pixels whose cell lies outside the error grid
/// are left unchanged.
pub open spec fn bp_grid(cur: GridV, err: GridV, s: Scale, rn: int, rd: int) -> GridV {
    grid_from(
        cur.w,
        cur.h,
        |x: int, y: int|
            {
                let sx = x * s.den / (s.num as int);
                let sy = y * s.den / (s.num as int);
                if sx < err.w && sy < err.h {
                    bp_px(cur.at(x, y), err.at(sx, sy), rn, rd)
                } else {
                    cur.at(x, y)
                }
            },
    )
}

/// One refinement step: simulate the downsampling back to the source size,
/// take the biased error against the source, and back-project it.
pub open spec fn ibp_step(orig: GridV, s: Scale, rn: int, rd: int, cur: GridV) -> GridV {
    bp_grid(cur, err_grid(orig, ds_grid(cur, orig.w, orig.h)), s, rn, rd)
}

/// The back-projection result after `n` refinement steps from the bilinear
/// seed; zero steps give exactly the bilinear upscale.
pub open spec fn ibp_iterate(orig: GridV, s: Scale, rn: int, rd: int, n: nat) -> GridV
    decreases n,
{
    if n == 0 {
        bilin_grid(orig, s)
    } else {
        ibp_step(orig, s, rn, rd, ibp_iterate(orig, s, rn, rd, (n - 1) as nat))
    }
}

/// Run with zero iterations, iterative back-projection degrades exactly to
/// its bilinear seed.
pub proof fn lemma_ibp_zero_is_bilinear(orig: GridV, s: Scale, rn: int, rd: int)
    ensures
        ibp_iterate(orig, s, rn, rd, 0) == bilin_grid(orig, s),
{
}

/// Iterative back-projection: refine a bilinear seed by repeatedly
/// simulating the downsampling, comparing it with the source, and feeding
/// the residual error back into the high-resolution estimate.
#[derive(Clone, Copy)]
pub struct IterativeBackProjection {
    /// Number of refinement passes.
    pub iterations: usize,
    /// Learning-rate numerator.
    pub rate_num: u32,
    /// Learning-rate denominator.
    pub rate_den: u32,
}

impl IterativeBackProjection {
    /// The learning rate is a positive rational no greater than one, with
    /// small parts.
    pub open spec fn wf(self) -> bool {
        &&& 1 <= self.rate_den <= 1000
        &&& 1 <= self.rate_num <= self.rate_den
    }

    /// Standard preset: 10 iterations at learning rate 1/2.
    pub fn new() -> (r: IterativeBackProjection)
        ensures
            r == (IterativeBackProjection { iterations: 10usize, rate_num: 1u32, rate_den: 2u32 }),
            r.wf(),
    {
        IterativeBackProjection { iterations: 10, rate_num: 1, rate_den: 2 }
    }

    /// Fast preset: 5 iterations at learning rate 1/2.
    pub fn fast() -> (r: IterativeBackProjection)
        ensures
            r == (IterativeBackProjection { iterations: 5usize, rate_num: 1u32, rate_den: 2u32 }),
            r.wf(),
    {
        IterativeBackProjection { iterations: 5, rate_num: 1, rate_den: 2 }
    }

    /// Quality preset: 20 iterations at learning rate 3/10.
    pub fn quality() -> (r: IterativeBackProjection)
        ensures
            r == (IterativeBackProjection { iterations: 20usize, rate_num: 3u32, rate_den: 10u32 }),
            r.wf(),
    {
        IterativeBackProjection { iterations: 20, rate_num: 3, rate_den: 10 }
    }
}

impl Default for IterativeBackProjection {
    /// The standard preset.
    fn default() -> (r: IterativeBackProjection)
        ensures
            r == (IterativeBackProjection { iterations: 10usize, rate_num: 1u32, rate_den: 2u32 }),
    {
        IterativeBackProjection::new()
    }
}

/// Block-average downsampling of `image` to `tw` x `th` (the simulated
/// acquisition of a low-resolution image from the current high-resolution
/// estimate).
pub(crate) fn simulate_downsample(image: &Image, tw: usize, th: usize) -> (out: Image)
    requires
        image.wf(),
        1 <= tw,
        1 <= th,
        tw * th <= usize::MAX,
    ensures
        out.wf(),
        out@ == ds_grid(image@, tw as int, th as int),
{
    let ghost m = ds_grid(image@, tw as int, th as int);
    let mut out = Image::new(tw, th);
    let mut y: usize = 0;
    while y < th
        invariant
            image.wf(),
            y <= th,
            m == ds_grid(image@, tw as int, th as int),
            out.wf(),
            out.width == tw,
            out.height == th,
            1 <= tw,
            1 <= th,
            forall|i: int| 0 <= i < y * tw ==> out@.d[i] == m.d[i],
        decreases th - y,
    {
        let mut x: usize = 0;
        while x < tw
            invariant
                image.wf(),
                y < th,
                x <= tw,
                m == ds_grid(image@, tw as int, th as int),
                out.wf(),
                out.width == tw,
                out.height == th,
                1 <= tw,
                1 <= th,
                forall|i: int| 0 <= i < y * tw + x ==> out@.d[i] == m.d[i],
            decreases tw - x,
        {
            let p = ds_cell_exec(image, tw, th, x, y);
            proof {
                crate::image::lemma_row_major_index(tw as int, th as int, x as int, y as int);
            }
            out.set_pixel(x, y, p);
            proof {
                lemma_row_major_coords(tw as int, x as int, y as int);
                assert(out@.d[y * tw + x] == p);
            }
            x = x + 1;
        }
        proof {
            assert((y + 1) * tw == y * tw + tw) by (nonlinear_arith);
        }
        y = y + 1;
    }
    proof {
        assert(th * tw == tw * th) by (nonlinear_arith);
        assert(out@ =~= m);
    }
    out
}

/// The average of the source region covered by downsampled pixel `(x, y)`.
fn ds_cell_exec(image: &Image, tw: usize, th: usize, x: usize, y: usize) -> (p: Pixel)
    requires
        image.wf(),
        1 <= tw,
        1 <= th,
        x < tw,
        y < th,
    ensures
        p == ds_cell(image@, tw as int, th as int, x as int, y as int),
{
    let cw = image.width;
    let ch = image.height;
    let n = image.pixels.len();
    let ghost g = image@;
    proof {
        assert(cw * ch == n);
        crate::arith::lemma_mul_bound(x as int, 0xFFFF_FFFF_FFFF_FFFF, cw as int, 0xFFFF_FFFF_FFFF_FFFF);
        crate::arith::lemma_mul_bound(
            x as int + 1,
            0xFFFF_FFFF_FFFF_FFFF,
            cw as int,
            0xFFFF_FFFF_FFFF_FFFF,
        );
        crate::arith::lemma_mul_bound(y as int, 0xFFFF_FFFF_FFFF_FFFF, ch as int, 0xFFFF_FFFF_FFFF_FFFF);
        crate::arith::lemma_mul_bound(
            y as int + 1,
            0xFFFF_FFFF_FFFF_FFFF,
            ch as int,
            0xFFFF_FFFF_FFFF_FFFF,
        );
        assert((x as int) * (cw as int) / (tw as int) <= ((x as int) + 1) * (cw as int) / (
        tw as int) <= cw as int && 0 <= (x as int) * (cw as int) / (tw as int)) by (nonlinear_arith)
            requires
                0 <= (x as int) < (tw as int),
                0 <= cw as int,
                1 <= tw as int,
        ;
        assert((y as int) * (ch as int) / (th as int) <= ((y as int) + 1) * (ch as int) / (
        th as int) <= ch as int && 0 <= (y as int) * (ch as int) / (th as int)) by (nonlinear_arith)
            requires
                0 <= (y as int) < (th as int),
                0 <= ch as int,
                1 <= th as int,
        ;
    }
    let xs = ((x as u128) * (cw as u128) / (tw as u128)) as usize;
    let xe0 = (((x as u128) + 1) * (cw as u128) / (tw as u128)) as usize;
    let xe = if xe0 <= cw {
        xe0
    } else {
        cw
    };
    let ys = ((y as u128) * (ch as u128) / (th as u128)) as usize;
    let ye0 = (((y as u128) + 1) * (ch as u128) / (th as u128)) as usize;
    let ye = if ye0 <= ch {
        ye0
    } else {
        ch
    };
    let mut rs: u128 = 0;
    let mut gs: u128 = 0;
    let mut bs: u128 = 0;
    let mut count: usize = 0;
    let mut yy: usize = ys;
    while yy < ye
        invariant
            image.wf(),
            g == image@,
            xs <= xe <= cw,
            ys <= yy <= ye <= ch,
            cw == g.w,
            ch == g.h,
            (rs as int, gs as int, bs as int) == rect_sums(g, xs as int, xe as int, ys as int, yy as int),
            rs <= 255 * (count as u128),
            gs <= 255 * (count as u128),
            bs <= 255 * (count as u128),
            count == (yy - ys) * (xe - xs),
            count <= cw * ch,
            cw * ch == n,
        decreases ye - yy,
    {
        let mut xx: usize = xs;
        while xx < xe
            invariant
                image.wf(),
                g == image@,
                xs <= xx <= xe <= cw,
                ys <= yy < ye <= ch,
                cw == g.w,
                ch == g.h,
                (rs as int, gs as int, bs as int) == {
                    let t = rect_sums(g, xs as int, xe as int, ys as int, yy as int);
                    let rw = row_sums(g, xs as int, xx as int, yy as int);
                    (t.0 + rw.0, t.1 + rw.1, t.2 + rw.2)
                },
                rs <= 255 * (count as u128),
                gs <= 255 * (count as u128),
                bs <= 255 * (count as u128),
                count == (yy - ys) * (xe - xs) + (xx - xs),
                count <= cw * ch,
                cw * ch == n,
            decreases xe - xx,
        {
            let px = image.get_pixel(xx, yy).unwrap();
            proof {
                assert(count < cw * ch) by (nonlinear_arith)
                    requires
                        count == (yy - ys) * (xe - xs) + (xx - xs),
                        0 <= ys <= yy,
                        yy < ye,
                        ye <= ch,
                        0 <= xs <= xx,
                        xx < xe,
                        xe <= cw,
                ;
            }
            rs = rs + px.r as u128;
            gs = gs + px.g as u128;
            bs = bs + px.b as u128;
            count = count + 1;
            xx = xx + 1;
        }
        proof {
            assert(rect_sums(g, xs as int, xe as int, ys as int, yy + 1) == {
                let t = rect_sums(g, xs as int, xe as int, ys as int, yy as int);
                let rw = row_sums(g, xs as int, xe as int, yy as int);
                (t.0 + rw.0, t.1 + rw.1, t.2 + rw.2)
            });
            assert((yy + 1 - ys) * (xe - xs) == (yy - ys) * (xe - xs) + (xe - xs))
                by (nonlinear_arith);
        }
        yy = yy + 1;
    }
    if count > 0 {
        proof {
            crate::arith::lemma_div_bound(rs as int, 255, count as int);
            crate::arith::lemma_div_bound(gs as int, 255, count as int);
            crate::arith::lemma_div_bound(bs as int, 255, count as int);
            assert(((xe - xs) * (ye - ys)) as int == count as int) by (nonlinear_arith)
                requires
                    count as int == ((ye - ys) as int) * ((xe - xs) as int),
            ;
        }
        Pixel {
            r: (rs / (count as u128)) as u8,
            g: (gs / (count as u128)) as u8,
            b: (bs / (count as u128)) as u8,
        }
    } else {
        proof {
            assert(((xe - xs) as int) * ((ye - ys) as int) == 0) by (nonlinear_arith)
                requires
                    ((ye - ys) as int) * ((xe - xs) as int) == 0,
            ;
        }
        Pixel { r: 0, g: 0, b: 0 }
    }
}

/// The biased reconstruction error between the source and the simulated
/// downsampling.
fn calculate_error(orig: &Image, sim: &Image) -> (out: Image)
    requires
        orig.wf(),
        sim.wf(),
        sim@.w == orig@.w,
        sim@.h == orig@.h,
    ensures
        out.wf(),
        out@ == err_grid(orig@, sim@),
{
    let ow = orig.width;
    let oh = orig.height;
    let n = orig.pixels.len();
    proof {
        assert(ow * oh == n);
    }
    let ghost m = err_grid(orig@, sim@);
    let mut out = Image::new(ow, oh);
    let mut y: usize = 0;
    while y < oh
        invariant
            orig.wf(),
            sim.wf(),
            sim@.w == orig@.w,
            sim@.h == orig@.h,
            ow == orig@.w,
            oh == orig@.h,
            y <= oh,
            m == err_grid(orig@, sim@),
            out.wf(),
            out.width == ow,
            out.height == oh,
            forall|i: int| 0 <= i < y * ow ==> out@.d[i] == m.d[i],
        decreases oh - y,
    {
        let mut x: usize = 0;
        while x < ow
            invariant
                orig.wf(),
                sim.wf(),
                sim@.w == orig@.w,
                sim@.h == orig@.h,
                ow == orig@.w,
                oh == orig@.h,
                y < oh,
                x <= ow,
                m == err_grid(orig@, sim@),
                out.wf(),
                out.width == ow,
                out.height == oh,
                forall|i: int| 0 <= i < y * ow + x ==> out@.d[i] == m.d[i],
            decreases ow - x,
        {
            let o = orig.get_pixel(x, y).unwrap();
            let s = sim.get_pixel(x, y).unwrap();
            let p = Pixel { r: err_ch_exec(o.r, s.r), g: err_ch_exec(o.g, s.g), b: err_ch_exec(o.b, s.b) };
            proof {
                crate::image::lemma_row_major_index(ow as int, oh as int, x as int, y as int);
            }
            out.set_pixel(x, y, p);
            proof {
                lemma_row_major_coords(ow as int, x as int, y as int);
                assert(out@.d[y * ow + x] == p);
            }
            x = x + 1;
        }
        proof {
            assert((y + 1) * ow == y * ow + ow) by (nonlinear_arith);
        }
        y = y + 1;
    }
    proof {
        assert(oh * ow == ow * oh) by (nonlinear_arith);
        assert(out@ =~= m);
    }
    out
}

/// One biased error channel, on machine integers.
fn err_ch_exec(o: u8, s: u8) -> (r: u8)
    ensures
        r == err_ch(o, s),
{
    let v: i32 = o as i32 - s as i32 + 128;
    if v < 0 {
        0
    } else if v > 255 {
        255
    } else {
        v as u8
    }
}

/// One back-projected channel, on machine integers.
fn bp_ch_exec(c: u8, e: u8, rn: u32, rd: u32) -> (r: u8)
    requires
        1 <= rd <= 1000,
        rn <= rd,
    ensures
        r == bp_ch(c, e, rn as int, rd as int),
{
    proof {
        crate::arith::lemma_mul_bound(c as int, 255, rd as int, 1000);
        crate::arith::lemma_mul_signed_bound(rn as int, 1000, (e as int) - 128, 128);
        assert(((e as int) - 128) * (rn as int) == (rn as int) * ((e as int) - 128))
            by (nonlinear_arith);
    }
    let num: i64 = (c as i64) * (rd as i64) + ((e as i64) - 128) * (rn as i64);
    if num < 0 {
        0
    } else {
        let q = (num as u64) / (rd as u64);
        proof {
            crate::arith::lemma_div_bound(num as int, 0x1_0000_0000, rd as int);
            assert(num as int <= 0x1_0000_0000 * (rd as int)) by (nonlinear_arith)
                requires
                    num as int <= 383000,
                    1 <= rd as int,
            ;
        }
        if q >= 255 {
            255
        } else {
            q as u8
        }
    }
}

/// One back-projection pass of the biased error into the high-resolution
/// estimate.
fn back_project(high: &Image, err: &Image, scale: Scale, rn: u32, rd: u32) -> (out: Image)
    requires
        high.wf(),
        err.wf(),
        scale.wf(),
        1 <= rd <= 1000,
        rn <= rd,
    ensures
        out.wf(),
        out@ == bp_grid(high@, err@, scale, rn as int, rd as int),
{
    let hw = high.width;
    let hh = high.height;
    let n = high.pixels.len();
    proof {
        assert(hw * hh == n);
    }
    let ghost m = bp_grid(high@, err@, scale, rn as int, rd as int);
    let mut out = Image::new(hw, hh);
    let mut y: usize = 0;
    while y < hh
        invariant
            high.wf(),
            err.wf(),
            scale.wf(),
            1 <= rd <= 1000,
            rn <= rd,
            hw == high@.w,
            hh == high@.h,
            y <= hh,
            m == bp_grid(high@, err@, scale, rn as int, rd as int),
            out.wf(),
            out.width == hw,
            out.height == hh,
            forall|i: int| 0 <= i < y * hw ==> out@.d[i] == m.d[i],
        decreases hh - y,
    {
        let mut x: usize = 0;
        while x < hw
            invariant
                high.wf(),
                err.wf(),
                scale.wf(),
                1 <= rd <= 1000,
                rn <= rd,
                hw == high@.w,
                hh == high@.h,
                y < hh,
                x <= hw,
                m == bp_grid(high@, err@, scale, rn as int, rd as int),
                out.wf(),
                out.width == hw,
                out.height == hh,
                forall|i: int| 0 <= i < y * hw + x ==> out@.d[i] == m.d[i],
            decreases hw - x,
        {
            let sxw = crate::scale::div_floor_scaled(x, scale);
            let syw = crate::scale::div_floor_scaled(y, scale);
            let cur = high.get_pixel(x, y).unwrap();
            let p = if sxw < err.width as u128 && syw < err.height as u128 {
                let sx = sxw as usize;
                let sy = syw as usize;
                let e = err.get_pixel(sx, sy).unwrap();
                Pixel {
                    r: bp_ch_exec(cur.r, e.r, rn, rd),
                    g: bp_ch_exec(cur.g, e.g, rn, rd),
                    b: bp_ch_exec(cur.b, e.b, rn, rd),
                }
            } else {
                cur
            };
            proof {
                crate::image::lemma_row_major_index(hw as int, hh as int, x as int, y as int);
            }
            out.set_pixel(x, y, p);
            proof {
                lemma_row_major_coords(hw as int, x as int, y as int);
                assert(out@.d[y * hw + x] == p);
            }
            x = x + 1;
        }
        proof {
            assert((y + 1) * hw == y * hw + hw) by (nonlinear_arith);
        }
        y = y + 1;
    }
    proof {
        assert(hh * hw == hw * hh) by (nonlinear_arith);
        assert(out@ =~= m);
    }
    out
}

impl IterativeBackProjection {
    /// Upscale by iterative back-projection: start from the bilinear upscale
    /// and run the fixed number of simulate / compare / back-project passes;
    /// the output has dimensions `round(w * scale)` x `round(h * scale)`.
    pub fn upscale(&self, image: &Image, scale: Scale) -> (out: Image)
        requires
            self.wf(),
            upscale_req(image@, scale),
        ensures
            out.wf(),
            out@ == ibp_iterate(
                image@,
                scale,
                self.rate_num as int,
                self.rate_den as int,
                self.iterations as nat,
            ),
    {
        let n = image.pixels.len();
        proof {
            assert(image@.w * image@.h == n);
        }
        let mut result = Bilinear.upscale(image, scale);
        let mut it: usize = 0;
        while it < self.iterations
            invariant
                self.wf(),
                upscale_req(image@, scale),
                image@.w * image@.h <= usize::MAX,
                it <= self.iterations,
                result.wf(),
                result@ == ibp_iterate(
                    image@,
                    scale,
                    self.rate_num as int,
                    self.rate_den as int,
                    it as nat,
                ),
            decreases self.iterations - it,
        {
            let simulated = simulate_downsample(&result, image.width, image.height);
            let error = calculate_error(image, &simulated);
            result = back_project(&result, &error, scale, self.rate_num, self.rate_den);
            it = it + 1;
        }
        result
    }

    /// The display name of this algorithm.
    pub fn name(&self) -> (r: &'static str)
        ensures
            r@ == "Iterative Back-Projection"@,
    {
        "Iterative Back-Projection"
    }

    /// Cost class: slow.
    pub fn tier(&self) -> (t: UpscaleTier)
        ensures
            t == UpscaleTier::Slow,
    {
        UpscaleTier::Slow
    }
}

/// Total-variation magnitude of one channel from the forward differences to
/// the right and bottom neighbors: the floor of `sqrt(dx^2 + dy^2)`.
pub open spec fn tv_ch(cv: u8, rv: u8, bv: u8) -> int {
    sqrt_floor((((rv - cv) * (rv - cv)) + ((bv - cv) * (bv - cv))) as nat) as int
}

/// One channel after a total-variation smoothing step: the pixel moves
/// toward its neighbors by the adaptive weight
/// `lambda / (totalTv + 1e-6)` times the summed channel differences,
/// clamped to `[0, 255]`.
pub open spec fn tv_new_ch(cv: u8, s: int, ttv: int, ln: int, ld: int) -> u8 {
    let d = ld * (1000000 * ttv + 1);
    let num = cv * d + ln * 1000000 * s;
    if num < 0 {
        0u8
    } else if num / d >= 255 {
        255u8
    } else {
        (num / d) as u8
    }
}

/// One pixel after a total-variation smoothing step, from the pre-iteration
/// grid.
pub open spec fn tv_px(g: GridV, x: int, y: int, ln: int, ld: int) -> Pixel {
    let c = g.at(x, y);
    let right = g.at_clamped(x + 1, y);
    let bottom = g.at_clamped(x, y + 1);
    let left = g.at_clamped(x - 1, y);
    let top = g.at_clamped(x, y - 1);
    let ttv = tv_ch(c.r, right.r, bottom.r) + tv_ch(c.g, right.g, bottom.g) + tv_ch(
        c.b,
        right.b,
        bottom.b,
    );
    let sr = (left.r - c.r) + (right.r - c.r) + (top.r - c.r) + (bottom.r - c.r);
    let sg = (left.g - c.g) + (right.g - c.g) + (top.g - c.g) + (bottom.g - c.g);
    let sb = (left.b - c.b) + (right.b - c.b) + (top.b - c.b) + (bottom.b - c.b);
    Pixel {
        r: tv_new_ch(c.r, sr, ttv, ln, ld),
        g: tv_new_ch(c.g, sg, ttv, ln, ld),
        b: tv_new_ch(c.b, sb, ttv, ln, ld),
    }
}

/// One full total-variation pass: every pixel is computed from the
/// pre-iteration grid and the updates apply only after the pass completes.
pub open spec fn tv_step(g: GridV, ln: int, ld: int) -> GridV {
    grid_from(g.w, g.h, |x: int, y: int| tv_px(g, x, y, ln, ld))
}

/// The total-variation result after `n` smoothing passes over the bicubic
/// seed; zero passes give exactly the bicubic upscale.
pub open spec fn tv_iterate(orig: GridV, s: Scale, ln: int, ld: int, n: nat) -> GridV
    decreases n,
{
    if n == 0 {
        bicubic_grid(orig, s)
    } else {
        tv_step(tv_iterate(orig, s, ln, ld, (n - 1) as nat), ln, ld)
    }
}

/// Run with zero iterations, total-variation regularization degrades exactly
/// to its bicubic seed.
pub proof fn lemma_tv_zero_is_bicubic(orig: GridV, s: Scale, ln: int, ld: int)
    ensures
        tv_iterate(orig, s, ln, ld, 0) == bicubic_grid(orig, s),
{
}

/// Total-variation regularization: smooth a bicubic seed with
/// gradient-weighted local averaging that preserves strong edges.
#[derive(Clone, Copy)]
pub struct TotalVariation {
    /// Number of smoothing passes.
    pub iterations: usize,
    /// Regularization-strength numerator.
    pub lambda_num: u32,
    /// Regularization-strength denominator.
    pub lambda_den: u32,
}

impl TotalVariation {
    /// The regularization strength is a positive rational with small parts.
    pub open spec fn wf(self) -> bool {
        &&& 1 <= self.lambda_den <= 1000
        &&& 1 <= self.lambda_num <= 1000
    }

    /// Standard parameters: 15 iterations at strength 1/10.
    pub fn new() -> (r: TotalVariation)
        ensures
            r == (TotalVariation { iterations: 15usize, lambda_num: 1u32, lambda_den: 10u32 }),
            r.wf(),
    {
        TotalVariation { iterations: 15, lambda_num: 1, lambda_den: 10 }
    }
}

impl Default for TotalVariation {
    /// The standard parameters.
    fn default() -> (r: TotalVariation)
        ensures
            r == (TotalVariation { iterations: 15usize, lambda_num: 1u32, lambda_den: 10u32 }),
    {
        TotalVariation::new()
    }
}

/// One smoothed channel, on machine integers.
fn tv_new_ch_exec(cv: u8, s: i64, ttv: u64, ln: u32, ld: u32) -> (r: u8)
    requires
        1 <= ld <= 1000,
        1 <= ln <= 1000,
        ttv <= 1100,
        -1020 <= s <= 1020,
    ensures
        r == tv_new_ch(cv, s as int, ttv as int, ln as int, ld as int),
{
    proof {
        crate::arith::lemma_mul_bound(ld as int, 1000, 1000000 * (ttv as int) + 1, 0x4_1000_0000);
        crate::arith::lemma_mul_bound(
            cv as int,
            255,
            (ld as int) * (1000000 * (ttv as int) + 1),
            0x3E8_4000_0000_0000,
        );
        crate::arith::lemma_mul_signed_bound(1000000 * (ln as int), 1000000000, s as int, 1020);
    }
    let d: i128 = (ld as i128) * (1000000 * (ttv as i128) + 1);
    proof {
        assert(d >= 1) by (nonlinear_arith)
            requires
                d == (ld as int) * (1000000 * (ttv as int) + 1),
                1 <= ld as int,
                0 <= ttv as int,
        ;
    }
    let num: i128 = (cv as i128) * d + (1000000 * (ln as i128)) * (s as i128);
    proof {
        assert((cv as int) * (d as int) + (1000000 * (ln as int)) * (s as int) == (cv as int) * (
        d as int) + (ln as int) * 1000000 * (s as int)) by (nonlinear_arith);
    }
    if num < 0 {
        0
    } else {
        let q = (num as u128) / (d as u128);
        proof {
            vstd::arithmetic::div_mod::lemma_div_pos_is_pos(num as int, d as int);
        }
        if q >= 255 {
            255
        } else {
            q as u8
        }
    }
}

/// One smoothed pixel at `(x, y)`, from the pre-iteration image.
fn tv_px_exec(image: &Image, x: usize, y: usize, ln: u32, ld: u32) -> (p: Pixel)
    requires
        image.wf(),
        image@.w >= 1,
        image@.h >= 1,
        x < image@.w,
        y < image@.h,
        1 <= ld <= 1000,
        1 <= ln <= 1000,
    ensures
        p == tv_px(image@, x as int, y as int, ln as int, ld as int),
{
    let c = image.get_pixel(x, y).unwrap();
    let xi = x as i128;
    let yi = y as i128;
    let right = image.clamped_wide(xi + 1, yi);
    let bottom = image.clamped_wide(xi, yi + 1);
    let left = image.clamped_wide(xi - 1, yi);
    let top = image.clamped_wide(xi, yi - 1);
    let tvr = tv_ch_exec(c.r, right.r, bottom.r);
    let tvg = tv_ch_exec(c.g, right.g, bottom.g);
    let tvb = tv_ch_exec(c.b, right.b, bottom.b);
    let ttv = tvr + tvg + tvb;
    let sr = neigh_sum(c.r, left.r, right.r, top.r, bottom.r);
    let sg = neigh_sum(c.g, left.g, right.g, top.g, bottom.g);
    let sb = neigh_sum(c.b, left.b, right.b, top.b, bottom.b);
    Pixel {
        r: tv_new_ch_exec(c.r, sr, ttv, ln, ld),
        g: tv_new_ch_exec(c.g, sg, ttv, ln, ld),
        b: tv_new_ch_exec(c.b, sb, ttv, ln, ld),
    }
}

/// The total-variation magnitude of one channel, on machine integers.
fn tv_ch_exec(cv: u8, rv: u8, bv: u8) -> (r: u64)
    ensures
        r == tv_ch(cv, rv, bv),
        r <= 361,
{
    let dx: i64 = rv as i64 - cv as i64;
    let dy: i64 = bv as i64 - cv as i64;
    proof {
        assert(0 <= dx * dx <= 65025 && 0 <= dy * dy <= 65025) by (nonlinear_arith)
            requires
                -255 <= dx <= 255,
                -255 <= dy <= 255,
        ;
    }
    let sq: u64 = (dx * dx) as u64 + (dy * dy) as u64;
    let r = isqrt_u64(sq);
    proof {
        assert(r <= 361) by (nonlinear_arith)
            requires
                r * r <= 130050,
                0 <= r,
        ;
    }
    r
}

/// The summed differences of one channel toward the four clamped neighbors.
fn neigh_sum(cv: u8, l: u8, r: u8, t: u8, b: u8) -> (s: i64)
    ensures
        s == (l - cv) + (r - cv) + (t - cv) + (b - cv),
        -1020 <= s <= 1020,
{
    (l as i64 - cv as i64) + (r as i64 - cv as i64) + (t as i64 - cv as i64) + (b as i64
        - cv as i64)
}

/// One full total-variation pass over the image.
fn tv_iteration(image: &Image, ln: u32, ld: u32) -> (out: Image)
    requires
        image.wf(),
        image@.w >= 1,
        image@.h >= 1,
        1 <= ld <= 1000,
        1 <= ln <= 1000,
    ensures
        out.wf(),
        out@ == tv_step(image@, ln as int, ld as int),
{
    let w = image.width;
    let h = image.height;
    let n = image.pixels.len();
    proof {
        assert(w * h == n);
    }
    let ghost m = tv_step(image@, ln as int, ld as int);
    let mut out = Image::new(w, h);
    let mut y: usize = 0;
    while y < h
        invariant
            image.wf(),
            image@.w >= 1,
            image@.h >= 1,
            1 <= ld <= 1000,
            1 <= ln <= 1000,
            w == image@.w,
            h == image@.h,
            y <= h,
            m == tv_step(image@, ln as int, ld as int),
            out.wf(),
            out.width == w,
            out.height == h,
            forall|i: int| 0 <= i < y * w ==> out@.d[i] == m.d[i],
        decreases h - y,
    {
        let mut x: usize = 0;
        while x < w
            invariant
                image.wf(),
                image@.w >= 1,
                image@.h >= 1,
                1 <= ld <= 1000,
                1 <= ln <= 1000,
                w == image@.w,
                h == image@.h,
                y < h,
                x <= w,
                m == tv_step(image@, ln as int, ld as int),
                out.wf(),
                out.width == w,
                out.height == h,
                forall|i: int| 0 <= i < y * w + x ==> out@.d[i] == m.d[i],
            decreases w - x,
        {
            let p = tv_px_exec(image, x, y, ln, ld);
            proof {
                crate::image::lemma_row_major_index(w as int, h as int, x as int, y as int);
            }
            out.set_pixel(x, y, p);
            proof {
                lemma_row_major_coords(w as int, x as int, y as int);
                assert(out@.d[y * w + x] == p);
            }
            x = x + 1;
        }
        proof {
            assert((y + 1) * w == y * w + w) by (nonlinear_arith);
        }
        y = y + 1;
    }
    proof {
        assert(h * w == w * h) by (nonlinear_arith);
        assert(out@ =~= m);
    }
    out
}

impl TotalVariation {
    /// Upscale by total-variation regularization: start from the bicubic
    /// upscale and run the fixed number of gradient-weighted smoothing
    /// passes; the output has dimensions
    /// `round(w * scale)` x `round(h * scale)`.
    pub fn upscale(&self, image: &Image, scale: Scale) -> (out: Image)
        requires
            self.wf(),
            upscale_req(image@, scale),
        ensures
            out.wf(),
            out@ == tv_iterate(
                image@,
                scale,
                self.lambda_num as int,
                self.lambda_den as int,
                self.iterations as nat,
            ),
    {
        let mut result = Bicubic.upscale(image, scale);
        let mut it: usize = 0;
        while it < self.iterations
            invariant
                self.wf(),
                upscale_req(image@, scale),
                it <= self.iterations,
                result.wf(),
                result@.w == scaled_dim(image@.w, scale),
                result@.h == scaled_dim(image@.h, scale),
                result@ == tv_iterate(
                    image@,
                    scale,
                    self.lambda_num as int,
                    self.lambda_den as int,
                    it as nat,
                ),
            decreases self.iterations - it,
        {
            if result.width >= 1 && result.height >= 1 {
                result = tv_iteration(&result, self.lambda_num, self.lambda_den);
            } else {
                proof {
                    lemma_tv_step_empty(result@, self.lambda_num as int, self.lambda_den as int);
                }
            }
            it = it + 1;
        }
        result
    }

    /// The display name of this algorithm.
    pub fn name(&self) -> (r: &'static str)
        ensures
            r@ == "Total Variation Regularization"@,
    {
        "Total Variation Regularization"
    }

    /// Cost class: slow.
    pub fn tier(&self) -> (t: UpscaleTier)
        ensures
            t == UpscaleTier::Slow,
    {
        UpscaleTier::Slow
    }
}

/// A smoothing pass leaves a grid with no pixels unchanged.
proof fn lemma_tv_step_empty(g: GridV, ln: int, ld: int)
    requires
        g.wf(),
        g.w == 0 || g.h == 0,
    ensures
        tv_step(g, ln, ld) == g,
{
    assert(g.w * g.h == 0) by (nonlinear_arith)
        requires
            g.w == 0 || g.h == 0,
    ;
    assert(tv_step(g, ln, ld).d =~= g.d);
    assert(tv_step(g, ln, ld) =~= g);
}

} // verus!
