//! The preprocessing stage: simple denoising (3x3 averaging) and sharpening
//! (unsharp masking), each applied to interior pixels only.

use vstd::prelude::*;
use crate::image::{GridV, Image, Pixel, grid_from, lemma_row_major_coords};

verus! {

/// A pixel of the denoised image: interior pixels become the truncated mean
/// of their 3x3 neighborhood; border pixels are unchanged.
pub open spec fn denoise_px(g: GridV, x: int, y: int) -> Pixel {
    if 1 <= x && x < g.w - 1 && 1 <= y && y < g.h - 1 {
        let sr = g.at(x - 1, y - 1).r + g.at(x, y - 1).r + g.at(x + 1, y - 1).r + g.at(
            x - 1,
            y,
        ).r + g.at(x, y).r + g.at(x + 1, y).r + g.at(x - 1, y + 1).r + g.at(x, y + 1).r + g.at(
            x + 1,
            y + 1,
        ).r;
        let sg = g.at(x - 1, y - 1).g + g.at(x, y - 1).g + g.at(x + 1, y - 1).g + g.at(
            x - 1,
            y,
        ).g + g.at(x, y).g + g.at(x + 1, y).g + g.at(x - 1, y + 1).g + g.at(x, y + 1).g + g.at(
            x + 1,
            y + 1,
        ).g;
        let sb = g.at(x - 1, y - 1).b + g.at(x, y - 1).b + g.at(x + 1, y - 1).b + g.at(
            x - 1,
            y,
        ).b + g.at(x, y).b + g.at(x + 1, y).b + g.at(x - 1, y + 1).b + g.at(x, y + 1).b + g.at(
            x + 1,
            y + 1,
        ).b;
        Pixel { r: (sr / 9) as u8, g: (sg / 9) as u8, b: (sb / 9) as u8 }
    } else {
        g.at(x, y)
    }
}

/// The whole denoised grid.
pub open spec fn denoise_grid(g: GridV) -> GridV {
    grid_from(g.w, g.h, |x: int, y: int| denoise_px(g, x, y))
}

/// Signed division by two that truncates toward zero, as machine division
/// does.
pub open spec fn tdiv2(v: int) -> int {
    if v >= 0 {
        v / 2
    } else {
        -((-v) / 2)
    }
}

/// One sharpened channel: half the difference from the 4-neighbor average is
/// added back and the result clamps to `[0, 255]`.
pub open spec fn sharpen_ch(c: u8, l: u8, r: u8, t: u8, b: u8) -> u8 {
    let avg = (l + r + t + b) / 4;
    let v = c + tdiv2(c - avg);
    if v < 0 {
        0u8
    } else if v > 255 {
        255u8
    } else {
        v as u8
    }
}

/// A pixel of the sharpened image: interior pixels move away from their
/// 4-neighbor average (unsharp masking); border pixels are unchanged.
pub open spec fn sharpen_px(g: GridV, x: int, y: int) -> Pixel {
    if 1 <= x && x < g.w - 1 && 1 <= y && y < g.h - 1 {
        let c = g.at(x, y);
        let l = g.at(x - 1, y);
        let r = g.at(x + 1, y);
        let t = g.at(x, y - 1);
        let b = g.at(x, y + 1);
        Pixel {
            r: sharpen_ch(c.r, l.r, r.r, t.r, b.r),
            g: sharpen_ch(c.g, l.g, r.g, t.g, b.g),
            b: sharpen_ch(c.b, l.b, r.b, t.b, b.b),
        }
    } else {
        g.at(x, y)
    }
}

/// The whole sharpened grid.
pub open spec fn sharpen_grid(g: GridV) -> GridV {
    grid_from(g.w, g.h, |x: int, y: int| sharpen_px(g, x, y))
}

/// One sharpened channel, on machine integers.
fn sharpen_ch_exec(c: u8, l: u8, r: u8, t: u8, b: u8) -> (res: u8)
    ensures
        res == sharpen_ch(c, l, r, t, b),
{
    let avg: i32 = (l as i32 + r as i32 + t as i32 + b as i32) / 4;
    let d: i32 = c as i32 - avg;
    let half: i32 = if d >= 0 {
        d / 2
    } else {
        -((-d) / 2)
    };
    let v: i32 = c as i32 + half;
    if v < 0 {
        0
    } else if v > 255 {
        255
    } else {
        v as u8
    }
}

/// Denoise by 3x3 averaging over interior pixels; border pixels are copied
/// unchanged.
pub fn apply_simple_denoise(image: &Image) -> (out: Image)
    requires
        image.wf(),
        image@.w >= 1,
        image@.h >= 1,
    ensures
        out.wf(),
        out@ == denoise_grid(image@),
{
    let w = image.width;
    let h = image.height;
    let n = image.pixels.len();
    proof {
        assert(w * h == n);
    }
    let ghost m = denoise_grid(image@);
    let mut out = Image::new(w, h);
    let mut y: usize = 0;
    while y < h
        invariant
            image.wf(),
            image@.w >= 1,
            image@.h >= 1,
            w == image@.w,
            h == image@.h,
            y <= h,
            m == denoise_grid(image@),
            out.wf(),
            out.width == w,
            out.height == h,
            forall|i: int| 0 <= i < y * w ==> out@.d[i] == m.d[i],
        decreases h - y,
    {
        let mut x: usize = 0;
        while x < w
            invariant
                image.wf(),
                image@.w >= 1,
                image@.h >= 1,
                w == image@.w,
                h == image@.h,
                y < h,
                x <= w,
                m == denoise_grid(image@),
                out.wf(),
                out.width == w,
                out.height == h,
                forall|i: int| 0 <= i < y * w + x ==> out@.d[i] == m.d[i],
            decreases w - x,
        {
            let p = if 1 <= x && x + 1 < w && 1 <= y && y + 1 < h {
                let mut rs: u32 = 0;
                let mut gs: u32 = 0;
                let mut bs: u32 = 0;
                let p00 = image.get_pixel(x - 1, y - 1).unwrap();
                let p10 = image.get_pixel(x, y - 1).unwrap();
                let p20 = image.get_pixel(x + 1, y - 1).unwrap();
                let p01 = image.get_pixel(x - 1, y).unwrap();
                let p11 = image.get_pixel(x, y).unwrap();
                let p21 = image.get_pixel(x + 1, y).unwrap();
                let p02 = image.get_pixel(x - 1, y + 1).unwrap();
                let p12 = image.get_pixel(x, y + 1).unwrap();
                let p22 = image.get_pixel(x + 1, y + 1).unwrap();
                rs = p00.r as u32 + p10.r as u32 + p20.r as u32 + p01.r as u32 + p11.r as u32
                    + p21.r as u32 + p02.r as u32 + p12.r as u32 + p22.r as u32;
                gs = p00.g as u32 + p10.g as u32 + p20.g as u32 + p01.g as u32 + p11.g as u32
                    + p21.g as u32 + p02.g as u32 + p12.g as u32 + p22.g as u32;
                bs = p00.b as u32 + p10.b as u32 + p20.b as u32 + p01.b as u32 + p11.b as u32
                    + p21.b as u32 + p02.b as u32 + p12.b as u32 + p22.b as u32;
                Pixel { r: (rs / 9) as u8, g: (gs / 9) as u8, b: (bs / 9) as u8 }
            } else {
                image.get_pixel(x, y).unwrap()
            };
            proof {
                crate::image::lemma_row_major_index(w as int, h as int, x as int, y as int);
            }
            out.set_pixel(x, y, p);
            proof {
                lemma_row_major_coords(w as int, x as int, y as int);
                assert(out@.d[y * w + x] == p);
            }
            x = x + 1;
        }
        proof {
            assert((y + 1) * w == y * w + w) by (nonlinear_arith);
        }
        y = y + 1;
    }
    proof {
        assert(h * w == w * h) by (nonlinear_arith);
        assert(out@ =~= m);
    }
    out
}

/// Sharpen by unsharp masking over interior pixels; border pixels are copied
/// unchanged.
pub fn apply_simple_sharpen(image: &Image) -> (out: Image)
    requires
        image.wf(),
        image@.w >= 1,
        image@.h >= 1,
    ensures
        out.wf(),
        out@ == sharpen_grid(image@),
{
    let w = image.width;
    let h = image.height;
    let n = image.pixels.len();
    proof {
        assert(w * h == n);
    }
    let ghost m = sharpen_grid(image@);
    let mut out = Image::new(w, h);
    let mut y: usize = 0;
    while y < h
        invariant
            image.wf(),
            image@.w >= 1,
            image@.h >= 1,
            w == image@.w,
            h == image@.h,
            y <= h,
            m == sharpen_grid(image@),
            out.wf(),
            out.width == w,
            out.height == h,
            forall|i: int| 0 <= i < y * w ==> out@.d[i] == m.d[i],
        decreases h - y,
    {
        let mut x: usize = 0;
        while x < w
            invariant
                image.wf(),
                image@.w >= 1,
                image@.h >= 1,
                w == image@.w,
                h == image@.h,
                y < h,
                x <= w,
                m == sharpen_grid(image@),
                out.wf(),
                out.width == w,
                out.height == h,
                forall|i: int| 0 <= i < y * w + x ==> out@.d[i] == m.d[i],
            decreases w - x,
        {
            let p = if 1 <= x && x + 1 < w && 1 <= y && y + 1 < h {
                let c = image.get_pixel(x, y).unwrap();
                let l = image.get_pixel(x - 1, y).unwrap();
                let r = image.get_pixel(x + 1, y).unwrap();
                let t = image.get_pixel(x, y - 1).unwrap();
                let b = image.get_pixel(x, y + 1).unwrap();
                Pixel {
                    r: sharpen_ch_exec(c.r, l.r, r.r, t.r, b.r),
                    g: sharpen_ch_exec(c.g, l.g, r.g, t.g, b.g),
                    b: sharpen_ch_exec(c.b, l.b, r.b, t.b, b.b),
                }
            } else {
                image.get_pixel(x, y).unwrap()
            };
            proof {
                crate::image::lemma_row_major_index(w as int, h as int, x as int, y as int);
            }
            out.set_pixel(x, y, p);
            proof {
                lemma_row_major_coords(w as int, x as int, y as int);
                assert(out@.d[y * w + x] == p);
            }
            x = x + 1;
        }
        proof {
            assert((y + 1) * w == y * w + w) by (nonlinear_arith);
        }
        y = y + 1;
    }
    proof {
        assert(h * w == w * h) by (nonlinear_arith);
        assert(out@ =~= m);
    }
    out
}

/// Applies the detected preprocessing steps before upscaling.
#[derive(Debug, Clone, Copy)]
pub struct PreprocessImageEvent;

impl PreprocessImageEvent {
    /// The preprocessing stage.
    pub fn new() -> (r: PreprocessImageEvent) {
        PreprocessImageEvent
    }

    /// Apply the requested steps in order: denoising first, sharpening
    /// second.
    pub fn run(&self, image: &Image, needs_denoising: bool, needs_sharpening: bool) -> (out: Image)
        requires
            image.wf(),
            image@.w >= 1,
            image@.h >= 1,
        ensures
            out.wf(),
            out@ == ({
                let after_denoise = if needs_denoising {
                    denoise_grid(image@)
                } else {
                    image@
                };
                if needs_sharpening {
                    sharpen_grid(after_denoise)
                } else {
                    after_denoise
                }
            }),
    {
        if needs_denoising {
            let denoised = apply_simple_denoise(image);
            if needs_sharpening {
                apply_simple_sharpen(&denoised)
            } else {
                denoised
            }
        } else {
            if needs_sharpening {
                apply_simple_sharpen(image)
            } else {
                image.duplicate()
            }
        }
    }
}

impl Default for PreprocessImageEvent {
    /// The preprocessing stage.
    fn default() -> (r: PreprocessImageEvent) {
        PreprocessImageEvent::new()
    }
}

} // verus!
