//! Fast-tier resamplers: bicubic interpolation with the Catmull-Rom kernel
//! (exact rational weights) and Lanczos resampling (fixed-point sinc weights
//! with a rational-polynomial sine approximation).

use vstd::prelude::*;
use crate::arith::{floor_div_mod_i128, lemma_div_magnitude, lemma_mul_abs_bound};
use crate::image::{
    GridV, Image, Pixel, grid_from, lemma_row_major_coords, wavg, WEIGHT_BOUND,
};
use crate::scale::{Scale, map_src, scaled_dim, scaled_dim_exec, src_fx, src_x0};
use crate::upscale_tier::UpscaleTier;

verus! {

/// Catmull-Rom cubic kernel value at `t = tn / q`, scaled by `2 * q^3` so it
/// is an exact integer: `1.5|t|^3 - 2.5t^2 + 1` for `|t| < 1`,
/// `-0.5|t|^3 + 2.5t^2 - 4|t| + 2` for `1 <= |t| < 2`, else 0.
pub open spec fn cubic_num(tn: int, q: int) -> int {
    let a = if tn < 0 {
        -tn
    } else {
        tn
    };
    if a < q {
        3 * a * a * a - 5 * a * a * q + 2 * q * q * q
    } else if a < 2 * q {
        -(a * a * a) + 5 * a * a * q - 8 * a * q * q + 4 * q * q * q
    } else {
        0
    }
}

/// The scaled cubic kernel stays within `48 q^3` in magnitude.
proof fn lemma_cubic_num_bound(tn: int, q: int)
    requires
        1 <= q <= 20000,
        -3 * q <= tn <= 3 * q,
    ensures
        -0x2_0000_0000_0000 <= cubic_num(tn, q) <= 0x2_0000_0000_0000,
{
    let a = if tn < 0 {
        -tn
    } else {
        tn
    };
    assert(-(48 * q * q * q) <= cubic_num(tn, q) <= 48 * q * q * q) by (nonlinear_arith)
        requires
            1 <= q,
            0 <= a <= 3 * q,
            cubic_num(tn, q) == if a < q {
                3 * a * a * a - 5 * a * a * q + 2 * q * q * q
            } else if a < 2 * q {
                -(a * a * a) + 5 * a * a * q - 8 * a * q * q + 4 * q * q * q
            } else {
                0
            },
    ;
    assert(48 * q * q * q <= 0x2_0000_0000_0000) by (nonlinear_arith)
        requires
            1 <= q <= 20000,
    ;
}

/// The scaled cubic kernel, on machine integers.
fn cubic_num_exec(tn: i128, q: i128) -> (r: i128)
    requires
        1 <= q <= 20000,
        -3 * q <= tn <= 3 * q,
    ensures
        r == cubic_num(tn as int, q as int),
        -0x2_0000_0000_0000 <= r <= 0x2_0000_0000_0000,
{
    proof {
        lemma_cubic_num_bound(tn as int, q as int);
    }
    let a: i128 = if tn < 0 {
        -tn
    } else {
        tn
    };
    proof {
        let ai = a as int;
        let qi = q as int;
        assert(0 <= 3 * ai * ai * ai <= 0x10_0000_0000_0000 && 0 <= 5 * ai * ai <= 0x10_0000_0000_0000
            && 0 <= 5 * ai * ai * qi <= 0x1000_0000_0000_0000 && 0 <= 2 * qi * qi * qi
            <= 0x10_0000_0000_0000 && 0 <= ai * ai * ai <= 0x10_0000_0000_0000 && 0 <= 8 * ai * qi
            <= 0x10_0000_0000_0000 && 0 <= 8 * ai * qi * qi <= 0x1000_0000_0000_0000 && 0 <= 4 * qi
            * qi * qi <= 0x10_0000_0000_0000 && 0 <= ai * ai <= 0x10_0000_0000_0000 && 0 <= 3 * ai
            * ai <= 0x10_0000_0000_0000 && 0 <= 2 * qi * qi <= 0x10_0000_0000_0000 && 0 <= 4 * qi
            * qi <= 0x10_0000_0000_0000) by (nonlinear_arith)
            requires
                0 <= ai <= 60000,
                1 <= qi <= 20000,
        ;
    }
    if a < q {
        3 * a * a * a - 5 * a * a * q + 2 * q * q * q
    } else if a < 2 * q {
        -(a * a * a) + 5 * a * a * q - 8 * a * q * q + 4 * q * q * q
    } else {
        0
    }
}

/// Bicubic upscaling: each output pixel is the weighted average of its 4x4
/// clamped source neighborhood under the separable Catmull-Rom kernel.
/// Weights may be negative; the average clamps each channel to `[0, 255]`.
#[derive(Clone, Copy)]
pub struct Bicubic;

/// The 16 pixel/weight pairs bicubic averages for output pixel `(x, y)`:
/// sample `k` reads the clamped source pixel at offset
/// `(k % 4 - 1, k / 4 - 1)` from the floored source coordinate, weighted by
/// the product of the two 1-D kernel values.
pub open spec fn bicubic_pairs(g: GridV, s: Scale, x: int, y: int) -> Seq<(Pixel, i128)> {
    let q = 2 * s.num;
    let x0 = src_x0(x, s);
    let fx = src_fx(x, s);
    let y0 = src_x0(y, s);
    let fy = src_fx(y, s);
    Seq::new(
        16,
        |k: int|
            (
                g.at_clamped(x0 + (k % 4 - 1), y0 + (k / 4 - 1)),
                (cubic_num((k % 4 - 1) * q - fx, q) * cubic_num(
                    (k / 4 - 1) * q - fy,
                    q,
                )) as i128,
            ),
    )
}

/// The bicubic interpolation at output pixel `(x, y)`.
pub open spec fn bicubic_sample(g: GridV, s: Scale, x: int, y: int) -> Pixel {
    wavg(bicubic_pairs(g, s, x, y))
}

/// The whole bicubic output grid.
pub open spec fn bicubic_grid(g: GridV, s: Scale) -> GridV {
    grid_from(
        scaled_dim(g.w, s),
        scaled_dim(g.h, s),
        |x: int, y: int| bicubic_sample(g, s, x, y),
    )
}

/// One bicubic sample at output pixel `(x, y)`.
pub(crate) fn sample_bicubic(image: &Image, scale: Scale, x: usize, y: usize) -> (p: Pixel)
    requires
        image.wf(),
        image@.w >= 1,
        image@.h >= 1,
        scale.wf(),
    ensures
        p == bicubic_sample(image@, scale, x as int, y as int),
{
    let ghost ps = bicubic_pairs(image@, scale, x as int, y as int);
    let (x0, fx) = map_src(x, scale);
    let (y0, fy) = map_src(y, scale);
    let q: i128 = 2 * (scale.num as i128);
    let mut pairs: Vec<(Pixel, i128)> = Vec::new();
    let mut k: usize = 0;
    while k < 16
        invariant
            image.wf(),
            image@.w >= 1,
            image@.h >= 1,
            scale.wf(),
            k <= 16,
            q == 2 * scale.num,
            1 <= q <= 20000,
            x0 == src_x0(x as int, scale),
            fx == src_fx(x as int, scale),
            y0 == src_x0(y as int, scale),
            fy == src_fx(y as int, scale),
            fx < q,
            fy < q,
            -10000 <= x0 <= 0x2_0000_0000_0000_0000_0000,
            -10000 <= y0 <= 0x2_0000_0000_0000_0000_0000,
            ps == bicubic_pairs(image@, scale, x as int, y as int),
            pairs@ =~= ps.take(k as int),
            forall|j: int|
                0 <= j < pairs@.len() ==> -WEIGHT_BOUND <= (#[trigger] pairs@[j]).1
                    <= WEIGHT_BOUND,
        decreases 16 - k,
    {
        let dx: i128 = (k % 4) as i128 - 1;
        let dy: i128 = (k / 4) as i128 - 1;
        proof {
            assert(-(q as int) <= dx * q <= 2 * q && -(q as int) <= dy * q <= 2 * q)
                by (nonlinear_arith)
                requires
                    -1 <= dx <= 2,
                    -1 <= dy <= 2,
                    1 <= q,
            ;
        }
        let px = image.clamped_wide(x0 + dx, y0 + dy);
        let wx = cubic_num_exec(dx * q - (fx as i128), q);
        let wy = cubic_num_exec(dy * q - (fy as i128), q);
        proof {
            crate::arith::lemma_mul_abs_bound(
                wx as int,
                0x2_0000_0000_0000,
                wy as int,
                0x2_0000_0000_0000,
            );
            assert(ps[k as int] == (px, (wx * wy) as i128)) by {
                assert(ps[k as int] == (
                    image@.at_clamped(x0 + dx, y0 + dy),
                    (cubic_num(dx * (q as int) - fx, q as int) * cubic_num(
                        dy * (q as int) - fy,
                        q as int,
                    )) as i128,
                ));
            };
            assert(ps.take(k + 1).drop_last() =~= ps.take(k as int));
            assert(ps.take(k + 1).last() == ps[k as int]);
        }
        let w = wx * wy;
        pairs.push((px, w));
        k = k + 1;
    }
    proof {
        assert(ps.take(16) =~= ps);
    }
    Pixel::weighted_average(&pairs)
}

impl Bicubic {
    /// Upscale by bicubic interpolation; the output has dimensions
    /// `round(w * scale)` x `round(h * scale)` and every output pixel is the
    /// Catmull-Rom weighted average of its 4x4 clamped source neighborhood.
    pub fn upscale(&self, image: &Image, scale: Scale) -> (out: Image)
        requires
            crate::instant::upscale_req(image@, scale),
        ensures
            out.wf(),
            out@ == bicubic_grid(image@, scale),
    {
        let sw = scaled_dim_exec(image.width, scale);
        let sh = scaled_dim_exec(image.height, scale);
        let ghost m = bicubic_grid(image@, scale);
        let mut out = Image::new(sw, sh);
        let mut y: usize = 0;
        while y < sh
            invariant
                crate::instant::upscale_req(image@, scale),
                y <= sh,
                sw == scaled_dim(image@.w, scale),
                sh == scaled_dim(image@.h, scale),
                m == bicubic_grid(image@, scale),
                out.wf(),
                out.width == sw,
                out.height == sh,
                forall|i: int| 0 <= i < y * sw ==> out@.d[i] == m.d[i],
            decreases sh - y,
        {
            let mut x: usize = 0;
            while x < sw
                invariant
                    crate::instant::upscale_req(image@, scale),
                    y < sh,
                    x <= sw,
                    sw == scaled_dim(image@.w, scale),
                    sh == scaled_dim(image@.h, scale),
                    m == bicubic_grid(image@, scale),
                    out.wf(),
                    out.width == sw,
                    out.height == sh,
                    forall|i: int| 0 <= i < y * sw + x ==> out@.d[i] == m.d[i],
                decreases sw - x,
            {
                let p = sample_bicubic(image, scale, x, y);
                proof {
                    crate::image::lemma_row_major_index(sw as int, sh as int, x as int, y as int);
                }
                out.set_pixel(x, y, p);
                proof {
                    lemma_row_major_coords(sw as int, x as int, y as int);
                    assert(out@.d[y * sw + x] == p);
                }
                x = x + 1;
            }
            proof {
                assert((y + 1) * sw == y * sw + sw) by (nonlinear_arith);
            }
            y = y + 1;
        }
        proof {
            assert(sh * sw <= out@.d.len()) by (nonlinear_arith)
                requires
                    out@.d.len() == sw * sh,
            ;
            assert(out@ =~= m);
        }
        out
    }

    /// The display name of this algorithm.
    pub fn name(&self) -> (r: &'static str)
        ensures
            r@ == "Bicubic"@,
    {
        "Bicubic"
    }

    /// Cost class: fast.
    pub fn tier(&self) -> (t: UpscaleTier)
        ensures
            t == UpscaleTier::Fast,
    {
        UpscaleTier::Fast
    }
}

/// One in the fixed-point scale used by the Lanczos kernel (20 fraction
/// bits).
pub const FIXED_ONE: i128 = 0x10_0000;

/// Pi in the fixed-point scale, rounded to the nearest unit.
pub const PI_FIXED: i128 = 3294199;

/// `sin(pi x)` for `x` in `[0, 1]` (fixed point), by the rational
/// approximation `16 x (1 - x) / (5 - 4 x (1 - x))`.
pub open spec fn sin_half_fixed(xq: int) -> int {
    let p = xq * (FIXED_ONE - xq) / (FIXED_ONE as int);
    16 * p * FIXED_ONE / (5 * FIXED_ONE - 4 * p)
}

/// `sin(pi x)` for any `x >= 0` (fixed point): reduce by the period 2 and
/// negate on the second half-period.
pub open spec fn sin_any_fixed(xq: int) -> int {
    let m = xq % (2 * FIXED_ONE);
    if m < FIXED_ONE {
        sin_half_fixed(m)
    } else {
        -sin_half_fixed(m - FIXED_ONE)
    }
}

/// Lanczos kernel at `t = tn / q` with the given lobe count, in fixed point:
/// `sinc(pi t) * sinc(pi t / lobes)` for `0 < |t| < lobes`, exactly one at
/// `t = 0`, exactly zero at `|t| >= lobes`; the fixed-point value saturates
/// at one in magnitude.
pub open spec fn lanczos_fixed(tn: int, q: int, lobes: int) -> int {
    let a = if tn < 0 {
        -tn
    } else {
        tn
    };
    if tn == 0 {
        FIXED_ONE as int
    } else if a >= lobes * q {
        0
    } else {
        let tq = a * FIXED_ONE / q;
        if tq < lobes {
            FIXED_ONE as int
        } else {
            let x2 = tq / lobes;
            let s1 = sin_any_fixed(tq);
            let s2 = sin_half_fixed(x2);
            let sinc1 = s1 * FIXED_ONE * FIXED_ONE / (PI_FIXED * tq);
            let sinc2 = s2 * FIXED_ONE * FIXED_ONE / (PI_FIXED * x2);
            let v = sinc1 * sinc2 / (FIXED_ONE as int);
            if v > FIXED_ONE {
                FIXED_ONE as int
            } else if v < -FIXED_ONE {
                -(FIXED_ONE as int)
            } else {
                v
            }
        }
    }
}

/// The Lanczos kernel is exactly one at `t = 0` and exactly zero at
/// `|t| = lobes` (and beyond), for every lobe count.
pub proof fn lemma_lanczos_kernel_ends(tn: int, q: int, lobes: int)
    requires
        1 <= q,
        1 <= lobes,
    ensures
        lanczos_fixed(0, q, lobes) == FIXED_ONE,
        tn != 0 && (tn >= lobes * q || tn <= -(lobes * q)) ==> lanczos_fixed(tn, q, lobes) == 0,
{
}

/// `sin(pi x)` on the first half-period, on machine integers.
fn sin_half_exec(xq: u64) -> (r: u64)
    requires
        xq <= 0x10_0000,
    ensures
        r == sin_half_fixed(xq as int),
        r <= 0x10_0000,
{
    proof {
        let xi = xq as int;
        assert(0 <= xi * (0x10_0000 - xi) && 4 * (xi * (0x10_0000 - xi)) <= 0x10_0000int * 0x10_0000
            && xi * (0x10_0000 - xi) <= 0x100_0000_0000) by (nonlinear_arith)
            requires
                0 <= xi <= 0x10_0000,
        ;
    }
    let p: u64 = xq * (0x10_0000 - xq) / 0x10_0000;
    proof {
        let prod = (xq as int) * ((0x10_0000u64 - xq) as int);
        vstd::arithmetic::div_mod::lemma_fundamental_div_mod(prod, 0x10_0000);
        vstd::arithmetic::div_mod::lemma_mod_division_less_than_divisor(prod, 0x10_0000);
        assert(4 * (p as int) <= 0x10_0000) by (nonlinear_arith)
            requires
                p as int == prod / 0x10_0000,
                0 <= prod,
                4 * prod <= 0x10_0000int * 0x10_0000,
                0x10_0000int * (prod / 0x10_0000) + prod % 0x10_0000 == prod,
                0 <= prod % 0x10_0000,
        ;
    }
    let den: u64 = 5 * 0x10_0000 - 4 * p;
    let num: u64 = 16 * p * 0x10_0000;
    proof {
        assert((num as int) <= 0x10_0000 * (den as int)) by (nonlinear_arith)
            requires
                num as int == 16 * (p as int) * 0x10_0000,
                den as int == 5 * 0x10_0000 - 4 * (p as int),
                4 * (p as int) <= 0x10_0000,
                0 <= p as int,
        ;
        crate::arith::lemma_div_bound(num as int, 0x10_0000, den as int);
    }
    num / den
}

/// `sin(pi x)` for `x` up to the largest lobe count, on machine integers.
fn sin_any_exec(xq: u64) -> (r: i128)
    requires
        xq <= 4 * 0x10_0000,
    ensures
        r == sin_any_fixed(xq as int),
        -0x10_0000 <= r <= 0x10_0000,
{
    let m: u64 = xq % (2 * 0x10_0000);
    if m < 0x10_0000 {
        sin_half_exec(m) as i128
    } else {
        -(sin_half_exec(m - 0x10_0000) as i128)
    }
}

/// The Lanczos kernel, on machine integers.
fn lanczos_kernel_exec(tn: i128, q: i128, lobes: u32) -> (r: i128)
    requires
        1 <= q <= 20000,
        2 <= lobes <= 4,
        -5 * q <= tn <= 5 * q,
    ensures
        r == lanczos_fixed(tn as int, q as int, lobes as int),
        -0x10_0000 <= r <= 0x10_0000,
{
    let a: i128 = if tn < 0 {
        -tn
    } else {
        tn
    };
    proof {
        assert(2 <= (lobes as int) * (q as int) <= 80000) by (nonlinear_arith)
            requires
                2 <= lobes as int <= 4,
                1 <= q as int <= 20000,
        ;
    }
    let lq: i128 = (lobes as i128) * q;
    if tn == 0 {
        0x10_0000
    } else if a >= lq {
        0
    } else {
        proof {
            assert(0 <= (a as int) * 0x10_0000 <= 0x8_0000_0000_0000) by (nonlinear_arith)
                requires
                    0 <= a as int <= 80000,
            ;
        }
        let tq128: i128 = a * 0x10_0000 / q;
        proof {
            vstd::arithmetic::div_mod::lemma_div_pos_is_pos((a as int) * 0x10_0000, q as int);
            assert((a as int) * 0x10_0000 / (q as int) < (lobes as int) * 0x10_0000)
                by (nonlinear_arith)
                requires
                    1 <= q,
                    0 <= a as int,
                    (a as int) < (lobes as int) * (q as int),
            ;
        }
        let tq: i128 = tq128;
        if tq < lobes as i128 {
            0x10_0000
        } else {
            let x2: i128 = tq / (lobes as i128);
            proof {
                vstd::arithmetic::div_mod::lemma_div_pos_is_pos(tq as int, lobes as int);
                assert(1 <= (tq as int) / (lobes as int) <= 0x10_0000) by (nonlinear_arith)
                    requires
                        2 <= lobes as int <= 4,
                        lobes as int <= tq as int,
                        (tq as int) < (lobes as int) * 0x10_0000,
                ;
            }
            let s1 = sin_any_exec(tq as u64);
            let s2 = sin_half_exec(x2 as u64) as i128;
            proof {
                lemma_mul_abs_bound(
                    s1 as int,
                    0x10_0000,
                    0x10_0000int * 0x10_0000,
                    0x10_0000int * 0x10_0000,
                );
                assert(0x4_0000 <= (PI_FIXED as int) * (tq as int) <= 0x4_0000_0000_0000)
                    by (nonlinear_arith)
                    requires
                        2 <= tq as int <= 0x40_0000,
                ;
                assert(0x4_0000 <= (PI_FIXED as int) * (x2 as int) <= 0x4_0000_0000_0000)
                    by (nonlinear_arith)
                    requires
                        1 <= x2 as int <= 0x10_0000,
                ;
            }
            let (sinc1, _r1) = floor_div_mod_i128(
                s1 * (0x10_0000 * 0x10_0000),
                PI_FIXED * tq,
            );
            let (sinc2, _r2) = floor_div_mod_i128(
                s2 * (0x10_0000 * 0x10_0000),
                PI_FIXED * x2,
            );
            proof {
                lemma_div_magnitude(s1 as int * (0x10_0000 * 0x10_0000), PI_FIXED as int * (
                tq as int), 0x1000_0000_0000_0000);
                lemma_div_magnitude(s2 as int * (0x10_0000 * 0x10_0000), PI_FIXED as int * (
                x2 as int), 0x1000_0000_0000_0000);
                lemma_mul_abs_bound(
                    sinc1 as int,
                    0x1000_0000_0000_0001,
                    sinc2 as int,
                    0x1000_0000_0000_0001,
                );
            }
            let (v, _r3) = floor_div_mod_i128(sinc1 * sinc2, 0x10_0000);
            if v > 0x10_0000 {
                0x10_0000
            } else if v < -0x10_0000 {
                -0x10_0000
            } else {
                v
            }
        }
    }
}

/// Lanczos upscaling, parametrized by the lobe count: each output pixel is
/// the weighted average of its `(2 lobes) x (2 lobes)` clamped source
/// neighborhood under the separable Lanczos kernel. Higher lobe counts trade
/// sharpness for cost.
#[derive(Clone, Copy)]
pub struct Lanczos {
    /// Kernel half-width; 2, 3 or 4 lobes.
    pub lobes: i32,
}

impl Lanczos {
    /// The lobe count is one the kernel supports.
    pub open spec fn wf(self) -> bool {
        2 <= self.lobes <= 4
    }

    /// Lanczos with 3 lobes: a good quality/performance balance.
    pub fn new() -> (r: Lanczos)
        ensures
            r.lobes == 3,
            r.wf(),
    {
        Lanczos { lobes: 3 }
    }

    /// Lanczos with 2 lobes: faster, slightly softer.
    pub fn fast() -> (r: Lanczos)
        ensures
            r.lobes == 2,
            r.wf(),
    {
        Lanczos { lobes: 2 }
    }

    /// Lanczos with 4 lobes: highest quality, slower.
    pub fn high_quality() -> (r: Lanczos)
        ensures
            r.lobes == 4,
            r.wf(),
    {
        Lanczos { lobes: 4 }
    }
}

impl Default for Lanczos {
    /// The 3-lobe kernel.
    fn default() -> (r: Lanczos)
        ensures
            r.lobes == 3,
    {
        Lanczos::new()
    }
}

/// The `(2 lobes)^2` pixel/weight pairs Lanczos averages for output pixel
/// `(x, y)`: sample `k` reads the clamped source pixel at offset
/// `(k % (2 lobes) - lobes + 1, k / (2 lobes) - lobes + 1)` from the floored
/// source coordinate, weighted by the product of the two 1-D kernel values.
pub open spec fn lanczos_pairs(g: GridV, s: Scale, lobes: int, x: int, y: int) -> Seq<
    (Pixel, i128),
> {
    let q = 2 * s.num;
    let side = 2 * lobes;
    let x0 = src_x0(x, s);
    let fx = src_fx(x, s);
    let y0 = src_x0(y, s);
    let fy = src_fx(y, s);
    Seq::new(
        (side * side) as nat,
        |k: int|
            (
                g.at_clamped(x0 + (k % side - (lobes - 1)), y0 + (k / side - (lobes - 1))),
                (lanczos_fixed((k % side - (lobes - 1)) * q - fx, q, lobes) * lanczos_fixed(
                    (k / side - (lobes - 1)) * q - fy,
                    q,
                    lobes,
                )) as i128,
            ),
    )
}

/// The Lanczos interpolation at output pixel `(x, y)`.
pub open spec fn lanczos_sample(g: GridV, s: Scale, lobes: int, x: int, y: int) -> Pixel {
    wavg(lanczos_pairs(g, s, lobes, x, y))
}

/// The whole Lanczos output grid.
pub open spec fn lanczos_grid(g: GridV, s: Scale, lobes: int) -> GridV {
    grid_from(
        scaled_dim(g.w, s),
        scaled_dim(g.h, s),
        |x: int, y: int| lanczos_sample(g, s, lobes, x, y),
    )
}

/// One Lanczos sample at output pixel `(x, y)`.
pub(crate) fn sample_lanczos(
    image: &Image,
    scale: Scale,
    lobes: u32,
    x: usize,
    y: usize,
) -> (p: Pixel)
    requires
        image.wf(),
        image@.w >= 1,
        image@.h >= 1,
        scale.wf(),
        2 <= lobes <= 4,
    ensures
        p == lanczos_sample(image@, scale, lobes as int, x as int, y as int),
{
    let ghost ps = lanczos_pairs(image@, scale, lobes as int, x as int, y as int);
    let (x0, fx) = map_src(x, scale);
    let (y0, fy) = map_src(y, scale);
    let q: i128 = 2 * (scale.num as i128);
    let side: usize = 2 * (lobes as usize);
    proof {
        assert(0 <= (side as int) * (side as int) <= 64) by (nonlinear_arith)
            requires
                0 <= side as int <= 8,
        ;
    }
    let count: usize = side * side;
    proof {
        assert(ps.len() == count) by (nonlinear_arith)
            requires
                ps.len() == (2 * (lobes as int)) * (2 * (lobes as int)),
                count == (2 * (lobes as int)) * (2 * (lobes as int)),
        ;
    }
    let mut pairs: Vec<(Pixel, i128)> = Vec::new();
    let mut k: usize = 0;
    while k < count
        invariant
            image.wf(),
            image@.w >= 1,
            image@.h >= 1,
            scale.wf(),
            2 <= lobes <= 4,
            k <= count,
            count == side * side,
            side == 2 * lobes,
            count <= 64,
            q == 2 * scale.num,
            1 <= q <= 20000,
            x0 == src_x0(x as int, scale),
            fx == src_fx(x as int, scale),
            y0 == src_x0(y as int, scale),
            fy == src_fx(y as int, scale),
            fx < q,
            fy < q,
            -10000 <= x0 <= 0x2_0000_0000_0000_0000_0000,
            -10000 <= y0 <= 0x2_0000_0000_0000_0000_0000,
            ps == lanczos_pairs(image@, scale, lobes as int, x as int, y as int),
            ps.len() == count,
            pairs@ =~= ps.take(k as int),
            forall|j: int|
                0 <= j < pairs@.len() ==> -WEIGHT_BOUND <= (#[trigger] pairs@[j]).1
                    <= WEIGHT_BOUND,
        decreases count - k,
    {
        let dx: i128 = (k % side) as i128 - (lobes as i128 - 1);
        let dy: i128 = (k / side) as i128 - (lobes as i128 - 1);
        proof {
            vstd::arithmetic::div_mod::lemma_fundamental_div_mod(k as int, side as int);
            vstd::arithmetic::div_mod::lemma_mod_division_less_than_divisor(k as int, side as int);
            assert(0 <= (k as int) / (side as int) < side as int) by (nonlinear_arith)
                requires
                    0 <= k as int,
                    (k as int) < (side as int) * (side as int),
                    1 <= side as int,
                    (side as int) * ((k as int) / (side as int)) + (k as int) % (side as int) == (
                    k as int),
                    0 <= (k as int) % (side as int) < (side as int),
            ;
            assert(-4 * (q as int) <= dx * q <= 4 * (q as int) && -4 * (q as int) <= dy * q <= 4 * (
            q as int)) by (nonlinear_arith)
                requires
                    -3 <= dx <= 4,
                    -3 <= dy <= 4,
                    1 <= q,
            ;
        }
        let px = image.clamped_wide(x0 + dx, y0 + dy);
        let wx = lanczos_kernel_exec(dx * q - (fx as i128), q, lobes);
        let wy = lanczos_kernel_exec(dy * q - (fy as i128), q, lobes);
        proof {
            lemma_mul_abs_bound(wx as int, 0x10_0000, wy as int, 0x10_0000);
            assert(ps[k as int] == (px, (wx * wy) as i128));
            assert(ps.take(k + 1).drop_last() =~= ps.take(k as int));
            assert(ps.take(k + 1).last() == ps[k as int]);
        }
        let w = wx * wy;
        pairs.push((px, w));
        k = k + 1;
    }
    proof {
        assert(ps.take(count as int) =~= ps);
    }
    Pixel::weighted_average(&pairs)
}

impl Lanczos {
    /// Upscale by Lanczos resampling; the output has dimensions
    /// `round(w * scale)` x `round(h * scale)` and every output pixel is the
    /// sinc-weighted average of its `(2 lobes)^2` clamped source
    /// neighborhood.
    pub fn upscale(&self, image: &Image, scale: Scale) -> (out: Image)
        requires
            self.wf(),
            crate::instant::upscale_req(image@, scale),
        ensures
            out.wf(),
            out@ == lanczos_grid(image@, scale, self.lobes as int),
    {
        let lobes = self.lobes as u32;
        let sw = scaled_dim_exec(image.width, scale);
        let sh = scaled_dim_exec(image.height, scale);
        let ghost m = lanczos_grid(image@, scale, self.lobes as int);
        let mut out = Image::new(sw, sh);
        let mut y: usize = 0;
        while y < sh
            invariant
                crate::instant::upscale_req(image@, scale),
                2 <= lobes <= 4,
                lobes == self.lobes,
                y <= sh,
                sw == scaled_dim(image@.w, scale),
                sh == scaled_dim(image@.h, scale),
                m == lanczos_grid(image@, scale, lobes as int),
                out.wf(),
                out.width == sw,
                out.height == sh,
                forall|i: int| 0 <= i < y * sw ==> out@.d[i] == m.d[i],
            decreases sh - y,
        {
            let mut x: usize = 0;
            while x < sw
                invariant
                    crate::instant::upscale_req(image@, scale),
                    2 <= lobes <= 4,
                    lobes == self.lobes,
                    y < sh,
                    x <= sw,
                    sw == scaled_dim(image@.w, scale),
                    sh == scaled_dim(image@.h, scale),
                    m == lanczos_grid(image@, scale, lobes as int),
                    out.wf(),
                    out.width == sw,
                    out.height == sh,
                    forall|i: int| 0 <= i < y * sw + x ==> out@.d[i] == m.d[i],
                decreases sw - x,
            {
                let p = sample_lanczos(image, scale, lobes, x, y);
                proof {
                    crate::image::lemma_row_major_index(sw as int, sh as int, x as int, y as int);
                }
                out.set_pixel(x, y, p);
                proof {
                    lemma_row_major_coords(sw as int, x as int, y as int);
                    assert(out@.d[y * sw + x] == p);
                }
                x = x + 1;
            }
            proof {
                assert((y + 1) * sw == y * sw + sw) by (nonlinear_arith);
            }
            y = y + 1;
        }
        proof {
            assert(sh * sw <= out@.d.len()) by (nonlinear_arith)
                requires
                    out@.d.len() == sw * sh,
            ;
            assert(out@ =~= m);
        }
        out
    }

    /// The display name of this algorithm, by lobe count.
    pub fn name(&self) -> (r: &'static str)
        ensures
            r@ == self.name_spec(),
    {
        match self.lobes {
            2 => "Lanczos2",
            3 => "Lanczos3",
            4 => "Lanczos4",
            _ => "Lanczos",
        }
    }

    /// The text `name` returns for each lobe count.
    pub open spec fn name_spec(self) -> Seq<char> {
        if self.lobes == 2 {
            "Lanczos2"@
        } else if self.lobes == 3 {
            "Lanczos3"@
        } else if self.lobes == 4 {
            "Lanczos4"@
        } else {
            "Lanczos"@
        }
    }

    /// Cost class: fast.
    pub fn tier(&self) -> (t: UpscaleTier)
        ensures
            t == UpscaleTier::Fast,
    {
        UpscaleTier::Fast
    }
}


} // verus!

