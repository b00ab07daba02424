//! Rational scale factors and the shared output-to-source coordinate
//! mappings: output dimensions are `round(dim * scale)`, and kernel samplers
//! map an output pixel to the source point `(x + 0.5) / scale - 0.5`
//! (pixel-center convention), kept as an exact rational.

use vstd::prelude::*;
use crate::arith::floor_div_mod_i128;

verus! {

/// Largest numerator or denominator of a scale factor: rationals with parts
/// up to 10000 give a resolution of 1/10000 over the range (0, 10000].
pub const SCALE_PART_MAX: u32 = 10000;

/// A positive rational scale factor `num / den`.
#[derive(Debug, Clone, Copy, PartialEq, Eq, Structural)]
pub struct Scale {
    pub num: u32,
    pub den: u32,
}

impl Scale {
    /// Both parts are in `[1, SCALE_PART_MAX]`.
    pub open spec fn wf(self) -> bool {
        &&& 1 <= self.num <= SCALE_PART_MAX
        &&& 1 <= self.den <= SCALE_PART_MAX
    }

    /// The scale factor equals exactly 1.
    pub open spec fn is_one(self) -> bool {
        self.num == self.den
    }

    /// The scale factor equals exactly 2.
    pub open spec fn is_two(self) -> bool {
        self.num == 2 * self.den
    }

    /// The rational `num / den`; fails exactly when a part is zero or above
    /// `SCALE_PART_MAX`.
    pub fn new(num: u32, den: u32) -> (r: Option<Scale>)
        ensures
            r is Some <==> (1 <= num <= SCALE_PART_MAX && 1 <= den <= SCALE_PART_MAX),
            r is Some ==> r->0 == (Scale { num, den }),
    {
        if 1 <= num && num <= SCALE_PART_MAX && 1 <= den && den <= SCALE_PART_MAX {
            Some(Scale { num, den })
        } else {
            None
        }
    }

    /// The whole-number scale factor `n`.
    pub fn whole(n: u32) -> (r: Option<Scale>)
        ensures
            r is Some <==> 1 <= n <= SCALE_PART_MAX,
            r is Some ==> r->0 == (Scale { num: n, den: 1u32 }),
    {
        Scale::new(n, 1)
    }
}

/// Output dimension for source dimension `w` under scale `s`:
/// `round(w * num / den)` with halves rounding up.
pub open spec fn scaled_dim(w: int, s: Scale) -> int {
    (2 * w * s.num + s.den) / (2 * s.den)
}

/// `scaled_dim` computed on machine integers.
pub fn scaled_dim_exec(w: usize, s: Scale) -> (r: usize)
    requires
        s.wf(),
        scaled_dim(w as int, s) <= usize::MAX,
    ensures
        r == scaled_dim(w as int, s),
{
    proof {
        crate::arith::lemma_mul_bound(2 * w as int, 2 * usize::MAX as int, s.num as int, 10000);
    }
    let n: u128 = 2 * (w as u128) * (s.num as u128) + (s.den as u128);
    let d: u128 = 2 * (s.den as u128);
    proof {
        vstd::arithmetic::div_mod::lemma_div_pos_is_pos(n as int, d as int);
    }
    let q: u128 = n / d;
    q as usize
}

/// At scale 1 the output dimension equals the source dimension.
pub proof fn lemma_scaled_dim_one(w: int, s: Scale)
    requires
        s.wf(),
        s.is_one(),
        w >= 0,
    ensures
        scaled_dim(w, s) == w,
{
    let n = s.num as int;
    assert((2 * w * n + n) / (2 * n) == w) by (nonlinear_arith)
        requires
            n >= 1,
            w >= 0,
    ;
}

/// At scale 2 the output dimension is exactly twice the source dimension.
pub proof fn lemma_scaled_dim_two(w: int, s: Scale)
    requires
        s.wf(),
        s.is_two(),
        w >= 0,
    ensures
        scaled_dim(w, s) == 2 * w,
{
    let d = s.den as int;
    assert((2 * w * (2 * d) + d) / (2 * d) == 2 * w) by (nonlinear_arith)
        requires
            d >= 1,
            w >= 0,
    ;
}

/// Source column sampled by nearest-neighbor for output column `x`:
/// `floor(x / scale)` clamped to the last valid index of `dim`.
pub open spec fn nn_src(x: int, dim: int, s: Scale) -> int {
    let v = x * s.den / (s.num as int);
    if v <= dim - 1 {
        v
    } else {
        dim - 1
    }
}

/// `nn_src` computed on machine integers.
pub fn nn_src_exec(x: usize, dim: usize, s: Scale) -> (r: usize)
    requires
        s.wf(),
        dim >= 1,
    ensures
        r == nn_src(x as int, dim as int, s),
        r < dim,
{
    proof {
        crate::arith::lemma_mul_bound(x as int, usize::MAX as int, s.den as int, 10000);
    }
    let v: u128 = (x as u128) * (s.den as u128) / (s.num as u128);
    proof {
        vstd::arithmetic::div_mod::lemma_div_pos_is_pos((x as int) * (s.den as int), s.num as int);
    }
    if v <= (dim - 1) as u128 {
        v as usize
    } else {
        dim - 1
    }
}

/// `floor(x / scale)` without clamping, as the back-projection pass maps a
/// high-resolution pixel to its low-resolution cell.
pub fn div_floor_scaled(x: usize, s: Scale) -> (r: u128)
    requires
        s.wf(),
    ensures
        r == (x as int) * s.den / (s.num as int),
{
    proof {
        crate::arith::lemma_mul_bound(x as int, 0xFFFF_FFFF_FFFF_FFFF, s.den as int, 10000);
        vstd::arithmetic::div_mod::lemma_div_pos_is_pos((x as int) * (s.den as int), s.num as int);
    }
    (x as u128) * (s.den as u128) / (s.num as u128)
}

/// Numerator of the pixel-center source coordinate of output column `x`:
/// the source point is `(x + 0.5) / scale - 0.5 = src_center_num / (2 num)`.
pub open spec fn src_center_num(x: int, s: Scale) -> int {
    (2 * x + 1) * s.den - s.num
}

/// Integer part (floor) of the pixel-center source coordinate.
pub open spec fn src_x0(x: int, s: Scale) -> int {
    src_center_num(x, s) / (2 * s.num)
}

/// Fractional part of the pixel-center source coordinate, as a numerator
/// over the denominator `2 num`; always in `[0, 2 num)`.
pub open spec fn src_fx(x: int, s: Scale) -> int {
    src_center_num(x, s) % (2 * s.num)
}

/// Floor and fractional numerator of the pixel-center source coordinate.
pub fn map_src(x: usize, s: Scale) -> (r: (i128, u64))
    requires
        s.wf(),
    ensures
        r.0 == src_x0(x as int, s),
        r.1 == src_fx(x as int, s),
        r.1 < 2 * s.num,
        -10000 <= r.0 <= 0x2_0000_0000_0000_0000_0000,
{
    proof {
        crate::arith::lemma_mul_bound(
            2 * (x as int) + 1,
            0x2_0000_0000_0000_0000,
            s.den as int,
            10000,
        );
        assert((2 * (x as int) + 1) * (s.den as int) >= 1) by (nonlinear_arith)
            requires
                x >= 0,
                s.den >= 1,
        ;
    }
    let a: i128 = (2 * (x as i128) + 1) * (s.den as i128) - (s.num as i128);
    let d: i128 = 2 * (s.num as i128);
    let (q, fx) = floor_div_mod_i128(a, d);
    proof {
        vstd::arithmetic::div_mod::lemma_fundamental_div_mod(a as int, d as int);
        assert(-10000 <= q as int <= 0x2_0000_0000_0000_0000_0000) by (nonlinear_arith)
            requires
                a as int == (d as int) * (q as int) + (fx as int),
                0 <= (fx as int) < (d as int),
                1 <= d as int,
                -10000 <= a as int <= 0x2_0000_0000_0000_0000_0000,
        ;
    }
    (q, fx as u64)
}

/// At scale 1 the pixel-center mapping is the identity: the floor is `x` and
/// the fractional part is zero.
pub proof fn lemma_map_src_one(x: int, s: Scale)
    requires
        s.wf(),
        s.is_one(),
        x >= 0,
    ensures
        src_x0(x, s) == x,
        src_fx(x, s) == 0,
{
    let n = s.num as int;
    assert(src_center_num(x, s) == 2 * x * n) by (nonlinear_arith)
        requires
            n == s.den as int,
            s.num as int == n,
    ;
    assert((2 * x * n) / (2 * n) == x && (2 * x * n) % (2 * n) == 0) by (nonlinear_arith)
        requires
            n >= 1,
            x >= 0,
    ;
}

} // verus!
