//! The closed set of upscaling algorithms, dispatched uniformly: every
//! algorithm maps an image and a positive rational scale factor to an output
//! of dimensions `round(w * scale)` x `round(h * scale)`.

use vstd::prelude::*;
use crate::fast::{Bicubic, Lanczos, bicubic_grid, lanczos_grid};
use crate::image::{GridV, Image, black_px, lerp_px, lemma_lerp_ch_range, wavg, Pixel};
use crate::instant::{
    Bilinear, NearestNeighbor, bilin_grid, bilin_sample, nn_grid, nn_sample, upscale_req,
};
use crate::medium::{EdgeDirected, ScaleByRules, edge_grid, sbr_model, sbr_req};
use crate::scale::{Scale, scaled_dim, nn_src, src_x0};
use crate::slow::{IterativeBackProjection, TotalVariation, ibp_iterate, tv_iterate};
use crate::upscale_tier::UpscaleTier;

verus! {

/// One of the crate's upscaling algorithms, as a closed tagged set; the
/// registry is fixed, so a closed enum stands in for open polymorphic
/// dispatch.
#[derive(Clone, Copy)]
pub enum Upscaler {
    NearestNeighbor(NearestNeighbor),
    Bilinear(Bilinear),
    Bicubic(Bicubic),
    Lanczos(Lanczos),
    EdgeDirected(EdgeDirected),
    ScaleByRules(ScaleByRules),
    IterativeBackProjection(IterativeBackProjection),
    TotalVariation(TotalVariation),
}

impl Upscaler {
    /// The held algorithm's parameters are well-formed.
    pub open spec fn wf(self) -> bool {
        match self {
            Upscaler::Lanczos(l) => l.wf(),
            Upscaler::IterativeBackProjection(b) => b.wf(),
            Upscaler::TotalVariation(t) => t.wf(),
            _ => true,
        }
    }

    /// What the algorithm asks of its input beyond `upscale_req`.
    pub open spec fn req(self, g: GridV, s: Scale) -> bool {
        &&& upscale_req(g, s)
        &&& (self is ScaleByRules ==> sbr_req(g, s))
    }

    /// The output grid of the held algorithm.
    pub open spec fn model(self, g: GridV, s: Scale) -> GridV {
        match self {
            Upscaler::NearestNeighbor(_) => nn_grid(g, s),
            Upscaler::Bilinear(_) => bilin_grid(g, s),
            Upscaler::Bicubic(_) => bicubic_grid(g, s),
            Upscaler::Lanczos(l) => lanczos_grid(g, s, l.lobes as int),
            Upscaler::EdgeDirected(_) => edge_grid(g, s),
            Upscaler::ScaleByRules(_) => sbr_model(g, s),
            Upscaler::IterativeBackProjection(b) => ibp_iterate(
                g,
                s,
                b.rate_num as int,
                b.rate_den as int,
                b.iterations as nat,
            ),
            Upscaler::TotalVariation(t) => tv_iterate(
                g,
                s,
                t.lambda_num as int,
                t.lambda_den as int,
                t.iterations as nat,
            ),
        }
    }

    /// Upscale the image by the held algorithm.
    pub fn upscale(&self, image: &Image, scale: Scale) -> (out: Image)
        requires
            self.wf(),
            self.req(image@, scale),
        ensures
            out.wf(),
            out@ == self.model(image@, scale),
    {
        match self {
            Upscaler::NearestNeighbor(a) => a.upscale(image, scale),
            Upscaler::Bilinear(a) => a.upscale(image, scale),
            Upscaler::Bicubic(a) => a.upscale(image, scale),
            Upscaler::Lanczos(a) => a.upscale(image, scale),
            Upscaler::EdgeDirected(a) => a.upscale(image, scale),
            Upscaler::ScaleByRules(a) => a.upscale(image, scale),
            Upscaler::IterativeBackProjection(a) => a.upscale(image, scale),
            Upscaler::TotalVariation(a) => a.upscale(image, scale),
        }
    }

    /// The display name of the held algorithm.
    pub fn name(&self) -> (r: &'static str)
        ensures
            r@ == self.name_spec(),
    {
        match self {
            Upscaler::NearestNeighbor(a) => a.name(),
            Upscaler::Bilinear(a) => a.name(),
            Upscaler::Bicubic(a) => a.name(),
            Upscaler::Lanczos(a) => a.name(),
            Upscaler::EdgeDirected(a) => a.name(),
            Upscaler::ScaleByRules(a) => a.name(),
            Upscaler::IterativeBackProjection(a) => a.name(),
            Upscaler::TotalVariation(a) => a.name(),
        }
    }

    /// The text `name` returns for each algorithm.
    pub open spec fn name_spec(self) -> Seq<char> {
        match self {
            Upscaler::NearestNeighbor(_) => "Nearest Neighbor"@,
            Upscaler::Bilinear(_) => "Bilinear"@,
            Upscaler::Bicubic(_) => "Bicubic"@,
            Upscaler::Lanczos(l) => l.name_spec(),
            Upscaler::EdgeDirected(_) => "Edge-Directed Interpolation"@,
            Upscaler::ScaleByRules(_) => "Scale-by-Rules (xBR-like)"@,
            Upscaler::IterativeBackProjection(_) => "Iterative Back-Projection"@,
            Upscaler::TotalVariation(_) => "Total Variation Regularization"@,
        }
    }

    /// The cost class of the held algorithm.
    pub fn tier(&self) -> (t: UpscaleTier)
        ensures
            t == self.tier_spec(),
    {
        match self {
            Upscaler::NearestNeighbor(a) => a.tier(),
            Upscaler::Bilinear(a) => a.tier(),
            Upscaler::Bicubic(a) => a.tier(),
            Upscaler::Lanczos(a) => a.tier(),
            Upscaler::EdgeDirected(a) => a.tier(),
            Upscaler::ScaleByRules(a) => a.tier(),
            Upscaler::IterativeBackProjection(a) => a.tier(),
            Upscaler::TotalVariation(a) => a.tier(),
        }
    }

    /// The cost class of each algorithm.
    pub open spec fn tier_spec(self) -> UpscaleTier {
        match self {
            Upscaler::NearestNeighbor(_) => UpscaleTier::Instant,
            Upscaler::Bilinear(_) => UpscaleTier::Instant,
            Upscaler::Bicubic(_) => UpscaleTier::Fast,
            Upscaler::Lanczos(_) => UpscaleTier::Fast,
            Upscaler::EdgeDirected(_) => UpscaleTier::Medium,
            Upscaler::ScaleByRules(_) => UpscaleTier::Medium,
            Upscaler::IterativeBackProjection(_) => UpscaleTier::Slow,
            Upscaler::TotalVariation(_) => UpscaleTier::Slow,
        }
    }
}

/// The back-projection iteration keeps the dimensions of its bilinear seed.
proof fn lemma_ibp_dims(g: GridV, s: Scale, rn: int, rd: int, n: nat)
    ensures
        ibp_iterate(g, s, rn, rd, n).w == scaled_dim(g.w, s),
        ibp_iterate(g, s, rn, rd, n).h == scaled_dim(g.h, s),
    decreases n,
{
    if n > 0 {
        lemma_ibp_dims(g, s, rn, rd, (n - 1) as nat);
    }
}

/// The total-variation iteration keeps the dimensions of its bicubic seed.
proof fn lemma_tv_dims(g: GridV, s: Scale, ln: int, ld: int, n: nat)
    ensures
        tv_iterate(g, s, ln, ld, n).w == scaled_dim(g.w, s),
        tv_iterate(g, s, ln, ld, n).h == scaled_dim(g.h, s),
    decreases n,
{
    if n > 0 {
        lemma_tv_dims(g, s, ln, ld, (n - 1) as nat);
    }
}

/// For every algorithm and every positive scale factor, the output has
/// exactly `round(w * scale)` columns and `round(h * scale)` rows.
pub proof fn lemma_upscaler_output_dims(u: Upscaler, g: GridV, s: Scale)
    requires
        g.wf(),
        g.w >= 1,
        g.h >= 1,
        s.wf(),
    ensures
        u.model(g, s).w == scaled_dim(g.w, s),
        u.model(g, s).h == scaled_dim(g.h, s),
{
    match u {
        Upscaler::ScaleByRules(_) => {
            if s.is_two() {
                crate::scale::lemma_scaled_dim_two(g.w, s);
                crate::scale::lemma_scaled_dim_two(g.h, s);
            }
        },
        Upscaler::IterativeBackProjection(b) => {
            lemma_ibp_dims(g, s, b.rate_num as int, b.rate_den as int, b.iterations as nat);
        },
        Upscaler::TotalVariation(t) => {
            lemma_tv_dims(g, s, t.lambda_num as int, t.lambda_den as int, t.iterations as nat);
        },
        _ => {},
    }
}

/// Interpolating a pixel with itself gives the pixel back exactly.
pub proof fn lemma_lerp_px_same(a: Pixel, tn: int, td: int)
    requires
        td >= 1,
    ensures
        lerp_px(a, a, tn, td) == a,
{
    lemma_lerp_ch_range(a.r, a.r, tn, td);
    lemma_lerp_ch_range(a.g, a.g, tn, td);
    lemma_lerp_ch_range(a.b, a.b, tn, td);
}

/// An in-range index of a nonempty grid yields in-range coordinates.
proof fn lemma_index_coords(w: int, h: int, i: int)
    requires
        0 <= i < w * h,
        0 <= w,
        0 <= h,
    ensures
        1 <= w,
        0 <= i % w < w,
        0 <= i / w < h,
{
    assert(1 <= w && 1 <= h) by (nonlinear_arith)
        requires
            0 <= i < w * h,
            0 <= w,
            0 <= h,
    ;
    vstd::arithmetic::div_mod::lemma_fundamental_div_mod(i, w);
    vstd::arithmetic::div_mod::lemma_mod_division_less_than_divisor(i, w);
    assert(0 <= i / w < h) by (nonlinear_arith)
        requires
            0 <= i < w * h,
            1 <= w,
            w * (i / w) + (i % w) == i,
            0 <= i % w < w,
    ;
}

/// A clamped read of an all-black grid is black.
proof fn lemma_black_clamped(g: GridV, x: int, y: int)
    requires
        g.wf(),
        g.w >= 1,
        g.h >= 1,
        g.all_black(),
    ensures
        g.at_clamped(x, y) == black_px(),
{
    crate::image::lemma_clamp_in_range(x, g.w);
    crate::image::lemma_clamp_in_range(y, g.h);
    crate::image::lemma_row_major_index(
        g.w,
        g.h,
        crate::image::clampi(x, g.w),
        crate::image::clampi(y, g.h),
    );
}

/// An all-black image upscaled by any kernel resampler (nearest-neighbor,
/// bilinear, bicubic or Lanczos) yields an all-black image.
pub proof fn lemma_kernel_black(u: Upscaler, g: GridV, s: Scale)
    requires
        g.wf(),
        g.w >= 1,
        g.h >= 1,
        s.wf(),
        g.all_black(),
        u is NearestNeighbor || u is Bilinear || u is Bicubic || u is Lanczos,
    ensures
        u.model(g, s).all_black(),
{
    let m = u.model(g, s);
    lemma_upscaler_output_dims(u, g, s);
    assert forall|i: int| 0 <= i < m.d.len() implies m.d[i] == black_px() by {
        lemma_index_coords(m.w, m.h, i);
        let x = i % m.w;
        let y = i / m.w;
        match u {
            Upscaler::NearestNeighbor(_) => {
                assert(m.d[i] == nn_sample(g, s, x, y));
                let sx = nn_src(x, g.w, s);
                let sy = nn_src(y, g.h, s);
                vstd::arithmetic::div_mod::lemma_div_pos_is_pos(x * s.den, s.num as int);
                vstd::arithmetic::div_mod::lemma_div_pos_is_pos(y * s.den, s.num as int);
                assert(0 <= x * s.den) by (nonlinear_arith)
                    requires
                        0 <= x,
                        0 <= s.den,
                ;
                assert(0 <= y * s.den) by (nonlinear_arith)
                    requires
                        0 <= y,
                        0 <= s.den,
                ;
                crate::image::lemma_row_major_index(g.w, g.h, sx, sy);
            },
            Upscaler::Bilinear(_) => {
                assert(m.d[i] == bilin_sample(g, s, x, y));
                let x0 = src_x0(x, s);
                let y0 = src_x0(y, s);
                lemma_black_clamped(g, x0, y0);
                lemma_black_clamped(g, x0 + 1, y0);
                lemma_black_clamped(g, x0, y0 + 1);
                lemma_black_clamped(g, x0 + 1, y0 + 1);
                lemma_lerp_px_same(black_px(), crate::scale::src_fx(x, s), 2 * s.num);
                lemma_lerp_px_same(black_px(), crate::scale::src_fx(y, s), 2 * s.num);
            },
            Upscaler::Bicubic(_) => {
                assert(m.d[i] == wavg(crate::fast::bicubic_pairs(g, s, x, y)));
                let ps = crate::fast::bicubic_pairs(g, s, x, y);
                assert forall|k: int| 0 <= k < ps.len() implies (#[trigger] ps[k]).0
                    == black_px() by {
                    lemma_black_clamped(g, src_x0(x, s) + (k % 4 - 1), src_x0(y, s) + (k / 4 - 1));
                }
                crate::image::lemma_wavg_all_black(ps);
            },
            Upscaler::Lanczos(l) => {
                assert(m.d[i] == wavg(crate::fast::lanczos_pairs(g, s, l.lobes as int, x, y)));
                let ps = crate::fast::lanczos_pairs(g, s, l.lobes as int, x, y);
                let side = 2 * (l.lobes as int);
                assert forall|k: int| 0 <= k < ps.len() implies (#[trigger] ps[k]).0
                    == black_px() by {
                    lemma_black_clamped(
                        g,
                        src_x0(x, s) + (k % side - (l.lobes - 1)),
                        src_x0(y, s) + (k / side - (l.lobes - 1)),
                    );
                }
                crate::image::lemma_wavg_all_black(ps);
            },
            _ => {},
        }
    }
}

} // verus!
